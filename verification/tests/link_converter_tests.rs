use wget_faster_lib::LinkConverter;

fn converter() -> LinkConverter {
    let mut c = LinkConverter::new("out".to_string(), false);
    c.register_file("http://example.com/", "out/example.com/index.html".to_string());
    c.register_file("http://example.com/css/site.css#x", "out/example.com/css/site.css".to_string());
    c.register_file("http://example.com/img/a:b.png", "out/a:b.png".to_string());
    c
}

#[test]
fn links_to_downloaded_files_become_relative() {
    let c = converter();
    let base = "http://example.com/page.html";
    assert_eq!(c.convert_url_to_relative(base, "/css/site.css"), Some("example.com/css/site.css".to_string()));
    assert_eq!(c.convert_url_to_relative(base, "http://example.com/#top"), Some("example.com/index.html".to_string()));
    assert_eq!(c.convert_url_to_relative(base, "img/a:b.png"), Some("./a:b.png".to_string()));
    assert_eq!(c.convert_url_to_relative(base, "/missing.html"), None);
    assert_eq!(c.convert_url_to_relative(base, "#top"), None);
    assert_eq!(c.convert_url_to_relative(base, "mailto:x@example.com"), None);
}

#[test]
fn registering_again_replaces_the_path() {
    let mut c = converter();
    c.register_file("http://example.com/", "out/example.com/home.html".to_string());
    assert_eq!(
        c.convert_url_to_relative("http://example.com/", "http://example.com/"),
        Some("example.com/home.html".to_string())
    );
    assert_eq!(c.files().len(), 3);
}

#[test]
fn html_content_conversion() {
    let c = converter();
    let html = r#"<a href="/css/site.css">s</a><img src="http://example.com/">"#;
    let out = c.convert_html_content(html, "http://example.com/page.html").unwrap();
    assert_eq!(out, r#"<a href="example.com/css/site.css">s</a><img src="example.com/index.html">"#);
    assert!(c.convert_html_content(html, "not a url").is_err());
}

#[test]
fn css_content_conversion() {
    let c = converter();
    let css = "body { background: url('/img/a:b.png'); }\n@import \"css/site.css\";";
    let out = c.convert_css_content(css, "http://example.com/").unwrap();
    assert_eq!(out, "body { background: url('./a:b.png'); }\n@import \"example.com/css/site.css\";");
}

#[test]
fn file_kinds_and_backups() {
    let c = converter();
    assert!(c.is_html_file("out/x/index.HTM"));
    assert!(c.is_css_file("out/site.CSS"));
    assert!(!c.is_css_file("out/site.scss"));
    assert_eq!(c.backup_path("out/h/index.php.html"), "out/h/index.php.orig");
    assert_eq!(c.backup_path("page.html"), "page.orig");
    assert_eq!(c.backup_path("out/README"), "out/README.orig");
    assert_eq!(c.backup_path("out/.bashrc"), "out/.bashrc.orig");
}
