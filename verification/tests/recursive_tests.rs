use wget_faster_lib::recursive::{
    base_path_for, content_type_is_html, extract_links, finish_local_path, format_rejected_url_csv,
    html_by_url, is_html_file, resolve_url, robots_source, url_filter, CrawlState,
};
use wget_faster_lib::robots::RobotsTxt;
use wget_faster_lib::RecursiveConfig;

#[test]
fn test_recursive_config_defaults() {
    let config = RecursiveConfig::default();
    assert_eq!(config.max_depth, 5);
    assert!(!config.page_requisites);
    assert!(!config.convert_links);
    assert!(!config.span_hosts);
}

#[test]
fn test_recursive_config_custom() {
    let mut config = RecursiveConfig::default();
    config.max_depth = 10;
    config.page_requisites = true;
    config.span_hosts = true;
    assert_eq!(config.max_depth, 10);
    assert!(config.page_requisites);
    assert!(config.span_hosts);
}

#[test]
fn test_relative_link_resolution() {
    let resolved = resolve_url("http://example.com/path/page.html", "../other/file.html");
    assert!(resolved.is_ok());
    assert_eq!(resolved.unwrap(), "http://example.com/other/file.html");
}

#[test]
fn test_absolute_url_handling() {
    let resolved = resolve_url("http://example.com/page.html", "http://other.com/file.html");
    assert!(resolved.is_ok());
    assert_eq!(resolved.unwrap(), "http://other.com/file.html");
}

#[test]
fn resolve_skips_data_and_javascript_links() {
    assert!(resolve_url("http://example.com/", "data:image/png;base64,xx").is_err());
    assert!(resolve_url("http://example.com/", "javascript:void(0)").is_err());
    assert!(resolve_url("not a url", "x.html").is_err());
}

fn filter(cfg: &RecursiveConfig, url: &str, depth: usize) -> Option<String> {
    url_filter(cfg, false, "wgetf", url, depth, Some("http://example.com/docs/index.html"), None).unwrap()
}

#[test]
fn starting_url_is_followed() {
    let cfg = RecursiveConfig::default();
    assert_eq!(filter(&cfg, "http://example.com/docs/index.html", 0), None);
    // The HTTPS-only check applies to links only.
    assert_eq!(
        url_filter(&cfg, true, "wgetf", "http://example.com/", 0, None, None).unwrap(),
        None
    );
}

#[test]
fn https_only_rejects_plain_links() {
    let cfg = RecursiveConfig::default();
    let r = url_filter(&cfg, true, "wgetf", "http://example.com/a", 1, None, None).unwrap();
    assert_eq!(r, Some("Non-HTTPS URL rejected (HTTPS-only mode)".to_string()));
}

#[test]
fn other_hosts_are_rejected_without_span_hosts() {
    let cfg = RecursiveConfig::default();
    assert_eq!(
        filter(&cfg, "http://other.org/a.html", 1),
        Some("Domain not in accepted list: other.org".to_string())
    );
    let mut spanning = RecursiveConfig::default();
    spanning.span_hosts = true;
    assert_eq!(filter(&spanning, "http://other.org/a.html", 1), None);
}

#[test]
fn domain_and_extension_filters() {
    let mut cfg = RecursiveConfig::default();
    cfg.span_hosts = true;
    cfg.rejected_domains = vec!["spam".to_string()];
    assert_eq!(
        filter(&cfg, "http://spam.com/x", 1),
        Some("Domain in rejected list: spam.com".to_string())
    );
    cfg.rejected_domains = vec![];
    cfg.accept_extensions = vec!["html".to_string()];
    assert_eq!(filter(&cfg, "http://example.com/a.HTML", 1), None);
    assert_eq!(
        filter(&cfg, "http://example.com/a.png", 1),
        Some("Extension not in accepted list: png".to_string())
    );
    // No extension: the extension filters do not apply.
    assert_eq!(filter(&cfg, "http://example.com/readme", 1), None);
    cfg.accept_extensions = vec![];
    cfg.reject_extensions = vec!["zip".to_string()];
    assert_eq!(
        filter(&cfg, "http://example.com/f.zip", 1),
        Some("Extension in rejected list: zip".to_string())
    );
}

#[test]
fn directory_filters() {
    let mut cfg = RecursiveConfig::default();
    cfg.include_directories = vec!["/docs/".to_string()];
    assert_eq!(filter(&cfg, "http://example.com/docs/a.html", 1), None);
    assert_eq!(
        filter(&cfg, "http://example.com/blog/a.html", 1),
        Some("Directory not in include list: /blog/a.html".to_string())
    );
    cfg.include_directories = vec![];
    cfg.exclude_directories = vec!["/private".to_string()];
    assert_eq!(
        filter(&cfg, "http://example.com/private/a", 1),
        Some("Directory in exclude list: /private/a".to_string())
    );
}

#[test]
fn no_parent_rejects_ascending_links() {
    let mut cfg = RecursiveConfig::default();
    cfg.no_parent = true;
    assert_eq!(filter(&cfg, "http://example.com/docs/sub/a.html", 1), None);
    assert_eq!(
        filter(&cfg, "http://example.com/other.html", 1),
        Some("Ascends to parent directory (no-parent mode)".to_string())
    );
}

#[test]
fn robots_rules_apply_to_links() {
    let cfg = RecursiveConfig::default();
    let robots = RobotsTxt::parse("User-agent: *\nDisallow: /secret/\n");
    let r = url_filter(&cfg, false, "wgetf", "http://example.com/secret/x", 1, None, Some(&robots)).unwrap();
    assert_eq!(r, Some("Rejected by robots.txt rules".to_string()));
    let start = url_filter(&cfg, false, "wgetf", "http://example.com/secret/x", 0, None, Some(&robots)).unwrap();
    assert_eq!(start, None);
}

#[test]
fn invalid_urls_are_errors() {
    let cfg = RecursiveConfig::default();
    assert!(url_filter(&cfg, false, "wgetf", "not a url", 1, None, None).is_err());
    assert!(url_filter(&cfg, false, "wgetf", "mailto:someone@example.com", 1, None, None).is_err());
}

#[test]
fn robots_source_for_links() {
    assert_eq!(robots_source(false, "http://example.com/a", 0), None);
    assert_eq!(
        robots_source(false, "http://example.com/a", 1),
        Some(("http://example.com".to_string(), "http://example.com/robots.txt".to_string()))
    );
    assert_eq!(
        robots_source(false, "https://example.com:8443/a", 2),
        Some(("https://example.com:8443".to_string(), "https://example.com:8443/robots.txt".to_string()))
    );
    assert_eq!(robots_source(true, "http://example.com/a", 1), None);
}

#[test]
fn local_paths() {
    let cfg = RecursiveConfig::default();
    let base = base_path_for(&cfg, "http://example.com/a/b/page.html", "out").unwrap();
    assert_eq!(base, "out/example.com/a/b/page.html");
    assert_eq!(finish_local_path(&cfg, "http://example.com/a/b/page.html", &base, false), "out/example.com/a/b/page.html");
    let dir = base_path_for(&cfg, "http://example.com/a/", "out").unwrap();
    assert_eq!(dir, "out/example.com/a");
    assert_eq!(finish_local_path(&cfg, "http://example.com/a/", &dir, false), "out/example.com/a/index.html");
    let mut flat = RecursiveConfig::default();
    flat.no_directories = true;
    assert_eq!(base_path_for(&flat, "http://example.com/a/b.png", "out").unwrap(), "out/b.png");
    assert_eq!(base_path_for(&flat, "http://example.com/a/", "out").unwrap(), "out/index.html");
    let mut nohost = RecursiveConfig::default();
    nohost.no_host_directories = true;
    assert_eq!(base_path_for(&nohost, "http://example.com/x/y", "").unwrap(), "x/y");
    let mut adjust = RecursiveConfig::default();
    adjust.adjust_extension = true;
    assert_eq!(finish_local_path(&adjust, "http://h/index.php", "out/h/index.php", false), "out/h/index.php.html");
    assert_eq!(finish_local_path(&adjust, "http://h/page.html", "out/h/page.html", false), "out/h/page.html");
    assert_eq!(finish_local_path(&cfg, "http://h/x", "out/h/x", true), "out/h/x/index.html");
    assert!(base_path_for(&cfg, "::bad::", "out").is_err());
}

#[test]
fn html_detection() {
    assert!(is_html_file("out/a/index.HTML"));
    assert!(is_html_file("page.xhtml"));
    assert!(!is_html_file("style.css"));
    assert!(is_html_file("out/dir.html/"));
    assert!(!is_html_file(".html"));
    assert_eq!(html_by_url("http://a/x.htm"), Some(true));
    assert_eq!(html_by_url("http://a/"), Some(true));
    assert_eq!(html_by_url("http://a/pic.jpeg"), Some(false));
    assert_eq!(html_by_url("http://a/page.php"), None);
    assert!(content_type_is_html(Some("text/html; charset=utf-8")));
    assert!(!content_type_is_html(Some("image/png")));
    assert!(content_type_is_html(None));
}

#[test]
fn links_of_a_page() {
    let html = r#"<html><head><link rel="stylesheet" href="s.css"><script src="/js/app.js"></script></head>
        <body><a href="/page1.html">1</a><a href="sub/page2.html#frag">2</a>
        <a href="javascript:void(0)">x</a><img src="i.png" srcset="a.png 1x, b.png 2x">
        <picture><source srcset="c.webp"></picture></body></html>"#;
    let base = "http://example.com/dir/index.html";
    assert_eq!(
        extract_links(html, base, false),
        vec!["http://example.com/page1.html", "http://example.com/dir/sub/page2.html#frag"]
    );
    assert_eq!(
        extract_links(html, base, true),
        vec![
            "http://example.com/page1.html",
            "http://example.com/dir/sub/page2.html#frag",
            "http://example.com/dir/i.png",
            "http://example.com/dir/a.png",
            "http://example.com/dir/b.png",
            "http://example.com/dir/c.webp",
            "http://example.com/dir/s.css",
            "http://example.com/js/app.js",
        ]
    );
}

#[test]
fn nofollow_pages_give_no_links() {
    let html = r#"<html><head><meta name="ROBOTS" content="index, NoFollow"></head>
        <body><a href="/a.html">a</a></body></html>"#;
    assert!(extract_links(html, "http://example.com/", true).is_empty());
    let follow = r#"<meta name="robots" content="noindex"><a href="/a.html">a</a>"#;
    assert_eq!(extract_links(follow, "http://example.com/", false), vec!["http://example.com/a.html"]);
}

#[test]
fn rejection_log_lines() {
    let line = format_rejected_url_csv(
        "https://example.com/a/b?q=1#f",
        "Rejected by robots.txt rules",
        Some("http://example.com:8080/"),
    )
    .unwrap();
    assert_eq!(
        line,
        "ROBOTS\thttps%3A//example.com/a/b?q=1#f\tSCHEME_HTTPS\texample.com\t443\ta/b\t\tq=1\tf\thttp%3A//example.com%3A8080/\tSCHEME_HTTP\texample.com\t8080\t\t\t\t"
    );
    let no_parent = format_rejected_url_csv("ftp://h/x", "Domain in rejected list: h", None).unwrap();
    assert_eq!(no_parent, "SPANNEDHOST\tftp%3A//h/x\tSCHEME_FTP\th\t21\tx\t\t\t\t\t\t\t\t\t\t\t");
    let odd = format_rejected_url_csv("http://h/é", "Already visited (recursive loop)", None).unwrap();
    assert!(odd.starts_with("BLACKLIST\thttp%3A//h/%C3%A9\t"));
    assert!(format_rejected_url_csv("nope", "x", None).is_err());
}

#[test]
fn crawl_queue_skips_visited_and_deep_links() {
    let mut crawl = CrawlState::new("http://a/", 2, true);
    let first = crawl.next().unwrap();
    assert_eq!(first, ("http://a/".to_string(), 0, None));
    crawl.mark_visited("http://a/");
    crawl.push_links(vec!["http://a/".to_string(), "http://a/x".to_string()], 0, "http://a/");
    let second = crawl.next().unwrap();
    assert_eq!(second, ("http://a/x".to_string(), 1, Some("http://a/".to_string())));
    crawl.mark_visited("http://a/x");
    crawl.push_links(vec!["http://a/y".to_string()], 1, "http://a/x");
    // depth 2 reaches the limit of 2
    assert_eq!(crawl.next(), None);
    let rejected = crawl.rejected();
    assert_eq!(rejected.len(), 1);
    assert_eq!(rejected[0].0, "http://a/");
    assert_eq!(rejected[0].1, "Already visited (recursive loop)");
    assert_eq!(rejected[0].2, Some("http://a/".to_string()));
    assert!(crawl.is_visited("http://a/x"));
    assert!(!crawl.is_visited("http://a/y"));
}

#[test]
fn crawl_without_log_records_nothing() {
    let mut crawl = CrawlState::new("http://a/", 0, false);
    crawl.next();
    crawl.mark_visited("http://a/");
    crawl.log_rejected_url("http://b/", "Domain not in accepted list: b", Some("http://a/"));
    crawl.push_links(vec!["http://a/".to_string()], 0, "http://a/");
    assert_eq!(crawl.next(), None);
    assert!(crawl.rejected().is_empty());
}
