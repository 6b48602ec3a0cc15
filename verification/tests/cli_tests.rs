use wget_faster_lib::cli::{
    build_recursive_config, choose_filename, extract_filename_from_content_disposition,
    is_remote_input, no_proxy_list, numbered_name, parse_header_option, parse_method,
    parse_restrictions, preprocess_args, process_execute_command, should_number_file,
    split_size_suffix, urls_from_html, urls_from_lines, Args,
};
use wget_faster_lib::{FilenameRestriction, HttpMethod};

#[test]
fn short_flags_are_normalized() {
    let args: Vec<String> = ["wgetf", "-nH", "-np", "-nv", "-q", "--no-parent", "-nX", "url"]
        .iter()
        .map(|s| s.to_string())
        .collect();
    let out = preprocess_args(args);
    assert_eq!(
        out,
        vec!["wgetf", "--no-host-directories", "--no-parent", "--no-verbose", "-q", "--no-parent", "-nX", "url"]
    );
}

#[test]
fn content_disposition_names() {
    assert_eq!(
        extract_filename_from_content_disposition("attachment; filename=\"report.pdf\""),
        Some("report.pdf".to_string())
    );
    assert_eq!(
        extract_filename_from_content_disposition("attachment; filename*=UTF-8''na%C3%AFve%20file.txt"),
        Some("naïve file.txt".to_string())
    );
    assert_eq!(
        extract_filename_from_content_disposition("attachment; FILENAME=plain.bin"),
        Some("plain.bin".to_string())
    );
    assert_eq!(extract_filename_from_content_disposition("inline"), None);
    assert_eq!(extract_filename_from_content_disposition("attachment; filename*=UTF-8''%FF"), None);
}

#[test]
fn output_file_names() {
    assert_eq!(choose_filename("/dir/file.zip", false, None, None), "file.zip");
    assert_eq!(choose_filename("/dir/", false, None, None), "index.html");
    assert_eq!(choose_filename("/dir/file.zip", true, Some("attachment; filename=\"x.bin\""), None), "x.bin");
    assert_eq!(choose_filename("/dir/file.zip", true, Some("inline"), None), "file.zip");
    assert_eq!(choose_filename("/dir/file.zip", false, Some("attachment; filename=\"x.bin\""), None), "file.zip");
    assert_eq!(choose_filename("/A/Mixed.ZIP", false, None, Some("lowercase, bogus")), "mixed.zip");
    assert_eq!(numbered_name("file.zip", 3), "file.zip.3");
    assert!(should_number_file(true, false, false, false, false));
    assert!(!should_number_file(true, false, true, false, false));
    assert!(!should_number_file(true, false, false, true, false));
    assert!(should_number_file(true, false, false, true, true));
    assert!(!should_number_file(false, false, false, false, false));
}

#[test]
fn sizes_and_rates() {
    assert_eq!(split_size_suffix(" 10K "), ("10".to_string(), 1024));
    assert_eq!(split_size_suffix("1.5m"), ("1.5".to_string(), 1024 * 1024));
    assert_eq!(split_size_suffix("2G"), ("2".to_string(), 1024 * 1024 * 1024));
    assert_eq!(split_size_suffix("500"), ("500".to_string(), 1));
}

#[test]
fn input_file_urls() {
    let content = "http://a/x\n  # comment\n\n  rel/page.html  \r\n";
    assert_eq!(urls_from_lines(content, None).unwrap(), vec!["http://a/x", "rel/page.html"]);
    assert_eq!(
        urls_from_lines(content, Some("http://base.org/d/")).unwrap(),
        vec!["http://a/x", "http://base.org/d/rel/page.html"]
    );
    assert_eq!(
        urls_from_lines("x", Some("bad base")).unwrap_err(),
        "Failed to parse base URL: bad base"
    );
    let html = r#"<a href="a.html">a</a><img src="/i.png"><script src="s.js"></script><link href="c.css">"#;
    assert_eq!(urls_from_html(html, None).unwrap(), vec!["a.html", "/i.png", "c.css", "s.js"]);
    assert_eq!(
        urls_from_html(html, Some("http://h/p/")).unwrap(),
        vec!["http://h/p/a.html", "http://h/i.png", "http://h/p/c.css", "http://h/p/s.js"]
    );
    assert!(is_remote_input("https://x/list.txt"));
    assert!(!is_remote_input("list.txt"));
}

#[test]
fn option_values() {
    assert_eq!(parse_header_option("X-Test:  yes "), Some(("X-Test".to_string(), "yes".to_string())));
    assert_eq!(parse_header_option("Bad"), None);
    assert_eq!(no_proxy_list(" a.com, ,.b.org,"), vec!["a.com", ".b.org"]);
    assert_eq!(parse_method("patch"), Ok(HttpMethod::Patch));
    assert_eq!(parse_method("FETCH"), Err("Invalid HTTP method: FETCH".to_string()));
    assert_eq!(
        parse_restrictions("unix, Lowercase").unwrap(),
        vec![FilenameRestriction::Unix, FilenameRestriction::Lowercase]
    );
    assert_eq!(parse_restrictions("unix,oops").unwrap_err(), "Invalid filename restriction: oops");
}

fn args() -> Args {
    Args::default()
}

#[test]
fn validation_rules() {
    let mut a = args();
    assert!(a.validate().is_ok());
    a.timestamping = true;
    a.output_document = Some(std::path::PathBuf::from("out"));
    assert_eq!(a.validate().unwrap_err(), "-N (timestamping) cannot be used with -O (output-document)");
    a.timestamping = false;
    a.convert_links = true;
    a.urls = vec!["a".to_string(), "b".to_string()];
    assert_eq!(a.validate().unwrap_err(), "-k (convert-links) with -O (output-document) only works with single URL");
    a.convert_links = false;
    a.spider = true;
    assert_eq!(a.validate().unwrap_err(), "--spider mode doesn't download, -O makes no sense");
}

#[test]
fn execute_commands() {
    let mut a = args();
    assert!(process_execute_command(&mut a, " ContentDisposition = ON ").is_ok());
    assert!(a.content_disposition);
    assert!(process_execute_command(&mut a, "contentdisposition=0").is_ok());
    assert!(!a.content_disposition);
    assert!(process_execute_command(&mut a, "robots=off").is_ok());
    assert_eq!(
        process_execute_command(&mut a, "contentdisposition=maybe").unwrap_err(),
        "Invalid value for contentdisposition: maybe"
    );
    assert_eq!(process_execute_command(&mut a, " nothing ").unwrap_err(), "Invalid execute command format: nothing");
}

#[test]
fn recursive_config_from_options() {
    let mut a = args();
    a.level = Some("3".to_string());
    a.no_parent = true;
    a.span_hosts = true;
    let c = build_recursive_config(&a);
    assert_eq!(c.max_depth, 3);
    assert!(c.no_parent);
    assert!(c.span_hosts);
    assert!(c.rejected_log.is_none());
    a.level = Some("inf".to_string());
    assert_eq!(build_recursive_config(&a).max_depth, 0);
    a.level = Some("deep".to_string());
    assert_eq!(build_recursive_config(&a).max_depth, 5);
    a.level = None;
    a.rejected_log = Some(std::path::PathBuf::from("rej.csv"));
    let c2 = build_recursive_config(&a);
    assert_eq!(c2.max_depth, 5);
    assert_eq!(c2.rejected_log, Some(std::path::PathBuf::from("rej.csv")));
}

#[test]
fn ascii_restriction_escapes_utf8_bytes() {
    assert_eq!(FilenameRestriction::Ascii.apply("café.txt"), "caf%C3%A9.txt");
    assert_eq!(FilenameRestriction::Ascii.apply("€"), "%E2%82%AC");
    assert_eq!(FilenameRestriction::Ascii.apply("plain.txt"), "plain.txt");
    assert_eq!(FilenameRestriction::Ascii.apply("a😀"), "a%F0%9F%98%80");
}
