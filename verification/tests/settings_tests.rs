use wget_faster_lib::cli::{
    compression_enabled, download_target, parallel_settings, proxy_settings, quota_reached, request_body,
    should_retry_status, verbose_mode, Args, BodySource,
};
use wget_faster_lib::Error;

fn s(v: &str) -> Option<String> {
    Some(v.to_string())
}

#[test]
fn proxy_from_first_environment_value() {
    let mut a = Args::default();
    let env = vec![None, s("http://p2:8080"), s("http://p3"), None];
    let no = vec![None, s(" a.com, ,.b.org ")];
    let p = proxy_settings(&a, &env, &no).unwrap();
    assert_eq!(p.url, "http://p2:8080");
    assert_eq!(p.no_proxy, vec!["a.com".to_string(), ".b.org".to_string()]);
    assert!(p.auth.is_none());
    a.proxy_user = s("u");
    let p = proxy_settings(&a, &env, &vec![None, None]).unwrap();
    assert_eq!(p.auth, Some(("u".to_string(), String::new())));
    assert!(p.no_proxy.is_empty());
    assert!(proxy_settings(&a, &vec![None, None, None, None], &no).is_none());
    a.no_proxy = true;
    assert!(proxy_settings(&a, &env, &no).is_none());
}

#[test]
fn body_option_precedence() {
    let mut a = Args::default();
    assert_eq!(request_body(&a), (false, BodySource::NoBody));
    a.post_file = Some(std::path::PathBuf::from("f"));
    assert_eq!(request_body(&a), (true, BodySource::PostFile));
    a.post_data = s("x=1");
    assert_eq!(request_body(&a), (true, BodySource::PostData));
    a.body_file = Some(std::path::PathBuf::from("b"));
    assert_eq!(request_body(&a), (true, BodySource::BodyFile));
    a.body_data = s("y");
    assert_eq!(request_body(&a), (true, BodySource::BodyData));
    a.post_data = None;
    a.post_file = None;
    assert_eq!(request_body(&a), (false, BodySource::BodyData));
}

#[test]
fn parallel_quota_and_retry_rules() {
    assert_eq!(parallel_settings(true, 8, 10), (1, 0));
    assert_eq!(parallel_settings(false, 8, 10), (8, 10));
    assert!(quota_reached(Some(100), 100));
    assert!(!quota_reached(Some(100), 99));
    assert!(!quota_reached(None, u64::MAX));
    let codes = vec![500, 502, 503];
    assert!(should_retry_status(Some(502), &codes, 1, 3));
    assert!(!should_retry_status(Some(502), &codes, 3, 3));
    assert!(!should_retry_status(Some(404), &codes, 1, 3));
    assert!(!should_retry_status(None, &codes, 1, 3));
}

#[test]
fn download_target_from_url() {
    let (host, port, name) = download_target("https://Example.com/dir/file.zip", false, None, None).unwrap();
    assert_eq!(host, "example.com");
    assert_eq!(port, 443);
    assert_eq!(name, "file.zip");
    let (host, port, name) = download_target("http://example.com:8080/", false, None, None).unwrap();
    assert_eq!(host, "example.com");
    assert_eq!(port, 8080);
    assert_eq!(name, "index.html");
    let (_, port, name) = download_target(
        "http://example.com/x",
        true,
        Some("attachment; filename=\"report.pdf\""),
        Some("uppercase"),
    )
    .unwrap();
    assert_eq!(port, 80);
    assert_eq!(name, "REPORT.PDF");
    let (host, _, _) = download_target("file:///tmp/a.txt", false, None, None).unwrap();
    assert_eq!(host, "unknown");
    assert!(matches!(download_target("not a url", false, None, None), Err(Error::InvalidUrl(_))));
}

#[test]
fn compression_and_verbosity() {
    assert!(compression_enabled(None));
    assert!(compression_enabled(Some("gzip")));
    assert!(!compression_enabled(Some("none")));
    assert!(verbose_mode(true, 0));
    assert!(verbose_mode(false, 2));
    assert!(!verbose_mode(false, 0));
}
