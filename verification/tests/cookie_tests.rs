use std::time::{SystemTime, UNIX_EPOCH};
use wget_faster_lib::cookies::domain_matches;
use wget_faster_lib::{Cookie, CookieJar};

fn cookie(domain: &str, path: &str, secure: bool, name: &str, value: &str) -> Cookie {
    Cookie {
        domain: domain.to_string(),
        include_subdomains: false,
        path: path.to_string(),
        secure,
        expiration: None,
        name: name.to_string(),
        value: value.to_string(),
    }
}

#[test]
fn test_domain_matching() {
    assert!(domain_matches("example.com", "example.com"));
    assert!(domain_matches("www.example.com", ".example.com"));
    assert!(domain_matches("example.com", ".example.com"));
    assert!(!domain_matches("example.com", "other.com"));
    assert!(!domain_matches("example.com", ".other.com"));
}

#[test]
fn test_cookie_jar() {
    let mut jar = CookieJar::new();
    jar.add_cookie(Cookie {
        domain: "example.com".to_string(),
        include_subdomains: true,
        path: "/".to_string(),
        secure: false,
        expiration: None,
        name: "session".to_string(),
        value: "abc123".to_string(),
    });
    let cookies = jar.get_cookies_for_domain("example.com");
    assert_eq!(cookies.len(), 1);
    assert_eq!(cookies[0].name, "session");
    assert_eq!(cookies[0].value, "abc123");
}

#[test]
fn test_cookie_expiry_parsing() {
    let mut jar = CookieJar::new();
    jar.add_from_set_cookie("example.com", "future=value; Expires=Wed, 21 Oct 2099 07:28:00 GMT");
    jar.add_from_set_cookie("example.com", "expired=value; Expires=Sun, 06 Nov 2001 12:32:43 GMT");
    jar.add_from_set_cookie("example.com", "session=value");
    let cookies = jar.get_cookies_for_domain("example.com");
    assert_eq!(cookies.len(), 2);
    let names: Vec<&str> = cookies.iter().map(|c| c.name.as_str()).collect();
    assert!(names.contains(&"future"));
    assert!(names.contains(&"session"));
    assert!(!names.contains(&"expired"));
    // Every cookie held, the expired one included (the jar's groups, read
    // through the accessor).
    let all_cookies: Vec<&Cookie> = jar.all_cookies();
    let expired_cookie = all_cookies.iter().find(|c| c.name == "expired").unwrap();
    assert!(expired_cookie.expiration.is_some());
}

#[test]
fn test_cookie_header_with_expiry() {
    let mut jar = CookieJar::new();
    jar.add_from_set_cookie("localhost", "sess-id=0213; path=/");
    let header = jar.to_cookie_header("localhost", "/", false);
    assert_eq!(header, Some("sess-id=0213".to_string()));
    jar.add_from_set_cookie("localhost", "sess-id=0213; path=/; Expires=Sun, 06 Nov 2001 12:32:43 GMT");
    let cookies = jar.get_cookies_for_domain("localhost");
    let active_cookies: Vec<_> = cookies
        .iter()
        .filter(|c| {
            if let Some(exp) = c.expiration {
                let now = SystemTime::now().duration_since(UNIX_EPOCH).unwrap().as_secs();
                exp > now
            } else {
                true
            }
        })
        .collect();
    assert_eq!(active_cookies.len(), 1);
}

#[test]
fn test_cookie_creation() {
    let cookie = Cookie {
        domain: "example.com".to_string(),
        include_subdomains: true,
        path: "/".to_string(),
        secure: false,
        expiration: None,
        name: "session".to_string(),
        value: "abc123".to_string(),
    };
    assert_eq!(cookie.domain, "example.com");
    assert_eq!(cookie.name, "session");
    assert_eq!(cookie.value, "abc123");
    assert!(cookie.include_subdomains);
    assert!(!cookie.secure);
}

#[test]
fn test_cookie_jar_add_and_get() {
    let mut jar = CookieJar::new();
    jar.add_cookie(Cookie {
        domain: "example.com".to_string(),
        include_subdomains: true,
        path: "/".to_string(),
        secure: false,
        expiration: None,
        name: "session".to_string(),
        value: "abc123".to_string(),
    });
    let cookies = jar.get_cookies_for_domain("example.com");
    assert_eq!(cookies.len(), 1);
    assert_eq!(cookies[0].name, "session");
    assert_eq!(cookies[0].value, "abc123");
}

#[test]
fn test_cookie_jar_subdomain_matching() {
    let mut jar = CookieJar::new();
    jar.add_cookie(Cookie {
        domain: ".example.com".to_string(),
        include_subdomains: true,
        path: "/".to_string(),
        secure: false,
        expiration: None,
        name: "session".to_string(),
        value: "abc123".to_string(),
    });
    assert_eq!(jar.get_cookies_for_domain("example.com").len(), 1);
    assert_eq!(jar.get_cookies_for_domain("www.example.com").len(), 1);
    assert_eq!(jar.get_cookies_for_domain("api.example.com").len(), 1);
    assert_eq!(jar.get_cookies_for_domain("other.com").len(), 0);
}

#[test]
fn test_cookie_jar_multiple_cookies() {
    let mut jar = CookieJar::new();
    jar.add_cookie(cookie("example.com", "/", false, "cookie1", "value1"));
    jar.add_cookie(cookie("example.com", "/api", true, "cookie2", "value2"));
    let cookies = jar.get_cookies_for_domain("example.com");
    assert_eq!(cookies.len(), 2);
}

#[test]
fn test_cookie_to_header() {
    let mut jar = CookieJar::new();
    jar.add_cookie(cookie("example.com", "/", false, "cookie1", "value1"));
    jar.add_cookie(cookie("example.com", "/", false, "cookie2", "value2"));
    let header = jar.to_cookie_header("example.com", "/", false);
    assert!(header.is_some());
    let header_value = header.unwrap();
    assert!(header_value.contains("cookie1=value1"));
    assert!(header_value.contains("cookie2=value2"));
    assert!(header_value.contains("; "));
}

#[test]
fn test_cookie_path_matching() {
    let mut jar = CookieJar::new();
    jar.add_cookie(cookie("example.com", "/api", false, "api_cookie", "api_value"));
    assert!(jar.to_cookie_header("example.com", "/api", false).is_some());
    assert!(jar.to_cookie_header("example.com", "/api/users", false).is_some());
    assert!(jar.to_cookie_header("example.com", "/other", false).is_none());
}

#[test]
fn test_cookie_secure_flag() {
    let mut jar = CookieJar::new();
    jar.add_cookie(cookie("example.com", "/", true, "secure_cookie", "secure_value"));
    assert!(jar.to_cookie_header("example.com", "/", true).is_some());
    assert!(jar.to_cookie_header("example.com", "/", false).is_none());
}

#[test]
fn test_parse_set_cookie() {
    let mut jar = CookieJar::new();
    jar.add_from_set_cookie("example.com", "session=abc123; Path=/; Secure; Max-Age=3600");
    let cookies = jar.get_cookies_for_domain("example.com");
    assert_eq!(cookies.len(), 1);
    assert_eq!(cookies[0].name, "session");
    assert_eq!(cookies[0].value, "abc123");
    assert_eq!(cookies[0].path, "/");
    assert!(cookies[0].secure);
    assert!(cookies[0].expiration.is_some());
}

#[test]
fn test_parse_set_cookie_with_domain() {
    let mut jar = CookieJar::new();
    jar.add_from_set_cookie("example.com", "session=xyz789; Domain=.example.com; Path=/admin");
    let cookies = jar.get_cookies_for_domain(".example.com");
    assert_eq!(cookies.len(), 1);
    assert_eq!(cookies[0].domain, ".example.com");
    assert_eq!(cookies[0].path, "/admin");
}

#[test]
fn header_joins_pairs_in_order() {
    let mut jar = CookieJar::new();
    jar.add_cookie(cookie("Example.COM", "/", false, "a", "1"));
    jar.add_cookie(cookie("example.com", "/", false, "b", "2"));
    assert_eq!(jar.to_cookie_header("EXAMPLE.com", "/x", false), Some("a=1; b=2".to_string()));
    assert_eq!(jar.to_cookie_header_at("example.com", "/", false, 0), Some("a=1; b=2".to_string()));
}

#[test]
fn expires_attribute_gives_exact_timestamp() {
    let mut jar = CookieJar::new();
    jar.add_from_set_cookie_at("example.com", "k=v; Expires=Wed, 21 Oct 2099 07:28:00 GMT", 0);
    let cookies = jar.get_cookies_for_domain_at("example.com", 0);
    assert_eq!(cookies.len(), 1);
    assert_eq!(cookies[0].expiration, Some(4096250880));
    // A cookie is live up to and including its expiration second.
    assert_eq!(jar.get_cookies_for_domain_at("example.com", 4096250880).len(), 1);
    assert_eq!(jar.get_cookies_for_domain_at("example.com", 4096250881).len(), 0);
}

#[test]
fn max_age_counts_from_now() {
    let mut jar = CookieJar::new();
    jar.add_from_set_cookie_at("example.com", "k=v; Max-Age=60", 1000);
    let cookies = jar.get_cookies_for_domain_at("example.com", 1000);
    assert_eq!(cookies[0].expiration, Some(1060));
}

#[test]
fn set_cookie_without_pair_is_ignored() {
    let mut jar = CookieJar::new();
    jar.add_from_set_cookie_at("example.com", "novalue", 0);
    assert_eq!(jar.all_cookies().len(), 0);
}

#[test]
fn added_cookie_is_returned_for_its_domain() {
    let mut jar = CookieJar::new();
    jar.add_cookie(cookie("Shop.Example.org", "/", false, "cart", "7"));
    let got = jar.get_cookies_for_domain_at("shop.example.org", 5);
    assert_eq!(got.len(), 1);
    assert_eq!(got[0].name, "cart");
}

fn summary(jar: &CookieJar) -> Vec<(String, bool, String, bool, Option<u64>, String, String)> {
    jar.all_cookies()
        .into_iter()
        .map(|c| {
            (
                c.domain.clone(),
                c.include_subdomains,
                c.path.clone(),
                c.secure,
                c.expiration,
                c.name.clone(),
                c.value.clone(),
            )
        })
        .collect()
}

#[test]
fn cookie_file_round_trip() {
    let mut jar = CookieJar::new();
    jar.add_cookie(Cookie {
        domain: "Example.com".to_string(),
        include_subdomains: true,
        path: "/".to_string(),
        secure: false,
        expiration: Some(1_900_000_000),
        name: "a".to_string(),
        value: "1".to_string(),
    });
    jar.add_cookie(Cookie {
        domain: "other.org".to_string(),
        include_subdomains: false,
        path: "/x".to_string(),
        secure: true,
        expiration: None,
        name: "b".to_string(),
        value: "two words".to_string(),
    });
    jar.add_cookie(Cookie {
        domain: "example.com".to_string(),
        include_subdomains: false,
        path: "/y".to_string(),
        secure: false,
        expiration: Some(5),
        name: "c".to_string(),
        value: "3".to_string(),
    });
    let text = jar.to_netscape();
    assert!(text.starts_with("# Netscape HTTP Cookie File\n"));
    assert!(text.contains("Example.com\tTRUE\t/\tFALSE\t1900000000\ta\t1\n"));
    assert!(text.contains("other.org\tFALSE\t/x\tTRUE\t0\tb\ttwo words\n"));
    let back = CookieJar::from_netscape(&text);
    let mut expected = summary(&jar);
    assert_eq!(expected[2].5, "b");
    expected[2].4 = Some(0);
    assert_eq!(summary(&back), expected);
}

#[test]
fn subdomain_cookie_reaches_subdomains() {
    let mut jar = CookieJar::new();
    jar.add_cookie(Cookie {
        domain: "example.com".to_string(),
        include_subdomains: true,
        path: "/".to_string(),
        secure: false,
        expiration: None,
        name: "wide".to_string(),
        value: "1".to_string(),
    });
    jar.add_cookie(cookie("example.com", "/", false, "host", "2"));
    let sub = jar.get_cookies_for_domain("www.example.com");
    assert_eq!(sub.len(), 1);
    assert_eq!(sub[0].name, "wide");
    assert_eq!(jar.get_cookies_for_domain("example.com").len(), 2);
    assert_eq!(jar.get_cookies_for_domain("badexample.com").len(), 0);
    assert_eq!(jar.to_cookie_header("WWW.Example.com", "/", false), Some("wide=1".to_string()));
}
