use wget_faster_lib::auth_handler::{is_auth_challenge, should_retry_auth};
use wget_faster_lib::transfer::get_credentials;
use wget_faster_lib::{AuthConfig, AuthType, Netrc};

#[test]
fn test_is_auth_challenge() {
    assert!(is_auth_challenge(401));
    assert!(is_auth_challenge(407));
    assert!(!is_auth_challenge(200));
    assert!(!is_auth_challenge(404));
    assert!(!is_auth_challenge(500));
}

#[test]
fn test_should_retry_auth() {
    // The configuration's `auth_no_challenge` setting is passed directly.
    let mut auth_no_challenge = false;
    assert!(should_retry_auth(401, auth_no_challenge));
    assert!(should_retry_auth(407, auth_no_challenge));
    auth_no_challenge = true;
    assert!(!should_retry_auth(401, auth_no_challenge));
    assert!(!should_retry_auth(407, auth_no_challenge));
    auth_no_challenge = false;
    assert!(!should_retry_auth(200, auth_no_challenge));
    assert!(!should_retry_auth(404, auth_no_challenge));
}

#[test]
fn test_get_credentials_with_configured_auth() {
    let auth = AuthConfig {
        username: "testuser".to_string(),
        password: "testpass".to_string(),
        auth_type: AuthType::Basic,
    };
    let creds = get_credentials("https://example.com", Some(&auth), None);
    assert!(creds.is_some());
    assert_eq!(creds.unwrap().username, "testuser");
}

#[test]
fn test_get_credentials_without_auth() {
    // With no configured auth and no .netrc read, nothing is found.
    let creds = get_credentials("https://unknown-host-12345.com", None, None);
    assert!(creds.is_none());
}

#[test]
fn credentials_from_netrc_by_host() {
    let netrc = Netrc::from_string("machine files.example.com login alice password secret").unwrap();
    let creds = get_credentials("https://files.example.com/a/b", None, Some(&netrc)).unwrap();
    assert_eq!(creds.username, "alice");
    assert_eq!(creds.password, "secret");
    assert!(get_credentials("https://other.example.com/", None, Some(&netrc)).is_none());
    assert!(get_credentials("not a url", None, Some(&netrc)).is_none());
}

#[test]
fn configured_credentials_win_over_netrc() {
    let netrc = Netrc::from_string("default login d password p").unwrap();
    let auth = AuthConfig {
        username: "u".to_string(),
        password: "w".to_string(),
        auth_type: AuthType::Basic,
    };
    let creds = get_credentials("https://x.org/", Some(&auth), Some(&netrc)).unwrap();
    assert_eq!(creds.username, "u");
    let fallback = get_credentials("https://x.org/", None, Some(&netrc)).unwrap();
    assert_eq!(fallback.username, "d");
}
