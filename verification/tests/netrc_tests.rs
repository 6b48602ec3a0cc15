use wget_faster_lib::Netrc;

#[test]
fn test_parse_simple() {
    let content = r"
            machine example.com
            login myuser
            password mypass
        ";
    let netrc = Netrc::from_string(content).expect("Failed to parse netrc");
    let auth = netrc.get("example.com").expect("Failed to get example.com auth");
    assert_eq!(auth.username, "myuser");
    assert_eq!(auth.password, "mypass");
}

#[test]
fn test_parse_multiple() {
    let content = r"
            machine example.com
            login user1
            password pass1

            machine test.com
            login user2
            password pass2
        ";
    let netrc = Netrc::from_string(content).expect("Failed to parse netrc");
    let auth1 = netrc.get("example.com").expect("Failed to get example.com auth");
    assert_eq!(auth1.username, "user1");
    assert_eq!(auth1.password, "pass1");
    let auth2 = netrc.get("test.com").expect("Failed to get test.com auth");
    assert_eq!(auth2.username, "user2");
    assert_eq!(auth2.password, "pass2");
}

#[test]
fn test_parse_default() {
    let content = r"
            machine example.com
            login user1
            password pass1

            default
            login defaultuser
            password defaultpass
        ";
    let netrc = Netrc::from_string(content).expect("Failed to parse netrc");
    let auth1 = netrc.get("example.com").expect("Failed to get example.com auth");
    assert_eq!(auth1.username, "user1");
    let auth2 = netrc.get("unknown.com").expect("Failed to get default auth");
    assert_eq!(auth2.username, "defaultuser");
    assert_eq!(auth2.password, "defaultpass");
}

#[test]
fn test_no_match() {
    let content = r"
            machine example.com
            login user1
            password pass1
        ";
    let netrc = Netrc::from_string(content).expect("Failed to parse netrc");
    assert!(netrc.get("unknown.com").is_none());
}

#[test]
fn entries_without_password_are_dropped() {
    let netrc = Netrc::from_string("machine a.com login only").unwrap();
    assert!(netrc.get("a.com").is_none());
    assert!(!netrc.has_entry("a.com"));
}

#[test]
fn has_entry_agrees_with_get() {
    let netrc = Netrc::from_string("machine a.com login u password p").unwrap();
    assert!(netrc.has_entry("a.com"));
    assert!(netrc.get("a.com").is_some());
    assert!(!netrc.has_entry("b.com"));
    assert!(netrc.get("b.com").is_none());
    let with_default = Netrc::from_string("default login d password p").unwrap();
    assert!(with_default.has_entry("anything"));
    assert!(with_default.get("anything").is_some());
}

#[test]
fn later_machine_entry_wins_and_account_is_skipped() {
    let netrc = Netrc::from_string(
        "machine a.com login u1 password p1 machine a.com account acct login u2 password p2",
    )
    .unwrap();
    let auth = netrc.get("a.com").unwrap();
    assert_eq!(auth.username, "u2");
    assert_eq!(auth.password, "p2");
}

#[test]
fn comment_tokens_are_dropped() {
    let netrc = Netrc::from_string("# hello\nmachine a.com login u #x password p").unwrap();
    let auth = netrc.get("a.com").unwrap();
    assert_eq!(auth.username, "u");
    assert_eq!(auth.password, "p");
}
