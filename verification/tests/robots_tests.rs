use wget_faster_lib::robots::RobotsTxt;

#[test]
fn test_parse_basic() {
    let content = r#"
User-agent: *
Disallow: /private/
Allow: /public/
"#;
    let robots = RobotsTxt::parse(content);
    assert!(!robots.is_allowed("/private/file.html", "TestBot"));
    assert!(robots.is_allowed("/public/file.html", "TestBot"));
    assert!(robots.is_allowed("/other/file.html", "TestBot"));
}

#[test]
fn test_specific_user_agent() {
    let content = r#"
User-agent: BadBot
Disallow: /

User-agent: GoodBot
Allow: /
"#;
    let robots = RobotsTxt::parse(content);
    assert!(!robots.is_allowed("/anything", "badbot"));
    assert!(robots.is_allowed("/anything", "goodbot"));
    assert!(robots.is_allowed("/anything", "otherbot"));
}

#[test]
fn test_empty_disallow() {
    let content = r#"
User-agent: *
Disallow:
"#;
    let robots = RobotsTxt::parse(content);
    assert!(robots.is_allowed("/anything", "TestBot"));
}

#[test]
fn test_most_specific_match() {
    let content = r#"
User-agent: *
Disallow: /admin/
Allow: /admin/public/
"#;
    let robots = RobotsTxt::parse(content);
    assert!(!robots.is_allowed("/admin/secret", "TestBot"));
    assert!(robots.is_allowed("/admin/public/page", "TestBot"));
}

#[test]
fn test_comments_and_whitespace() {
    let content = r#"
# This is a comment
User-agent: *  # Inline comment
Disallow: /test/   # Another comment

"#;
    let robots = RobotsTxt::parse(content);
    assert!(!robots.is_allowed("/test/file", "TestBot"));
    assert!(robots.is_allowed("/other/file", "TestBot"));
}

#[test]
fn test_no_rules() {
    let robots = RobotsTxt::parse("");
    assert!(robots.is_allowed("/anything", "TestBot"));
}

#[test]
fn test_case_insensitive_user_agent() {
    let content = r#"
User-agent: MyBot
Disallow: /private/
"#;
    let robots = RobotsTxt::parse(content);
    assert!(!robots.is_allowed("/private/file", "mybot"));
    assert!(!robots.is_allowed("/private/file", "MYBOT"));
    assert!(!robots.is_allowed("/private/file", "MyBot"));
}

#[test]
fn own_group_replaces_star_rules() {
    let content = "User-agent: *\nDisallow: /\n\nUser-agent: Crawler\nDisallow: /tmp/\n";
    let robots = RobotsTxt::parse(content);
    assert!(!robots.is_allowed("/page", "SomeBot"));
    assert!(robots.is_allowed("/page", "crawler"));
    assert!(!robots.is_allowed("/tmp/x", "crawler"));
}

#[test]
fn rules_before_any_agent_are_ignored() {
    let robots = RobotsTxt::parse("Disallow: /\nUser-agent: *\nAllow: /\n");
    assert!(robots.is_allowed("/x", "bot"));
}

#[test]
fn rules_belong_to_their_group() {
    let content = "User-agent: A\nDisallow: /a\n\nUser-agent: B\nDisallow: /b\n";
    let r = RobotsTxt::parse(content);
    assert!(!r.is_allowed("/a/x", "A"));
    assert!(r.is_allowed("/b/x", "A"));
    assert!(!r.is_allowed("/b/x", "B"));
    assert!(r.is_allowed("/a/x", "B"));
}

#[test]
fn consecutive_agents_share_a_group() {
    let content = "User-agent: A\nUser-agent: B\nDisallow: /x\nUser-agent: C\nAllow: /\n";
    let r = RobotsTxt::parse(content);
    assert!(!r.is_allowed("/x/1", "A"));
    assert!(!r.is_allowed("/x/1", "B"));
    assert!(r.is_allowed("/x/1", "C"));
}
