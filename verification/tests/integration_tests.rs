use wget_faster_lib::{AuthType, HttpMethod};

#[test]
fn test_http_method_conversions() {
    assert_eq!(HttpMethod::Get.as_str(), "GET");
    assert_eq!(HttpMethod::Post.as_str(), "POST");
    assert_eq!(HttpMethod::Put.as_str(), "PUT");
    assert_eq!(HttpMethod::Delete.as_str(), "DELETE");
    assert_eq!(HttpMethod::Patch.as_str(), "PATCH");
    assert_eq!(HttpMethod::Options.as_str(), "OPTIONS");
    assert_eq!(HttpMethod::from_str("GET"), Some(HttpMethod::Get));
    assert_eq!(HttpMethod::from_str("post"), Some(HttpMethod::Post));
    assert_eq!(HttpMethod::from_str("INVALID"), None);
}

#[test]
fn test_auth_types() {
    assert_eq!(AuthType::Basic, AuthType::Basic);
    assert_eq!(AuthType::Digest, AuthType::Digest);
    assert_ne!(AuthType::Basic, AuthType::Digest);
}

#[test]
fn method_names_round_trip() {
    for m in [HttpMethod::Get, HttpMethod::Head, HttpMethod::Post, HttpMethod::Put, HttpMethod::Delete, HttpMethod::Patch, HttpMethod::Options] {
        assert_eq!(HttpMethod::from_str(m.as_str()), Some(m));
        assert_eq!(HttpMethod::from_str(&m.as_str().to_lowercase()), Some(m));
    }
}
