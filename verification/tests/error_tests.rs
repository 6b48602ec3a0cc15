use wget_faster_lib::error::HttpFailure;
use wget_faster_lib::Error;

#[test]
fn test_exit_codes_client_errors() {
    assert_eq!(Error::InvalidStatus(400).exit_code(), 8, "400 Bad Request");
    assert_eq!(Error::InvalidStatus(403).exit_code(), 8, "403 Forbidden");
    assert_eq!(Error::InvalidStatus(404).exit_code(), 8, "404 Not Found");
    assert_eq!(Error::InvalidStatus(410).exit_code(), 8, "410 Gone");
    assert_eq!(Error::InvalidStatus(429).exit_code(), 8, "429 Too Many Requests");
    assert_eq!(Error::InvalidStatus(499).exit_code(), 8, "499 (last 4xx)");
}

#[test]
fn test_exit_codes_auth_errors() {
    assert_eq!(Error::InvalidStatus(401).exit_code(), 6, "401 Unauthorized");
    assert_eq!(Error::InvalidStatus(407).exit_code(), 6, "407 Proxy Auth Required");
}

#[test]
fn test_exit_codes_server_errors() {
    assert_eq!(Error::InvalidStatus(500).exit_code(), 4, "500 Internal Server Error");
    assert_eq!(Error::InvalidStatus(502).exit_code(), 4, "502 Bad Gateway");
    assert_eq!(Error::InvalidStatus(503).exit_code(), 4, "503 Service Unavailable");
    assert_eq!(Error::InvalidStatus(504).exit_code(), 4, "504 Gateway Timeout");
    assert_eq!(Error::InvalidStatus(599).exit_code(), 4, "599 (last 5xx)");
}

#[test]
fn test_exit_codes_io_errors() {
    assert_eq!(Error::TempFileError("test".to_string()).exit_code(), 3);
    assert_eq!(Error::WriteError("test".to_string()).exit_code(), 3);
}

#[test]
fn test_exit_codes_network_errors() {
    assert_eq!(Error::Timeout.exit_code(), 4);
}

#[test]
fn test_exit_codes_protocol_errors() {
    assert_eq!(Error::RangeNotSupported.exit_code(), 7);
    assert_eq!(Error::ContentLengthUnavailable.exit_code(), 7);
}

#[test]
fn exit_codes_of_other_errors() {
    assert_eq!(Error::ConfigError("x".to_string()).exit_code(), 2);
    assert_eq!(Error::InvalidUrl("x".to_string()).exit_code(), 2);
    assert_eq!(Error::IoError("x".to_string()).exit_code(), 3);
    assert_eq!(Error::InvalidStatus(302).exit_code(), 1);
    assert_eq!(Error::MaxRetriesExceeded(3).exit_code(), 1);
    assert_eq!(Error::Unknown("x".to_string()).exit_code(), 1);
}

#[test]
fn http_failure_exit_codes() {
    let timeout = HttpFailure { message: "deadline".to_string(), is_timeout: true, is_connect: false };
    assert_eq!(Error::HttpError(timeout).exit_code(), 4);
    let tls = HttpFailure { message: "invalid certificate".to_string(), is_timeout: false, is_connect: false };
    assert_eq!(Error::HttpError(tls).exit_code(), 5);
    let other = HttpFailure { message: "bad".to_string(), is_timeout: false, is_connect: false };
    assert_eq!(Error::HttpError(other).exit_code(), 1);
}

#[test]
fn error_messages() {
    assert_eq!(Error::InvalidStatus(404).message(), "Invalid response status: 404");
    assert_eq!(Error::MaxRetriesExceeded(5).message(), "Download failed after 5 retries");
    assert_eq!(Error::Timeout.message(), "Timeout exceeded");
    assert_eq!(Error::ConfigError("bad".to_string()).message(), "Configuration error: bad");
}

#[test]
fn wget_style_messages() {
    assert_eq!(Error::MaxRetriesExceeded(2).format_wget_style(), "Giving up after 2 retries.");
    assert_eq!(Error::InvalidUrl("x".to_string()).format_wget_style(), "Invalid URL format.");
    assert_eq!(
        Error::Timeout.format_with_url("http://a/"),
        "http://a/: Read error (Connection timed out)."
    );
}
