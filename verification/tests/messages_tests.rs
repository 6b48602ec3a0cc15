use wget_faster_lib::messages::{
    connecting_messages, content_info_message, display_port, header_message, http_response_message,
    quota_message, redirect_message, resume_messages, retry_message, saved_message, saving_message,
    spider_messages, status_in_message, timestamping_message,
};

#[test]
fn port_defaults_by_scheme() {
    assert_eq!(display_port("https", None), 443);
    assert_eq!(display_port("http", None), 80);
    assert_eq!(display_port("ftp", None), 80);
    assert_eq!(display_port("https", Some(8443)), 8443);
}

#[test]
fn connection_lines() {
    let (a, b) = connecting_messages("example.com", 443);
    assert_eq!(a, "Resolving example.com... ");
    assert_eq!(b, "Connecting to example.com:443... connected.");
}

#[test]
fn response_and_content_lines() {
    assert_eq!(http_response_message(200, "OK"), "200 OK");
    assert_eq!(
        content_info_message(Some(2048), Some("text/html")),
        "Length: 2048 (2.00KB) [text/html]"
    );
    assert_eq!(content_info_message(None, None), "Length: unspecified");
    assert_eq!(content_info_message(Some(10), None), "Length: 10 (10B)");
}

#[test]
fn saving_and_saved_lines() {
    assert_eq!(saving_message("index.html"), "Saving to: 'index.html'");
    assert_eq!(saved_message("index.html", 1234), " - 'index.html' saved [1234]");
}

#[test]
fn spider_lines() {
    let (a, b) = spider_messages(200, true);
    assert_eq!(a, "  HTTP 200 OK");
    assert_eq!(b, "Remote file exists.");
    let (a, b) = spider_messages(404, false);
    assert_eq!(a, "  HTTP 404 Not Found");
    assert_eq!(b, "Remote file does not exist -- broken link!!!");
}

#[test]
fn other_lines() {
    assert_eq!(retry_message(2, 20, 5), "Retrying (2/20)... waiting 5 seconds...");
    assert_eq!(
        timestamping_message(true, "a.txt"),
        "Server file no newer than local file 'a.txt' -- not retrieving."
    );
    assert_eq!(
        timestamping_message(false, "a.txt"),
        "Server file is newer than local file 'a.txt' -- retrieving."
    );
    let (a, b) = resume_messages("f.bin", 100);
    assert_eq!(a, "Continuing in background. Output will be written to 'f.bin'.");
    assert_eq!(b, "Resuming download. Starting at byte position: 100");
    assert_eq!(quota_message(1000), "Download quota of 1000 bytes EXCEEDED!");
    assert_eq!(redirect_message("http://x/"), "Location: http://x/ [following]");
    assert_eq!(header_message("Server", "nginx"), "  Server: nginx");
}

#[test]
fn status_read_from_message() {
    assert_eq!(status_in_message("Invalid status: 404 Not Found"), 404);
    assert_eq!(status_in_message("x Invalid status: 500"), 500);
    assert_eq!(status_in_message("Invalid status: 70000"), 0);
    assert_eq!(status_in_message("Invalid status: abc"), 0);
    assert_eq!(status_in_message("Invalid response status: 404"), 0);
    assert_eq!(status_in_message(""), 0);
}
