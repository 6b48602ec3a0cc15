use wget_faster_lib::transfer::{
    after_get, after_head, body_content_type, chunk_range, chunk_status_ok, final_size, format_headers,
    header_value, keep_file, open_mode, parallel_size, resume_offset, resume_range, skip_head,
    summarize_headers, BodyStep, HeadStep, OpenMode,
};
use wget_faster_lib::HttpMethod;

#[test]
fn head_request_is_skipped() {
    assert!(skip_head(true, 10, 8));
    assert!(skip_head(false, 0, 8));
    assert!(skip_head(false, 10, 1));
    assert!(!skip_head(false, 10, 8));
}

#[test]
fn head_status_steps() {
    assert_eq!(after_head(204, false, true), HeadStep::Empty);
    assert_eq!(after_head(304, false, true), HeadStep::KeepExisting);
    assert_eq!(after_head(304, false, false), HeadStep::Empty);
    assert_eq!(after_head(416, false, true), HeadStep::KeepExisting);
    assert_eq!(after_head(416, false, false), HeadStep::Fail(416));
    assert_eq!(after_head(404, false, false), HeadStep::Fail(404));
    assert_eq!(after_head(404, true, false), HeadStep::Continue);
    assert_eq!(after_head(401, true, false), HeadStep::Fail(401));
    assert_eq!(after_head(200, false, false), HeadStep::Continue);
}

#[test]
fn resume_and_open() {
    assert_eq!(resume_offset(true, Some(5), Some(10)), 0);
    assert_eq!(resume_offset(false, Some(5), Some(10)), 5);
    assert_eq!(resume_offset(false, None, Some(10)), 10);
    assert_eq!(resume_offset(false, None, None), 0);
    assert_eq!(open_mode(10, false, false, true), OpenMode::Append);
    assert_eq!(open_mode(10, true, false, true), OpenMode::Create);
    assert_eq!(open_mode(0, false, true, true), OpenMode::KeepContents);
    assert_eq!(open_mode(0, false, true, false), OpenMode::Create);
}

#[test]
fn transfer_shapes() {
    assert_eq!(parallel_size(true, 0, Some(100), 10), Some(100));
    assert_eq!(parallel_size(true, 0, Some(10), 10), None);
    assert_eq!(parallel_size(true, 5, Some(100), 10), None);
    assert_eq!(parallel_size(false, 0, Some(100), 10), None);
    assert_eq!(resume_range(0), None);
    assert_eq!(resume_range(1234), Some("bytes=1234-".to_string()));
    assert_eq!(chunk_range(0, 1023), "bytes=0-1023");
    assert!(chunk_status_ok(206));
    assert!(!chunk_status_ok(404));
}

#[test]
fn get_status_steps() {
    assert_eq!(after_get(200, false, 7, false), BodyStep::Write);
    assert_eq!(after_get(204, false, 7, false), BodyStep::Done(0));
    assert_eq!(after_get(304, false, 7, false), BodyStep::Done(0));
    assert_eq!(after_get(304, false, 7, true), BodyStep::Done(7));
    assert_eq!(after_get(416, false, 7, false), BodyStep::Done(7));
    assert_eq!(after_get(500, false, 7, false), BodyStep::Fail(500));
    assert_eq!(after_get(500, true, 7, false), BodyStep::Write);
    assert_eq!(after_get(302, true, 7, false), BodyStep::Fail(302));
}

#[test]
fn what_is_kept() {
    assert!(!keep_file(false, 204, 10, 0));
    assert!(keep_file(true, 204, 10, 0));
    assert!(!keep_file(false, 200, 0, 0));
    assert_eq!(final_size(true, 0, Some(42)), 42);
    assert_eq!(final_size(false, 0, Some(42)), 0);
    assert_eq!(final_size(true, 5, Some(42)), 5);
}

#[test]
fn request_body_content_type() {
    assert_eq!(body_content_type(HttpMethod::Post, true, None), Some("application/x-www-form-urlencoded".to_string()));
    assert_eq!(body_content_type(HttpMethod::Get, true, None), None);
    assert_eq!(body_content_type(HttpMethod::Get, true, Some("text/plain")), Some("text/plain".to_string()));
    assert_eq!(body_content_type(HttpMethod::Post, false, Some("text/plain")), None);
}

fn headers() -> Vec<(String, Option<String>)> {
    vec![
        ("content-type".to_string(), Some("text/html".to_string())),
        ("content-length".to_string(), Some("1234".to_string())),
        ("accept-ranges".to_string(), Some("bytes".to_string())),
        ("x-binary".to_string(), None),
        ("content-type".to_string(), Some("text/plain".to_string())),
    ]
}

#[test]
fn header_summary() {
    let h = headers();
    assert_eq!(header_value(&h, "content-type"), Some("text/html".to_string()));
    assert_eq!(header_value(&h, "etag"), None);
    let s = summarize_headers(&h);
    assert!(s.supports_range);
    assert_eq!(s.content_length, Some(1234));
    assert_eq!(s.content_type, Some("text/html".to_string()));
    assert_eq!(s.last_modified, None);
    let none = vec![("accept-ranges".to_string(), Some("none".to_string())), ("content-length".to_string(), Some("x".to_string()))];
    let s2 = summarize_headers(&none);
    assert!(!s2.supports_range);
    assert_eq!(s2.content_length, None);
}

#[test]
fn header_dump() {
    let h = headers();
    assert_eq!(
        format_headers(200, &h),
        "HTTP/1.1 200 OK\n  content-type: text/html\n  content-length: 1234\n  accept-ranges: bytes\n  content-type: text/plain\n"
    );
    assert_eq!(format_headers(418, &vec![]), "HTTP/1.1 418 Unknown\n");
}
