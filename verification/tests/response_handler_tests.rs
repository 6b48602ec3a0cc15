use wget_faster_lib::response_handler::{
    check_special_status, should_create_file, should_proceed_download, status_text, ResponseStatus,
};

#[test]
fn test_response_status_classification() {
    assert_eq!(ResponseStatus::from_status_code(200), ResponseStatus::Success);
    assert_eq!(ResponseStatus::from_status_code(201), ResponseStatus::Success);
    assert_eq!(ResponseStatus::from_status_code(204), ResponseStatus::NoContent);
    assert_eq!(ResponseStatus::from_status_code(304), ResponseStatus::NotModified);
    assert_eq!(ResponseStatus::from_status_code(401), ResponseStatus::AuthChallenge);
    assert_eq!(ResponseStatus::from_status_code(404), ResponseStatus::ClientError);
    assert_eq!(ResponseStatus::from_status_code(416), ResponseStatus::RangeNotSatisfiable);
    assert_eq!(ResponseStatus::from_status_code(500), ResponseStatus::ServerError);
}

#[test]
fn test_is_success_or_special() {
    assert!(ResponseStatus::Success.is_success_or_special());
    assert!(ResponseStatus::NoContent.is_success_or_special());
    assert!(ResponseStatus::NotModified.is_success_or_special());
    assert!(ResponseStatus::RangeNotSatisfiable.is_success_or_special());
    assert!(!ResponseStatus::ClientError.is_success_or_special());
    assert!(!ResponseStatus::ServerError.is_success_or_special());
}

#[test]
fn test_should_create_file() {
    assert!(!should_create_file(204, 0, 0));
    assert!(!should_create_file(204, 100, 0));
    assert!(!should_create_file(200, 0, 0));
    assert!(should_create_file(200, 0, 100));
    assert!(should_create_file(200, 100, 0));
}

#[test]
fn test_should_proceed_download() {
    // The configuration's `content_on_error` setting is passed directly.
    let mut content_on_error = false;
    assert_eq!(should_proceed_download(200, content_on_error), Ok(true));
    assert_eq!(should_proceed_download(204, content_on_error), Ok(true));
    assert_eq!(should_proceed_download(304, content_on_error), Ok(false));
    assert_eq!(should_proceed_download(416, content_on_error), Ok(false));
    assert_eq!(should_proceed_download(404, content_on_error), Err(404));
    assert_eq!(should_proceed_download(500, content_on_error), Err(500));
    content_on_error = true;
    assert_eq!(should_proceed_download(404, content_on_error), Ok(true));
    assert_eq!(should_proceed_download(500, content_on_error), Ok(true));
}

#[test]
fn test_check_special_status() {
    assert_eq!(check_special_status(204), Some("no_content"));
    assert_eq!(check_special_status(304), Some("not_modified"));
    assert_eq!(check_special_status(416), Some("range_not_satisfiable"));
    assert_eq!(check_special_status(200), None);
    assert_eq!(check_special_status(404), None);
}

#[test]
fn status_classification_edges() {
    assert_eq!(ResponseStatus::from_status_code(203), ResponseStatus::Success);
    assert_eq!(ResponseStatus::from_status_code(205), ResponseStatus::Success);
    assert_eq!(ResponseStatus::from_status_code(299), ResponseStatus::Success);
    assert_eq!(ResponseStatus::from_status_code(407), ResponseStatus::AuthChallenge);
    assert_eq!(ResponseStatus::from_status_code(499), ResponseStatus::ClientError);
    assert_eq!(ResponseStatus::from_status_code(599), ResponseStatus::ServerError);
    assert_eq!(ResponseStatus::from_status_code(301), ResponseStatus::Other);
    assert_eq!(ResponseStatus::from_status_code(600), ResponseStatus::Other);
    assert_eq!(ResponseStatus::from_status_code(100), ResponseStatus::Other);
}

#[test]
fn proceed_on_auth_and_other_statuses() {
    assert_eq!(should_proceed_download(401, true), Err(401));
    assert_eq!(should_proceed_download(407, false), Err(407));
    assert_eq!(should_proceed_download(302, true), Err(302));
}

#[test]
fn status_texts() {
    assert_eq!(status_text(200), "OK");
    assert_eq!(status_text(206), "Partial Content");
    assert_eq!(status_text(404), "Not Found");
    assert_eq!(status_text(503), "Service Unavailable");
    assert_eq!(status_text(418), "Unknown");
}
