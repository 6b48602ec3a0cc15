use wget_faster_lib::timestamping::{
    if_modified_since_value, server_mtime, timestamp_action, LocalFile, TimestampAction,
};

#[test]
fn test_timestamp_action_equality() {
    assert_eq!(TimestampAction::Download, TimestampAction::Download);
    assert_eq!(TimestampAction::Skip, TimestampAction::Skip);
    assert_eq!(TimestampAction::DeleteAndDownload, TimestampAction::DeleteAndDownload);
    assert_ne!(TimestampAction::Download, TimestampAction::Skip);
}

const JAN_2024: &str = "Mon, 01 Jan 2024 00:00:00 GMT";
const JAN_2024_SECS: i64 = 1_704_067_200;

fn local(size: u64, secs: i64, nanos: u32) -> Option<LocalFile> {
    Some(LocalFile { size, modified_secs: secs, modified_nanos: nanos })
}

#[test]
fn no_local_copy_downloads() {
    assert_eq!(timestamp_action(None, Some(JAN_2024), Some(1000)), TimestampAction::Download);
}

#[test]
fn missing_or_bad_last_modified_replaces() {
    assert_eq!(timestamp_action(local(1, 0, 0), None, None), TimestampAction::DeleteAndDownload);
    assert_eq!(timestamp_action(local(1, 0, 0), Some("yesterday"), None), TimestampAction::DeleteAndDownload);
}

#[test]
fn older_copy_is_replaced_newer_is_kept() {
    assert_eq!(timestamp_action(local(5, JAN_2024_SECS - 1, 0), Some(JAN_2024), Some(5)), TimestampAction::DeleteAndDownload);
    assert_eq!(timestamp_action(local(5, JAN_2024_SECS + 1, 0), Some(JAN_2024), Some(7)), TimestampAction::Skip);
    assert_eq!(timestamp_action(local(5, JAN_2024_SECS, 1), Some(JAN_2024), Some(7)), TimestampAction::Skip);
}

#[test]
fn same_time_compares_sizes() {
    assert_eq!(timestamp_action(local(1000, JAN_2024_SECS, 0), Some(JAN_2024), Some(1000)), TimestampAction::Skip);
    assert_eq!(timestamp_action(local(999, JAN_2024_SECS, 0), Some(JAN_2024), Some(1000)), TimestampAction::DeleteAndDownload);
    assert_eq!(timestamp_action(local(999, JAN_2024_SECS, 0), Some(JAN_2024), None), TimestampAction::Skip);
}

#[test]
fn server_timestamps() {
    assert_eq!(server_mtime(Some(JAN_2024)), Some(JAN_2024_SECS as u64));
    assert_eq!(server_mtime(Some("Thu, 01 Jan 1970 00:00:00 GMT")), Some(0));
    assert_eq!(server_mtime(Some("not a date")), None);
    assert_eq!(server_mtime(None), None);
}

#[test]
fn if_modified_since_dates() {
    assert_eq!(if_modified_since_value(Some(0)), Some("Thu, 01 Jan 1970 00:00:00 GMT".to_string()));
    assert_eq!(if_modified_since_value(Some(784111777)), Some("Sun, 06 Nov 1994 08:49:37 GMT".to_string()));
    assert_eq!(if_modified_since_value(Some(253402300799)), Some("Fri, 31 Dec 9999 23:59:59 GMT".to_string()));
    assert_eq!(if_modified_since_value(Some(253402300800)), None);
    assert_eq!(if_modified_since_value(None), None);
}
