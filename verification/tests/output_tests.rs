use std::time::Duration;
use wget_faster_lib::cli::{format_duration_wget, format_duration_wget_secs};

#[test]
fn test_format_duration_wget() {
    assert_eq!(format_duration_wget(Duration::from_secs(0)), "0s");
    assert_eq!(format_duration_wget(Duration::from_secs(30)), "30s");
    assert_eq!(format_duration_wget(Duration::from_secs(90)), "1m 30s");
    assert_eq!(format_duration_wget(Duration::from_secs(3661)), "1h 1m 1s");
}

#[test]
fn wget_durations_leave_out_zero_parts() {
    assert_eq!(format_duration_wget_secs(3600), "1h");
    assert_eq!(format_duration_wget_secs(3601), "1h 1s");
    assert_eq!(format_duration_wget_secs(60), "1m");
    assert_eq!(format_duration_wget_secs(7260), "2h 1m");
}
