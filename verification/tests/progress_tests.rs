use std::time::Duration;
use wget_faster_lib::progress::format_duration_secs;
use wget_faster_lib::{format_bytes, format_duration};

#[test]
fn progress_test_format_bytes() {
    assert_eq!(format_bytes(0), "0B");
    assert_eq!(format_bytes(512), "512B");
    assert_eq!(format_bytes(1024), "1.00KB");
    assert_eq!(format_bytes(1536), "1.50KB");
    assert_eq!(format_bytes(1048576), "1.00MB");
    assert_eq!(format_bytes(1073741824), "1.00GB");
}

#[test]
fn progress_test_format_duration() {
    assert_eq!(format_duration(Duration::from_secs(0)), "0s");
    assert_eq!(format_duration(Duration::from_secs(30)), "30s");
    assert_eq!(format_duration(Duration::from_secs(60)), "1m");
    assert_eq!(format_duration(Duration::from_secs(90)), "1m 30s");
    assert_eq!(format_duration(Duration::from_secs(3600)), "1h");
    assert_eq!(format_duration(Duration::from_secs(3661)), "1h 1m 1s");
}

/// The text that formatting the size as a float gives, as the unverified
/// formulation computes it, to hold the verified integer one against.
fn float_formatted(bytes: u64) -> String {
    let units = ["B", "KB", "MB", "GB", "TB"];
    let mut size = bytes as f64;
    let mut unit_idx = 0;
    while size >= 1024.0 && unit_idx < units.len() - 1 {
        size /= 1024.0;
        unit_idx += 1;
    }
    if unit_idx == 0 {
        format!("{bytes}B")
    } else {
        format!("{:.2}{}", size, units[unit_idx])
    }
}

#[test]
fn format_bytes_matches_float_formatting() {
    let mut samples: Vec<u64> = vec![
        1023, 1024, 1025, 1029, 1030, 1034, 1035, 1536, 10 * 1024 + 5, 1_000_000, 1_048_575,
        1_048_576, 1_073_741_823, 1_073_741_824, 1_099_511_627_775, 1_099_511_627_776,
        5 * 1_099_511_627_776, 1_125_899_906_842_623, 1_125_899_906_842_624,
        9_007_199_254_740_993, u64::MAX, u64::MAX - 1, (1u64 << 63) + 1, 123_456_789_012_345,
    ];
    let mut x: u64 = 0x9E37_79B9_7F4A_7C15;
    for _ in 0..2000 {
        x ^= x << 13;
        x ^= x >> 7;
        x ^= x << 17;
        samples.push(x >> (x % 60));
    }
    // Values whose hundredths fall exactly half-way (ties to even).
    for k in 0..200u64 {
        samples.push(1024 * k + 5 * 1024 / 1000);
        samples.push(k * 1024 * 1024 + 5 * 1024 * 1024 / 1000);
        samples.push((2 * k + 1) * 1024 * 1024 / 200);
        samples.push((2 * k + 1) * 1024 / 200);
    }
    for &b in &samples {
        assert_eq!(format_bytes(b), float_formatted(b), "bytes = {b}");
    }
}

#[test]
fn format_bytes_units() {
    assert_eq!(format_bytes(1023), "1023B");
    assert_eq!(format_bytes(1024u64.pow(4)), "1.00TB");
    assert_eq!(format_bytes(1024u64.pow(5)), "1024.00TB");
    assert_eq!(format_bytes(u64::MAX), "16777216.00TB");
    assert_eq!(format_bytes(5 * 1024 * 1024), "5.00MB");
    assert_eq!(format_bytes(10 * 1024 * 1024), "10.00MB");
}

#[test]
fn format_duration_secs_forms() {
    assert_eq!(format_duration_secs(59), "59s");
    assert_eq!(format_duration_secs(120), "2m");
    assert_eq!(format_duration_secs(3599), "59m 59s");
    assert_eq!(format_duration_secs(7200 + 120), "2h 2m");
    assert_eq!(format_duration_secs(7201), "2h 0m 1s");
    assert_eq!(format_duration_secs(9000 + 15), "2h 30m 15s");
}
