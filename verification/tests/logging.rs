use std::time::{Duration, UNIX_EPOCH};
use tamp_lib::logging::{
    civil_from_days, format_timestamp, format_timestamp_parts, needs_rotation, rotated_file_name,
    rotation_plan, Level, LOG_FILE, MAX_FILE_BYTES, MAX_ROTATED,
};

#[test]
fn timestamps_format_rfc3339_utc() {
    assert_eq!(format_timestamp(UNIX_EPOCH), "1970-01-01T00:00:00.000Z");
    assert_eq!(
        format_timestamp(UNIX_EPOCH + Duration::from_millis(1_700_000_000_123)),
        "2023-11-14T22:13:20.123Z"
    );
    // Leap day.
    assert_eq!(
        format_timestamp(UNIX_EPOCH + Duration::from_secs(1_709_164_800)),
        "2024-02-29T00:00:00.000Z"
    );
}

#[test]
fn civil_dates_around_epoch_and_leap_years() {
    assert_eq!(civil_from_days(0), (1970, 1, 1));
    assert_eq!(civil_from_days(-1), (1969, 12, 31));
    assert_eq!(civil_from_days(59), (1970, 3, 1));
    assert_eq!(civil_from_days(11016), (2000, 2, 29));
    assert_eq!(civil_from_days(19782), (2024, 2, 29));
}

#[test]
fn timestamp_parts_pad_every_field() {
    assert_eq!(format_timestamp_parts(5, 7), "1970-01-01T00:00:05.007Z");
    assert_eq!(format_timestamp_parts(86_399, 999), "1970-01-01T23:59:59.999Z");
}

#[test]
fn level_names_and_rotation_rules() {
    assert_eq!(Level::Error.as_str(), "ERROR");
    assert_eq!(Level::Warn.as_str(), "WARN");
    assert_eq!(Level::Info.as_str(), "INFO");
    assert_eq!(Level::Debug.as_str(), "DEBUG");
    assert_eq!(LOG_FILE, "tamp.log");
    assert_eq!(MAX_FILE_BYTES, 2 * 1024 * 1024);
    assert_eq!(MAX_ROTATED, 4);
    // A line that would push a non-empty file past the cap rotates first.
    assert!(needs_rotation(10, 11, 20));
    assert!(!needs_rotation(10, 9, 20));
    // An empty file never rotates, even for an oversized line.
    assert!(!needs_rotation(0, 100, 20));
    assert_eq!(rotated_file_name(3), "tamp.3.log");
    let plan = rotation_plan(2);
    assert_eq!(plan.len(), 2);
}
