//! Tests for filename pattern extraction and the datetime codec.

use pngstamp::codec::creation_time_to_exif_time;
use pngstamp::matcher::extract_timestamp_string;

#[test]
fn test_valid_timestamps() {
    // YYYY-MM-DD HH:MM:SS
    assert_eq!(
        extract_timestamp_string("スクリーンショット 2025-01-22 20:26:51", 0),
        Some("2025:01:22 20:26:51".to_string())
    );
    // YYYY-MM-DD_HH:MM:SS
    assert_eq!(
        extract_timestamp_string("2025-01-22_20:26:51", 0),
        Some("2025:01:22 20:26:51".to_string())
    );
    // YYYYMMDDHHMMSS
    assert_eq!(
        extract_timestamp_string("20250122202651", 0),
        Some("2025:01:22 20:26:51".to_string())
    );
    // Unix epoch seconds
    assert_eq!(
        extract_timestamp_string("_download0_StarRail_Image_1728111920_png_.png", 9),
        Some("2024:10:05 16:05:20".to_string())
    );
}

#[test]
fn test_invalid_timestamps() {
    assert_eq!(extract_timestamp_string("invalid input", 0), None);
    assert_eq!(extract_timestamp_string("2025-01", 0), None);
    assert_eq!(extract_timestamp_string("123456789", 0), None);
}

#[test]
fn test_nine_digit_epoch_rejected_even_with_offset() {
    assert_eq!(extract_timestamp_string("123456789", 5), None);
}

#[test]
fn test_invalid_month_fails_without_fallback() {
    // A structurally matched date with month 13 fails outright; the ten
    // digits inside it are not retried as an epoch.
    assert_eq!(extract_timestamp_string("2025-13-22 20:26:51", 0), None);
}

#[test]
fn test_epoch_offset_negative() {
    // 1728111920 is 2024-10-05 07:05:20 UTC.
    assert_eq!(
        extract_timestamp_string("1728111920", -8),
        Some("2024:10:04 23:05:20".to_string())
    );
}

#[test]
fn test_codec_iso_form() {
    assert_eq!(
        creation_time_to_exif_time("2025-01-25T13:56:25+09:00").unwrap(),
        "2025:01:25 13:56:25".to_string()
    );
    assert_eq!(
        creation_time_to_exif_time("2025-01-25T13:56:25+0900").unwrap(),
        "2025:01:25 13:56:25".to_string()
    );
}

#[test]
fn test_codec_rfc1123_form() {
    assert_eq!(
        creation_time_to_exif_time("Sat, 25 Jan 2025 13:56:25 +0900").unwrap(),
        "2025:01:25 13:56:25".to_string()
    );
}

#[test]
fn test_codec_exif_form_is_kept() {
    assert_eq!(
        creation_time_to_exif_time("2025:01:25 13:56:25").unwrap(),
        "2025:01:25 13:56:25".to_string()
    );
}

#[test]
fn test_codec_rejects_unparseable() {
    assert!(creation_time_to_exif_time("yesterday at noon").is_err());
    // Structurally fine, but February 30th is no date.
    assert!(creation_time_to_exif_time("2025:02:30 10:00:00").is_err());
}

#[test]
fn test_leap_day() {
    assert_eq!(
        extract_timestamp_string("2024-02-29_12:00:00", 0),
        Some("2024:02:29 12:00:00".to_string())
    );
    assert_eq!(extract_timestamp_string("2023-02-29_12:00:00", 0), None);
}

#[test]
fn test_offset_rolls_over_midnight() {
    // A tIME-style shift across a date boundary through the epoch path:
    // 1735689599 is 2024-12-31 23:59:59 UTC.
    assert_eq!(
        extract_timestamp_string("1735689599", 1),
        Some("2025:01:01 00:59:59".to_string())
    );
}
