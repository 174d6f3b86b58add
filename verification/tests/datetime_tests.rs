//! Tests for iCalendar date-time parsing.

use chrono::TimeZone;
use meeting_engine::{parse_ical_datetime, parse_ical_datetime_in};

#[test]
fn test_parse_ical_datetime_local() {
    let result = parse_ical_datetime("20240221T123000", None).unwrap();
    assert_eq!(result.year, 2024);
    assert_eq!(result.month, 2);
    assert_eq!(result.day, 21);
    assert_eq!(result.hour, 12);
    assert_eq!(result.minute, 30);
}

#[test]
fn test_parse_ical_datetime_utc() {
    let result = parse_ical_datetime("20240221T123000Z", None).unwrap();
    assert_eq!(result.year, 2024);
    assert_eq!(result.month, 2);
    assert_eq!(result.day, 21);
    // Hour may differ due to timezone conversion
}

#[test]
fn test_parse_ical_datetime_with_tzid_in_value() {
    // When TZID is embedded in the value string (legacy format)
    let result = parse_ical_datetime("TZID=America/Los_Angeles:20240221T123000", None).unwrap();
    assert_eq!(result.year, 2024);
    assert_eq!(result.month, 2);
    assert_eq!(result.day, 21);
    // Note: Without passing TZID separately, this parses as local time
}

#[test]
fn test_parse_ical_datetime_with_tzid_param() {
    // When TZID is passed as a separate parameter (proper handling)
    let result = parse_ical_datetime("20240221T120000", Some("America/New_York")).unwrap();
    // 12:00 PM Eastern should convert to local time
    assert_eq!(result.year, 2024);
    assert_eq!(result.month, 2);
    assert_eq!(result.day, 21);
    // The hour depends on the local timezone, so just verify it parsed
}

#[test]
fn test_parse_ical_datetime_date_only() {
    let result = parse_ical_datetime("20250527", None).unwrap();
    assert_eq!(result.year, 2025);
    assert_eq!(result.month, 5);
    assert_eq!(result.day, 27);
    assert_eq!(result.hour, 0);
    assert_eq!(result.minute, 0);
}

#[test]
fn test_parse_ical_datetime_value_date() {
    let result = parse_ical_datetime("VALUE=DATE:20250527", None).unwrap();
    assert_eq!(result.year, 2025);
    assert_eq!(result.month, 5);
    assert_eq!(result.day, 27);
}

#[test]
fn test_parse_ical_datetime_invalid() {
    assert!(parse_ical_datetime("invalid", None).is_none());
    assert!(parse_ical_datetime("", None).is_none());
}

#[test]
fn test_parse_ical_datetime_timezone_conversion() {
    // 12:00 UTC should be different from 12:00 local (unless in UTC)
    let utc_result = parse_ical_datetime("20240601T120000Z", None).unwrap();
    let local_result = parse_ical_datetime("20240601T120000", None).unwrap();

    // The local interpretation should always be 12:00 local
    assert_eq!(local_result.hour, 12);

    // UTC result depends on the local timezone offset
    assert_eq!(utc_result.minute, 0);
    assert_eq!(local_result.minute, 0);
}

#[test]
fn test_parse_ical_datetime_with_known_timezone() {
    // America/New_York is UTC-5 (or UTC-4 in DST)
    let result = parse_ical_datetime("20240115T120000", Some("America/New_York"));
    assert!(result.is_some());
    let dt = result.unwrap();
    assert_eq!(dt.year, 2024);
    assert_eq!(dt.month, 1);
    assert_eq!(dt.day, 15);
    // Hour will be converted to local time
}

#[test]
fn test_parse_ical_datetime_unknown_timezone_fallback() {
    // Unknown timezone should fall back to local time interpretation
    let result = parse_ical_datetime("20240601T120000", Some("Unknown/Timezone"));
    assert!(result.is_some());
    let dt = result.unwrap();
    // Should parse as local time since timezone is unknown
    assert_eq!(dt.hour, 12);
}

#[test]
fn test_parse_ical_datetime_with_timezones() {
    // Basic UTC time (Z suffix)
    let utc_result = parse_ical_datetime("20240315T140000Z", None);
    assert!(utc_result.is_some());
    let utc_dt = utc_result.unwrap();
    // The parsed time represents 14:00 UTC, converted to local
    assert!(utc_dt.epoch > 0);

    // Time with IANA timezone
    let iana_result = parse_ical_datetime("20240315T100000", Some("America/New_York"));
    assert!(iana_result.is_some());

    // Time with Windows timezone name
    let win_result = parse_ical_datetime("20240315T100000", Some("Eastern Standard Time"));
    assert!(win_result.is_some());

    // Both should represent the same instant (10 AM Eastern)
    if let (Some(iana_dt), Some(win_dt)) = (iana_result, win_result) {
        assert_eq!(iana_dt.epoch, win_dt.epoch);
    }

    // Time with case-insensitive timezone
    let case_result = parse_ical_datetime("20240315T100000", Some("america/new_york"));
    assert!(case_result.is_some());
    if let (Some(iana_dt), Some(case_dt)) = (
        parse_ical_datetime("20240315T100000", Some("America/New_York")),
        case_result,
    ) {
        assert_eq!(iana_dt.epoch, case_dt.epoch);
    }

    // Date-only format (all-day events)
    let date_result = parse_ical_datetime("20240315", None);
    assert!(date_result.is_some());
    let date_dt = date_result.unwrap();
    assert_eq!((date_dt.year, date_dt.month, date_dt.day), (2024, 3, 15));

    // Invalid timezone should fall back to local time interpretation
    let invalid_tz_result = parse_ical_datetime("20240315T100000", Some("Invalid/Timezone"));
    assert!(invalid_tz_result.is_some()); // Still parses, just in local time
}

#[test]
fn test_parse_ical_datetime_dst_edge_cases() {
    // Spring forward gap: 2:30 AM on March 10, 2024 doesn't exist in
    // America/Los_Angeles; the library resolves it to None rather than
    // panicking.
    let gap_result = parse_ical_datetime("20240310T023000", Some("America/Los_Angeles"));

    // Fall back overlap: 1:30 AM on November 3, 2024 happens twice;
    // the ambiguous time yields no single interpretation.
    let overlap_result = parse_ical_datetime("20241103T013000", Some("America/Los_Angeles"));

    // Times clearly outside DST transitions work normally
    let summer_result = parse_ical_datetime("20240715T120000", Some("America/Los_Angeles"));
    assert!(summer_result.is_some()); // July 15 is well within PDT

    let winter_result = parse_ical_datetime("20240115T120000", Some("America/Los_Angeles"));
    assert!(winter_result.is_some()); // January 15 is well within PST

    // UTC times are never affected by DST
    let utc_march = parse_ical_datetime("20240310T100000Z", None);
    assert!(utc_march.is_some());

    // Timezones without DST never have gaps
    let phoenix_result = parse_ical_datetime("20240310T023000", Some("America/Phoenix"));
    assert!(phoenix_result.is_some()); // Arizona doesn't observe DST

    let _ = gap_result;
    let _ = overlap_result;
}

#[test]
fn test_parse_ical_datetime_in_explicit_zone() {
    // With the display zone pinned to UTC the conversion is exact:
    // noon Eastern in January is 17:00 UTC.
    let dt = parse_ical_datetime_in("20240115T120000", Some("America/New_York"), "UTC").unwrap();
    assert_eq!(dt.hour, 17);
    assert_eq!((dt.year, dt.month, dt.day), (2024, 1, 15));
    // And the instant agrees with chrono's own arithmetic.
    let expected = chrono_tz::Tz::America__New_York
        .with_ymd_and_hms(2024, 1, 15, 12, 0, 0)
        .unwrap()
        .timestamp();
    assert_eq!(dt.epoch, expected);
}

#[test]
fn test_parse_ical_datetime_in_rejects_bad_dates() {
    assert!(parse_ical_datetime_in("20240230T120000", None, "UTC").is_none()); // Feb 30
    assert!(parse_ical_datetime_in("20241301T120000", None, "UTC").is_none()); // month 13
    assert!(parse_ical_datetime_in("20240215T250000", None, "UTC").is_none()); // hour 25
    assert!(parse_ical_datetime_in("20240229T120000", None, "UTC").is_some()); // 2024 is leap
    assert!(parse_ical_datetime_in("20230229T120000", None, "UTC").is_none()); // 2023 is not
}
