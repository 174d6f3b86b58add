//! Tests for meeting-URL extraction and physical-location detection.

use meeting_engine::{
    extract_meeting_url, get_physical_location, AttendanceStatus, LocalTime, Meeting,
};

fn stamp(epoch: i64) -> LocalTime {
    LocalTime { epoch, year: 2024, month: 6, day: 1, hour: 12, minute: 0, second: 0 }
}

fn make_test_meeting(location: Option<&str>, description: Option<&str>) -> Meeting {
    let now = chrono::Local::now().timestamp();
    Meeting {
        uid: "test-uid".to_string(),
        title: "Test Meeting".to_string(),
        start: stamp(now),
        end: stamp(now + 3600),
        location: location.map(String::from),
        description: description.map(String::from),
        calendar_uid: "cal-uid".to_string(),
        is_all_day: false,
        attendance_status: AttendanceStatus::NoStatus,
    }
}

#[test]
fn test_extract_meeting_url_from_location() {
    let patterns = vec![r"https://meet\.google\.com/[a-z-]+".to_string()];
    let meeting = make_test_meeting(Some("https://meet.google.com/abc-defg-hij"), None);
    let url = extract_meeting_url(&meeting, &patterns);
    assert_eq!(url, Some("https://meet.google.com/abc-defg-hij".to_string()));
}

#[test]
fn test_extract_meeting_url_from_description() {
    let patterns = vec![r"https://zoom\.us/j/\d+".to_string()];
    let meeting = make_test_meeting(
        Some("Conference Room A"),
        Some("Join: https://zoom.us/j/123456789"),
    );
    let url = extract_meeting_url(&meeting, &patterns);
    assert_eq!(url, Some("https://zoom.us/j/123456789".to_string()));
}

#[test]
fn test_extract_meeting_url_location_priority() {
    let patterns = vec![r"https://meet\.google\.com/[a-z-]+".to_string()];
    let meeting = make_test_meeting(
        Some("https://meet.google.com/loc-ation"),
        Some("https://meet.google.com/desc-ription"),
    );
    let url = extract_meeting_url(&meeting, &patterns);
    // Location should be checked first
    assert_eq!(url, Some("https://meet.google.com/loc-ation".to_string()));
}

#[test]
fn test_extract_meeting_url_no_match() {
    let patterns = vec![r"https://meet\.google\.com/[a-z-]+".to_string()];
    let meeting = make_test_meeting(Some("Conference Room B"), None);
    assert!(extract_meeting_url(&meeting, &patterns).is_none());
}

#[test]
fn test_extract_meeting_url_empty_patterns() {
    let patterns: Vec<String> = vec![];
    let meeting = make_test_meeting(Some("https://meet.google.com/abc-def"), None);
    assert!(extract_meeting_url(&meeting, &patterns).is_none());
}

#[test]
fn test_extract_meeting_url_invalid_pattern_discarded() {
    // The broken pattern is silently discarded; the valid one still wins.
    let patterns = vec!["[unclosed".to_string(), r"https://meet\.google\.com/[a-z-]+".to_string()];
    let meeting = make_test_meeting(Some("https://meet.google.com/abc-def"), None);
    assert_eq!(
        extract_meeting_url(&meeting, &patterns),
        Some("https://meet.google.com/abc-def".to_string())
    );
}

#[test]
fn test_get_physical_location_room() {
    let patterns = vec![r"https://meet\.google\.com/[a-z-]+".to_string()];
    let meeting = make_test_meeting(Some("Conference Room A"), None);
    assert_eq!(
        get_physical_location(&meeting, &patterns),
        Some("Conference Room A".to_string())
    );
}

#[test]
fn test_get_physical_location_url_only() {
    let patterns = vec![r"https://meet\.google\.com/[a-z-]+".to_string()];
    let meeting = make_test_meeting(Some("https://meet.google.com/abc-defg-hij"), None);
    assert!(get_physical_location(&meeting, &patterns).is_none());
}

#[test]
fn test_get_physical_location_generic_url() {
    let patterns: Vec<String> = vec![];
    let meeting = make_test_meeting(Some("https://example.com/meeting"), None);
    assert!(get_physical_location(&meeting, &patterns).is_none());
}

#[test]
fn test_get_physical_location_partial_match_kept() {
    // A pattern matching only part of the location does not disqualify it.
    let patterns = vec![r"Room".to_string()];
    let meeting = make_test_meeting(Some("Conference Room A"), None);
    assert_eq!(
        get_physical_location(&meeting, &patterns),
        Some("Conference Room A".to_string())
    );
}

#[test]
fn test_get_physical_location_empty_or_blank() {
    let patterns: Vec<String> = vec![];
    let blank = make_test_meeting(Some("   "), None);
    assert!(get_physical_location(&blank, &patterns).is_none());
    let missing = make_test_meeting(None, None);
    assert!(get_physical_location(&missing, &patterns).is_none());
}
