//! End-to-end and component tests for the meeting-extraction engine.

use meeting_engine::{
    build_range_query, build_user_emails, calendar_info_from_source, classify_attendance,
    collect_meetings, expand_event, filter_enabled_uids, filtered_meetings, meetings_from_record,
    occurrence_uid, query_window, relative_time_parts, revision_timestamp, sort_calendars,
    wrap_vevent, AttendanceStatus, Attendee, CalendarInfo, Config, EventStatusFilter,
    InProgressMeeting, LocalTime, Meeting, PartStat, SourceRecords,
};

// 2024-06-01 00:00:00 UTC
const NOW: i64 = 1717200000;

fn raw_single() -> String {
    "BEGIN:VEVENT\r\nUID:single-1\r\nSUMMARY:One-off\r\nDTSTART:20240601T010000Z\r\nDTEND:20240601T020000Z\r\nEND:VEVENT".to_string()
}

fn raw_recurring() -> String {
    "BEGIN:VEVENT\r\nUID:rec-1\r\nSUMMARY:Standup\r\nDTSTART:20240601T030000Z\r\nDTEND:20240601T033000Z\r\nRRULE:FREQ=DAILY;COUNT=3\r\nEXDATE:20240602T030000Z\r\nEND:VEVENT".to_string()
}

fn raw_all_day() -> String {
    "BEGIN:VEVENT\r\nUID:allday-1\r\nSUMMARY:Offsite\r\nDTSTART;VALUE=DATE:20240602\r\nDTEND;VALUE=DATE:20240603\r\nEND:VEVENT".to_string()
}

#[test]
fn test_end_to_end_two_sources_limit_two() {
    // Two calendar sources, one excluded by enabled_uids; three raw
    // records fed through the pipeline with limit=2.
    let sources = vec![
        SourceRecords {
            uid: "cal-1".to_string(),
            cal_email: Some("me@example.com".to_string()),
            records: vec![raw_single(), raw_recurring(), raw_all_day()],
        },
        SourceRecords {
            uid: "cal-2".to_string(),
            cal_email: None,
            records: vec![raw_single()],
        },
    ];
    let enabled = vec!["cal-1".to_string()];
    let extra: Vec<String> = vec![];
    let meetings = collect_meetings(sources, &enabled, &extra, 2, NOW, NOW - 1800, "UTC");

    assert_eq!(meetings.len(), 2);
    assert!(meetings[0].start.epoch <= meetings[1].start.epoch);
    assert_eq!(meetings[0].uid, "single-1");
    assert_eq!(meetings[0].calendar_uid, "cal-1");
    // The recurring occurrence's uid is suffixed by its start timestamp.
    assert_eq!(meetings[1].uid, "rec-1@20240601T030000");
    assert_eq!(meetings[1].title, "Standup");
}

#[test]
fn test_end_to_end_exdate_excluded() {
    let meetings = meetings_from_record(
        &raw_recurring(),
        "UTC",
        "cal-1",
        &vec![],
        NOW,
        NOW - 1800,
    );
    // COUNT=3 minus one EXDATE leaves two occurrences.
    assert_eq!(meetings.len(), 2);
    assert_eq!(meetings[0].uid, "rec-1@20240601T030000");
    assert_eq!(meetings[1].uid, "rec-1@20240603T030000");
}

#[test]
fn test_end_to_end_all_day_flag() {
    let meetings = meetings_from_record(
        &raw_all_day(),
        "UTC",
        "cal-1",
        &vec![],
        NOW,
        NOW - 1800,
    );
    assert_eq!(meetings.len(), 1);
    assert!(meetings[0].is_all_day);
    assert_eq!(meetings[0].uid, "allday-1");
}

#[test]
fn test_end_to_end_missing_uid_dropped() {
    // A record whose event lacks a UID is dropped, while other records
    // are unaffected.
    let no_uid = "BEGIN:VEVENT\r\nSUMMARY:Nameless\r\nDTSTART:20240601T050000Z\r\nDTEND:20240601T060000Z\r\nEND:VEVENT";
    assert!(meetings_from_record(no_uid, "UTC", "cal-1", &vec![], NOW, NOW - 1800).is_empty());

    let sources = vec![SourceRecords {
        uid: "cal-1".to_string(),
        cal_email: None,
        records: vec![no_uid.to_string(), raw_single()],
    }];
    let meetings = collect_meetings(sources, &vec![], &vec![], 10, NOW, NOW - 1800, "UTC");
    assert_eq!(meetings.len(), 1);
    assert_eq!(meetings[0].uid, "single-1");
}

#[test]
fn test_end_to_end_malformed_record_dropped() {
    let meetings = meetings_from_record(
        "BEGIN:VEVENT\r\nSUMMARY:broken",
        "UTC",
        "cal-1",
        &vec![],
        NOW,
        NOW - 1800,
    );
    assert!(meetings.is_empty());
}

#[test]
fn test_expansion_idempotent() {
    // Expanding the same rule and window twice yields an identical
    // ordered occurrence list.
    let raw = wrap_vevent(&raw_recurring());
    let a = expand_event(&raw, "UTC", 100).unwrap();
    let b = expand_event(&raw, "UTC", 100).unwrap();
    assert_eq!(a, b);
    assert!(!a.is_empty());
}

#[test]
fn test_classify_attendance_accepted() {
    let attendees = vec![Attendee {
        email: Some("USER@Example.com".to_string()),
        uri: None,
        partstat: Some(PartStat::Accepted),
    }];
    let emails = vec!["user@example.com".to_string()];
    assert_eq!(classify_attendance(&attendees, &emails), AttendanceStatus::Accepted);
}

#[test]
fn test_classify_attendance_no_user_emails() {
    let attendees = vec![Attendee {
        email: Some("user@example.com".to_string()),
        uri: None,
        partstat: Some(PartStat::Accepted),
    }];
    let emails: Vec<String> = vec![];
    assert_eq!(classify_attendance(&attendees, &emails), AttendanceStatus::NoStatus);
}

#[test]
fn test_classify_attendance_mailto_fallback() {
    let attendees = vec![
        Attendee {
            email: None,
            uri: Some("mailto:Other@example.com".to_string()),
            partstat: Some(PartStat::Declined),
        },
        Attendee {
            email: None,
            uri: Some("mailto:User@example.com".to_string()),
            partstat: Some(PartStat::Tentative),
        },
    ];
    let emails = vec!["user@example.com".to_string()];
    assert_eq!(classify_attendance(&attendees, &emails), AttendanceStatus::Tentative);
}

#[test]
fn test_classify_attendance_unmapped_status() {
    let attendees = vec![Attendee {
        email: Some("user@example.com".to_string()),
        uri: None,
        partstat: Some(PartStat::Other),
    }];
    let emails = vec!["user@example.com".to_string()];
    assert_eq!(classify_attendance(&attendees, &emails), AttendanceStatus::NoStatus);
}

#[test]
fn test_build_user_emails_appends_identity() {
    let extra = vec!["a@x.com".to_string(), "  ".to_string()];
    let emails = build_user_emails(&extra, &Some("b@x.com".to_string()));
    assert_eq!(emails, vec!["a@x.com".to_string(), "b@x.com".to_string()]);
}

#[test]
fn test_build_user_emails_deduplicates_case_insensitively() {
    let extra = vec!["User@X.com".to_string()];
    let emails = build_user_emails(&extra, &Some("user@x.com".to_string()));
    assert_eq!(emails, vec!["User@X.com".to_string()]);
}

#[test]
fn test_filter_enabled_uids() {
    let uids = vec!["a".to_string(), "b".to_string(), "c".to_string()];
    let all = filter_enabled_uids(uids.clone(), &vec![]);
    assert_eq!(all.len(), 3);
    let some = filter_enabled_uids(uids, &vec!["c".to_string(), "a".to_string()]);
    assert_eq!(some, vec!["a".to_string(), "c".to_string()]);
}

#[test]
fn test_calendar_info_from_source_fields() {
    let data = "[Data Source]\nDisplayName=Team\n[Calendar]\nColor=#62a0ea\nBackendName=caldav";
    let info = calendar_info_from_source("uid-1", data).unwrap();
    assert_eq!(info.uid, "uid-1");
    assert_eq!(info.display_name, "Team");
    assert_eq!(info.color, Some("#62a0ea".to_string()));
    assert_eq!(info.backend, Some("caldav".to_string()));
    assert_eq!(info.last_synced, None);
}

#[test]
fn test_calendar_info_from_source_fallback_name() {
    let data = "[Calendar]\nBackendName=local";
    let info = calendar_info_from_source("uid-2", data).unwrap();
    assert_eq!(info.display_name, "uid-2");
}

#[test]
fn test_calendar_info_from_source_non_calendar() {
    let data = "[Data Source]\nDisplayName=Contacts\n[Address Book]";
    assert!(calendar_info_from_source("uid-3", data).is_none());
}

#[test]
fn test_is_meeting_source() {
    let mut info = calendar_info_from_source("u", "[Calendar]\nBackendName=caldav").unwrap();
    assert!(info.is_meeting_source());
    info.backend = Some("contacts".to_string());
    assert!(!info.is_meeting_source());
    info.backend = Some("weather".to_string());
    assert!(!info.is_meeting_source());
    info.backend = Some("birthdays".to_string());
    assert!(!info.is_meeting_source());
    info.backend = None;
    assert!(info.is_meeting_source());
}

#[test]
fn test_sort_calendars_by_display_name() {
    let mk = |name: &str| CalendarInfo {
        uid: name.to_string(),
        display_name: name.to_string(),
        color: None,
        last_synced: None,
        backend: None,
    };
    let sorted = sort_calendars(vec![mk("Work"), mk("Home"), mk("Archive")]);
    let names: Vec<&str> = sorted.iter().map(|c| c.display_name.as_str()).collect();
    assert_eq!(names, vec!["Archive", "Home", "Work"]);
}

#[test]
fn test_revision_timestamp() {
    assert_eq!(revision_timestamp("2026-01-08T04:19:20Z(0)"), "2026-01-08T04:19:20Z");
    assert_eq!(revision_timestamp("plain"), "plain");
}

#[test]
fn test_query_window_and_range_query() {
    let (start, end) = query_window(NOW);
    assert_eq!(start, NOW - 1800);
    assert_eq!(end, NOW + 30 * 24 * 3600);
    let query = build_range_query(start, end).unwrap();
    assert_eq!(
        query,
        "(occur-in-time-range? (make-time \"20240531T233000Z\") (make-time \"20240701T000000Z\"))"
    );
}

#[test]
fn test_occurrence_uid_suffix() {
    let start = LocalTime {
        epoch: NOW,
        year: 2024,
        month: 6,
        day: 1,
        hour: 3,
        minute: 0,
        second: 0,
    };
    assert_eq!(occurrence_uid("rec-1", &start, true), "rec-1@20240601T030000");
    assert_eq!(occurrence_uid("rec-1", &start, false), "rec-1");
}

#[test]
fn test_wrap_vevent_envelope() {
    let wrapped = wrap_vevent("BEGIN:VEVENT\r\nUID:x\r\nEND:VEVENT");
    assert!(wrapped.starts_with("BEGIN:VCALENDAR\r\nVERSION:2.0\r\n"));
    assert!(wrapped.ends_with("\r\nEND:VCALENDAR"));
    let untouched = wrap_vevent("BEGIN:VCALENDAR\r\nEND:VCALENDAR");
    assert_eq!(untouched, "BEGIN:VCALENDAR\r\nEND:VCALENDAR");
}

#[test]
fn test_relative_time_parts() {
    assert_eq!(relative_time_parts(-1), None);
    assert_eq!(relative_time_parts(0), Some((0, 0, 0)));
    assert_eq!(relative_time_parts(2 * 1440 + 3 * 60 + 4), Some((2, 3, 4)));
    assert_eq!(relative_time_parts(59), Some((0, 0, 59)));
    assert_eq!(relative_time_parts(60), Some((0, 1, 0)));
}

fn meeting_at(start: i64, all_day: bool, status: AttendanceStatus) -> Meeting {
    let stamp = |epoch: i64| LocalTime {
        epoch,
        year: 2024,
        month: 6,
        day: 1,
        hour: 0,
        minute: 0,
        second: 0,
    };
    Meeting {
        uid: "m".to_string(),
        title: "m".to_string(),
        start: stamp(start),
        end: stamp(start + 3600),
        location: None,
        description: None,
        calendar_uid: "cal".to_string(),
        is_all_day: all_day,
        attendance_status: status,
    }
}

#[test]
fn test_filtered_meetings_policies() {
    let mut config = Config::default();
    config.show_all_day_events = false;
    config.show_in_progress = InProgressMeeting::Within5m;
    config.event_status_filter = EventStatusFilter::Accepted;

    let meetings = vec![
        meeting_at(NOW + 600, false, AttendanceStatus::Accepted), // kept
        meeting_at(NOW + 600, true, AttendanceStatus::Accepted), // all-day, dropped
        meeting_at(NOW - 240, false, AttendanceStatus::NoStatus), // started 4 min ago, kept
        meeting_at(NOW - 600, false, AttendanceStatus::Accepted), // started 10 min ago, dropped
        meeting_at(NOW + 600, false, AttendanceStatus::Declined), // declined, dropped
    ];
    let kept = filtered_meetings(meetings, &config, NOW);
    assert_eq!(kept.len(), 2);
    assert_eq!(kept[0].start.epoch, NOW + 600);
    assert_eq!(kept[1].start.epoch, NOW - 240);
}

#[test]
fn test_config_default_values() {
    let c = Config::default();
    assert!(!c.auto_refresh_enabled);
    assert_eq!(c.auto_refresh_interval_minutes, 10);
    assert!(c.enabled_calendar_uids.is_empty());
    assert_eq!(c.upcoming_events_count, 3);
    assert_eq!(c.meeting_url_patterns.len(), 6);
    assert_eq!(c.meeting_url_patterns[0], r"https://meet\.google\.com/[a-z-]+");
    assert!(c.show_all_day_events);
    assert!(c.additional_emails.is_empty());
}

#[test]
fn test_classify_attendance_first_match_decides() {
    // The first attendee matching the user decides; a missing
    // participation status on it reads as no attendance info, and later
    // entries no longer matter.
    let attendees = vec![
        Attendee {
            email: Some("user@example.com".to_string()),
            uri: None,
            partstat: None,
        },
        Attendee {
            email: Some("user@example.com".to_string()),
            uri: None,
            partstat: Some(PartStat::Accepted),
        },
    ];
    let emails = vec!["user@example.com".to_string()];
    assert_eq!(classify_attendance(&attendees, &emails), AttendanceStatus::NoStatus);
}

#[test]
fn test_build_range_query_out_of_range() {
    // A window bound beyond the calendar's range cannot be rendered.
    assert!(build_range_query(i64::MAX - 1, i64::MAX).is_none());
}

#[test]
fn test_collect_meetings_equal_starts() {
    // Two meetings sharing a start instant both survive sorting.
    let record_b = raw_single().replace("single-1", "single-2");
    let sources = vec![SourceRecords {
        uid: "cal-1".to_string(),
        cal_email: None,
        records: vec![raw_single(), record_b],
    }];
    let meetings = collect_meetings(sources, &vec![], &vec![], 10, NOW, NOW - 1800, "UTC");
    assert_eq!(meetings.len(), 2);
    assert_eq!(meetings[0].start.epoch, meetings[1].start.epoch);
    let mut uids: Vec<&str> = meetings.iter().map(|m| m.uid.as_str()).collect();
    uids.sort();
    assert_eq!(uids, vec!["single-1", "single-2"]);
}

#[test]
fn test_parse_event_properties() {
    let raw = "BEGIN:VEVENT\r\nUID:ev-1\r\nSUMMARY:Review\r\nLOCATION:Room 4\r\nDESCRIPTION:Notes\r\nDTSTART:20240601T010000Z\r\nDTEND:20240601T020000Z\r\nRRULE:FREQ=WEEKLY\r\nATTENDEE;PARTSTAT=ACCEPTED;EMAIL=user@example.com:mailto:user@example.com\r\nEND:VEVENT";
    let props = meeting_engine::parse_event(raw).unwrap();
    assert_eq!(props.uid.as_deref(), Some("ev-1"));
    assert_eq!(props.summary.as_deref(), Some("Review"));
    assert_eq!(props.location.as_deref(), Some("Room 4"));
    assert_eq!(props.description.as_deref(), Some("Notes"));
    assert!(props.has_rrule);
    assert!(!props.is_all_day);
    assert_eq!(props.attendees.len(), 1);
    assert_eq!(props.attendees[0].email.as_deref(), Some("user@example.com"));
    assert_eq!(props.attendees[0].partstat, Some(PartStat::Accepted));

    assert!(meeting_engine::parse_event("not a record").is_none());
}

#[test]
fn test_enabled_meeting_source_uids_policies() {
    let mk = |uid: &str, backend: &str| CalendarInfo {
        uid: uid.to_string(),
        display_name: uid.to_string(),
        color: None,
        last_synced: None,
        backend: Some(backend.to_string()),
    };
    let available = vec![mk("a", "caldav"), mk("b", "contacts"), mk("c", "local")];

    // No discovery data yet: the configured list stands as-is.
    let fallback = meeting_engine::enabled_meeting_source_uids(&vec![], &vec!["x".to_string()]);
    assert_eq!(fallback, vec!["x".to_string()]);

    // Empty configured list: every meeting source is enabled.
    let all = meeting_engine::enabled_meeting_source_uids(&available, &vec![]);
    assert_eq!(all, vec!["a".to_string(), "c".to_string()]);

    // Configured uids are kept only when they name meeting sources.
    let some = meeting_engine::enabled_meeting_source_uids(
        &available,
        &vec!["b".to_string(), "c".to_string(), "ghost".to_string()],
    );
    assert_eq!(some, vec!["c".to_string()]);
}

#[test]
fn test_collect_meetings_limit_floor() {
    // limit=0 still returns the single next meeting.
    let sources = vec![SourceRecords {
        uid: "cal-1".to_string(),
        cal_email: None,
        records: vec![raw_single(), raw_recurring()],
    }];
    let meetings = collect_meetings(sources, &vec![], &vec![], 0, NOW, NOW - 1800, "UTC");
    assert_eq!(meetings.len(), 1);
    assert_eq!(meetings[0].uid, "single-1");
}
