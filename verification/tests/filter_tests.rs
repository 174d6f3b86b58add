//! Tests for the time-based inclusion policy.

use meeting_engine::should_include_meeting;

#[test]
fn test_should_include_meeting_future() {
    let now = chrono::Local::now().timestamp();
    let query_start = now - 30 * 60;
    let start = now + 60 * 60;
    let end = start + 60 * 60;

    assert!(should_include_meeting(start, end, now, query_start));
}

#[test]
fn test_should_include_meeting_past() {
    let now = chrono::Local::now().timestamp();
    let query_start = now - 30 * 60;
    let start = now - 2 * 60 * 60;
    let end = now - 60 * 60;

    // Meeting ended in the past - should not be included
    assert!(!should_include_meeting(start, end, now, query_start));
}

#[test]
fn test_should_include_meeting_in_progress() {
    let now = chrono::Local::now().timestamp();
    let query_start = now - 30 * 60;
    let start = now - 15 * 60; // Started 15 min ago (within 30 min window)
    let end = now + 45 * 60; // Ends in 45 min

    assert!(should_include_meeting(start, end, now, query_start));
}

#[test]
fn test_should_include_meeting_in_progress_but_too_old() {
    let now = chrono::Local::now().timestamp();
    let query_start = now - 30 * 60;
    let start = now - 60 * 60; // Started 1 hour ago (outside 30 min window)
    let end = now + 30 * 60; // Still ongoing

    // Started before query_start, so should not be included
    assert!(!should_include_meeting(start, end, now, query_start));
}

#[test]
fn test_should_include_meeting_invalid_end_before_start() {
    let now = chrono::Local::now().timestamp();
    let query_start = now - 30 * 60;
    let start = now + 60 * 60;
    let end = start - 2 * 60 * 60; // End before start - invalid

    // Invalid meeting should not be included
    assert!(!should_include_meeting(start, end, now, query_start));
}

#[test]
fn test_should_include_meeting_just_ended() {
    let now = chrono::Local::now().timestamp();
    let query_start = now - 30 * 60;
    let start = now - 15 * 60;
    let end = now - 1; // Just ended

    // Meeting has ended - should not be included
    assert!(!should_include_meeting(start, end, now, query_start));
}

#[test]
fn test_should_include_meeting_starting_now() {
    let now = chrono::Local::now().timestamp();
    let query_start = now - 30 * 60;
    let start = now; // Starting exactly now
    let end = now + 60 * 60;

    // start <= now but start > query_start, end > now, so in-progress
    assert!(should_include_meeting(start, end, now, query_start));
}

#[test]
fn test_should_include_meeting_ending_exactly_now() {
    let now = chrono::Local::now().timestamp();
    let query_start = now - 30 * 60;
    let start = now - 10 * 60;
    let end = now; // Ends exactly now - excluded

    assert!(!should_include_meeting(start, end, now, query_start));
}

#[test]
fn test_should_include_meeting_starting_at_query_start() {
    let now = chrono::Local::now().timestamp();
    let query_start = now - 30 * 60;
    let start = query_start; // Exactly at the window edge - excluded (strict >)
    let end = now + 60 * 60;

    assert!(!should_include_meeting(start, end, now, query_start));
}
