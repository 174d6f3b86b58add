//! Time-based inclusion policy for meetings.
//!
//! Instants are Unix timestamps in seconds. A meeting is shown when it is
//! still ahead of the user, or when it is already running but started inside
//! the fetch window.

use vstd::prelude::*;

verus! {

/// The inclusion policy: a meeting qualifies when it is well-formed
/// (`start < end`) and either lies in the future or is in progress and
/// started after the window opened at `query_start`.
pub open spec fn spec_should_include(
    start: i64,
    end: i64,
    now: i64,
    query_start: i64,
) -> bool {
    start < end && (start > now || (start <= now && start > query_start && end > now))
}

/// Determine whether a meeting should be included based on its timing.
///
/// Returns true when the meeting is either:
/// - future (starts after `now`), or
/// - in progress (started within the query window and has not ended yet).
///
/// Also validates that `start < end`; malformed meetings are excluded.
pub fn should_include_meeting(start: i64, end: i64, now: i64, query_start: i64) -> (r: bool)
    ensures
        r == spec_should_include(start, end, now, query_start),
{
    let is_future = start > now;
    let is_in_progress = start <= now && start > query_start && end > now;
    (is_future || is_in_progress) && start < end
}

/// The resume watcher's decision: only the wake transition of the
/// sleep/wake signal triggers a re-fetch, never the sleep transition.
pub fn resume_should_notify(going_to_sleep: bool) -> (r: bool)
    ensures
        r == !going_to_sleep,
{
    !going_to_sleep
}

} // verus!
