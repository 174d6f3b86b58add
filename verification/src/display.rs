//! Presentation-side policy on engine output: which meetings the user's
//! preferences keep, which sources are enabled, and small pure helpers
//! behind time and color formatting.

use vstd::prelude::*;

use crate::config::{Config, EventStatusFilter, InProgressMeeting};
use crate::model::{AttendanceStatus, CalendarInfo, Meeting};

verus! {

/// Whether an already-started meeting is still shown under the given
/// policy, by how many whole minutes ago it started.
pub open spec fn spec_in_progress_keep(policy: InProgressMeeting, minutes_since: int) -> bool {
    match policy {
        InProgressMeeting::Off => false,
        InProgressMeeting::Within5m => minutes_since <= 5,
        InProgressMeeting::Within10m => minutes_since <= 10,
        InProgressMeeting::Within15m => minutes_since <= 15,
        InProgressMeeting::Within30m => minutes_since <= 30,
    }
}

/// Whether a meeting's attendance status passes the status filter.
/// Meetings without attendance info always pass: personal events carry no
/// `ATTENDEE` entry for the user.
pub open spec fn spec_status_keep(f: EventStatusFilter, s: AttendanceStatus) -> bool {
    match f {
        EventStatusFilter::All => true,
        EventStatusFilter::Accepted => s == AttendanceStatus::Accepted || s
            == AttendanceStatus::NoStatus,
        EventStatusFilter::AcceptedOrTentative => s == AttendanceStatus::Accepted || s
            == AttendanceStatus::Tentative || s == AttendanceStatus::NoStatus,
    }
}

/// Whether the user's preferences keep this meeting on screen.
pub open spec fn spec_display_keep(m: Meeting, c: Config, now: i64) -> bool {
    &&& (c.show_all_day_events || !m.is_all_day)
    &&& (m.start.epoch <= now ==> spec_in_progress_keep(
        c.show_in_progress,
        (now - m.start.epoch) / 60,
    ))
    &&& spec_status_keep(c.event_status_filter, m.attendance_status)
}

/// The meetings the display policy keeps, in order.
pub open spec fn spec_filter_displayed(s: Seq<Meeting>, c: Config, now: i64) -> Seq<Meeting>
    decreases s.len(),
{
    if s.len() == 0 {
        s
    } else {
        let rest = spec_filter_displayed(s.drop_first(), c, now);
        if spec_display_keep(s[0], c, now) {
            seq![s[0]] + rest
        } else {
            rest
        }
    }
}

fn display_keep(m: &Meeting, config: &Config, now: i64) -> (r: bool)
    ensures
        r == spec_display_keep(*m, *config, now),
{
    if !config.show_all_day_events && m.is_all_day {
        return false;
    }
    if m.start.epoch <= now {
        let diff: i128 = (now as i128) - (m.start.epoch as i128);
        let minutes: i128 = diff / 60;
        let keep = match config.show_in_progress {
            InProgressMeeting::Off => false,
            InProgressMeeting::Within5m => minutes <= 5,
            InProgressMeeting::Within10m => minutes <= 10,
            InProgressMeeting::Within15m => minutes <= 15,
            InProgressMeeting::Within30m => minutes <= 30,
        };
        if !keep {
            return false;
        }
    }
    match config.event_status_filter {
        EventStatusFilter::All => true,
        EventStatusFilter::Accepted => matches!(
            m.attendance_status,
            AttendanceStatus::Accepted | AttendanceStatus::NoStatus
        ),
        EventStatusFilter::AcceptedOrTentative => matches!(
            m.attendance_status,
            AttendanceStatus::Accepted | AttendanceStatus::Tentative | AttendanceStatus::NoStatus
        ),
    }
}

/// Apply the user's display preferences to the upcoming-meetings list:
/// drop all-day events when they are hidden, in-progress meetings older
/// than the policy allows, and meetings whose attendance status the
/// filter excludes.
pub fn filtered_meetings(meetings: Vec<Meeting>, config: &Config, now: i64) -> (r: Vec<Meeting>)
    ensures
        r@ == spec_filter_displayed(meetings@, *config, now),
{
    let ghost all = meetings@;
    let mut src = meetings;
    let mut out: Vec<Meeting> = Vec::new();
    proof {
        assert(out@ + spec_filter_displayed(all, *config, now) =~= spec_filter_displayed(
            all,
            *config,
            now,
        ));
    }
    while src.len() > 0
        invariant
            out@ + spec_filter_displayed(src@, *config, now) == spec_filter_displayed(
                all,
                *config,
                now,
            ),
        decreases src.len(),
    {
        let ghost src0 = src@;
        let m = src.remove(0);
        proof {
            assert(src@ =~= src0.drop_first());
            assert(m == src0[0]);
        }
        let ghost out0 = out@;
        if display_keep(&m, config, now) {
            out.push(m);
            proof {
                assert(out@ =~= out0 + seq![src0[0]]);
                assert(out@ + spec_filter_displayed(src@, *config, now) =~= out0
                    + spec_filter_displayed(src0, *config, now));
            }
        } else {
            proof {
                assert(out@ + spec_filter_displayed(src@, *config, now) =~= out0
                    + spec_filter_displayed(src0, *config, now));
            }
        }
    }
    proof {
        assert(spec_filter_displayed(src@, *config, now) =~= Seq::<Meeting>::empty());
        assert(out@ + Seq::<Meeting>::empty() =~= out@);
    }
    out
}

/// The first calendar with the given uid.
pub open spec fn spec_find_info(available: Seq<CalendarInfo>, uid: Seq<char>) -> Option<
    CalendarInfo,
>
    decreases available.len(),
{
    if available.len() == 0 {
        None
    } else if available[0].uid@ == uid {
        Some(available[0])
    } else {
        spec_find_info(available.drop_first(), uid)
    }
}

/// Whether the uid names a known meeting source.
pub open spec fn spec_known_meeting_source(available: Seq<CalendarInfo>, uid: Seq<char>) -> bool {
    match spec_find_info(available, uid) {
        Some(c) => c.spec_is_meeting_source(),
        None => false,
    }
}

/// The uids of the meeting sources, in order.
pub open spec fn spec_meeting_source_uids(available: Seq<CalendarInfo>) -> Seq<String>
    decreases available.len(),
{
    if available.len() == 0 {
        Seq::empty()
    } else {
        let rest = spec_meeting_source_uids(available.drop_first());
        if available[0].spec_is_meeting_source() {
            seq![available[0].uid] + rest
        } else {
            rest
        }
    }
}

/// The enabled uids that name known meeting sources, in order.
pub open spec fn spec_enabled_known_sources(
    enabled: Seq<String>,
    available: Seq<CalendarInfo>,
) -> Seq<String>
    decreases enabled.len(),
{
    if enabled.len() == 0 {
        Seq::empty()
    } else {
        let rest = spec_enabled_known_sources(enabled.drop_first(), available);
        if spec_known_meeting_source(available, enabled[0]@) {
            seq![enabled[0]] + rest
        } else {
            rest
        }
    }
}

/// What `enabled_meeting_source_uids` returns: with no discovery data the
/// configured list stands as-is; with an empty configured list every
/// meeting source is enabled; otherwise the configured uids that name
/// meeting sources.
pub open spec fn spec_enabled_meeting_sources(
    available: Seq<CalendarInfo>,
    enabled: Seq<String>,
) -> Seq<String> {
    if available.len() == 0 {
        enabled
    } else if enabled.len() == 0 {
        spec_meeting_source_uids(available)
    } else {
        spec_enabled_known_sources(enabled, available)
    }
}

fn find_is_meeting_source(available: &Vec<CalendarInfo>, uid: &String) -> (r: bool)
    ensures
        r == spec_known_meeting_source(available@, uid@),
{
    proof {
        assert(available@.skip(0) =~= available@);
    }
    let mut i: usize = 0;
    while i < available.len()
        invariant
            i <= available.len(),
            spec_find_info(available@.skip(i as int), uid@) == spec_find_info(available@, uid@),
        decreases available.len() - i,
    {
        let ghost cur = available@.skip(i as int);
        proof {
            assert(cur[0] == available@[i as int]);
            assert(cur.drop_first() =~= available@.skip(i as int + 1));
        }
        if available[i].uid.eq(uid) {
            return available[i].is_meeting_source();
        }
        i += 1;
    }
    proof {
        assert(available@.skip(available@.len() as int) =~= Seq::<CalendarInfo>::empty());
    }
    false
}

/// The calendar uids that meeting queries should cover, given the
/// discovered sources and the user's enabled list.
pub fn enabled_meeting_source_uids(available: &Vec<CalendarInfo>, enabled: &Vec<String>) -> (r: Vec<
    String,
>)
    ensures
        r@ == spec_enabled_meeting_sources(available@, enabled@),
{
    if available.len() == 0 {
        let mut out: Vec<String> = Vec::new();
        let mut i: usize = 0;
        while i < enabled.len()
            invariant
                i <= enabled.len(),
                out@ =~= enabled@.take(i as int),
            decreases enabled.len() - i,
        {
            out.push(enabled[i].clone());
            i += 1;
            proof {
                assert(out@ =~= enabled@.take(i as int));
            }
        }
        proof {
            assert(enabled@.take(enabled@.len() as int) =~= enabled@);
        }
        return out;
    }
    if enabled.len() == 0 {
        let mut out: Vec<String> = Vec::new();
        proof {
            assert(available@.skip(0) =~= available@);
            assert(out@ + spec_meeting_source_uids(available@) =~= spec_meeting_source_uids(
                available@,
            ));
        }
        let mut i: usize = 0;
        while i < available.len()
            invariant
                i <= available.len(),
                out@ + spec_meeting_source_uids(available@.skip(i as int))
                    == spec_meeting_source_uids(available@),
            decreases available.len() - i,
        {
            let ghost cur = available@.skip(i as int);
            proof {
                assert(cur[0] == available@[i as int]);
                assert(cur.drop_first() =~= available@.skip(i as int + 1));
            }
            let ghost out0 = out@;
            if available[i].is_meeting_source() {
                out.push(available[i].uid.clone());
                proof {
                    assert(out@ =~= out0 + seq![available@[i as int].uid]);
                    assert(out@ + spec_meeting_source_uids(available@.skip(i as int + 1)) =~= out0
                        + spec_meeting_source_uids(cur));
                }
            } else {
                proof {
                    assert(out@ + spec_meeting_source_uids(available@.skip(i as int + 1)) =~= out0
                        + spec_meeting_source_uids(cur));
                }
            }
            i += 1;
        }
        proof {
            assert(available@.skip(available@.len() as int) =~= Seq::<CalendarInfo>::empty());
            assert(out@ + Seq::<String>::empty() =~= out@);
        }
        return out;
    }
    let mut out: Vec<String> = Vec::new();
    proof {
        assert(enabled@.skip(0) =~= enabled@);
        assert(out@ + spec_enabled_known_sources(enabled@, available@)
            =~= spec_enabled_known_sources(enabled@, available@));
    }
    let mut i: usize = 0;
    while i < enabled.len()
        invariant
            i <= enabled.len(),
            out@ + spec_enabled_known_sources(enabled@.skip(i as int), available@)
                == spec_enabled_known_sources(enabled@, available@),
        decreases enabled.len() - i,
    {
        let ghost cur = enabled@.skip(i as int);
        proof {
            assert(cur[0] == enabled@[i as int]);
            assert(cur.drop_first() =~= enabled@.skip(i as int + 1));
        }
        let ghost out0 = out@;
        if find_is_meeting_source(available, &enabled[i]) {
            out.push(enabled[i].clone());
            proof {
                assert(out@ =~= out0 + seq![enabled@[i as int]]);
                assert(out@ + spec_enabled_known_sources(enabled@.skip(i as int + 1), available@)
                    =~= out0 + spec_enabled_known_sources(cur, available@));
            }
        } else {
            proof {
                assert(out@ + spec_enabled_known_sources(enabled@.skip(i as int + 1), available@)
                    =~= out0 + spec_enabled_known_sources(cur, available@));
            }
        }
        i += 1;
    }
    proof {
        assert(enabled@.skip(enabled@.len() as int) =~= Seq::<String>::empty());
        assert(out@ + Seq::<String>::empty() =~= out@);
    }
    out
}

/// Break a non-negative span of minutes into days, hours within the day,
/// and minutes within the hour, for relative-time display; a negative
/// span yields `None` (the event is already due).
pub fn relative_time_parts(total_minutes: i64) -> (r: Option<(i64, i64, i64)>)
    ensures
        match r {
            Some(p) => total_minutes >= 0 && p.0 == total_minutes / 1440 && p.1 == (total_minutes
                % 1440) / 60 && p.2 == total_minutes % 60,
            None => total_minutes < 0,
        },
{
    if total_minutes < 0 {
        return None;
    }
    let days = total_minutes / 1440;
    let hours = (total_minutes % 1440) / 60;
    let minutes = total_minutes % 60;
    Some((days, hours, minutes))
}

/// The value of one hexadecimal digit.
pub open spec fn hex_val(c: char) -> Option<int> {
    let u = c as u32;
    if 48 <= u && u <= 57 {
        Some((u - 48) as int)
    } else if 97 <= u && u <= 102 {
        Some((u - 87) as int)
    } else if 65 <= u && u <= 70 {
        Some((u - 55) as int)
    } else {
        None
    }
}

/// The byte written by two hex digits.
pub open spec fn hex_byte(a: char, b: char) -> Option<int> {
    match (hex_val(a), hex_val(b)) {
        (Some(x), Some(y)) => Some(16 * x + y),
        _ => None,
    }
}

/// `s` with every leading `'#'` removed.
pub open spec fn strip_hashes(s: Seq<char>) -> Seq<char>
    decreases s.len(),
{
    if s.len() > 0 && s[0] == '#' {
        strip_hashes(s.drop_first())
    } else {
        s
    }
}

/// What `parse_hex_color` returns: the three RGB bytes of a six-digit hex
/// color, after an optional leading `'#'`.
pub open spec fn spec_parse_hex_color(s: Seq<char>) -> Option<(int, int, int)> {
    let h = strip_hashes(s);
    if h.len() != 6 {
        None
    } else {
        match (hex_byte(h[0], h[1]), hex_byte(h[2], h[3]), hex_byte(h[4], h[5])) {
            (Some(r), Some(g), Some(b)) => Some((r, g, b)),
            _ => None,
        }
    }
}

fn hex_val_exec(c: char) -> (r: Option<u8>)
    ensures
        match r {
            Some(v) => hex_val(c) == Some(v as int) && v < 16,
            None => hex_val(c) is None,
        },
{
    let u = c as u32;
    if 48 <= u && u <= 57 {
        Some((u - 48) as u8)
    } else if 97 <= u && u <= 102 {
        Some((u - 87) as u8)
    } else if 65 <= u && u <= 70 {
        Some((u - 55) as u8)
    } else {
        None
    }
}

/// Parse a hex color string such as `#62a0ea` into its RGB bytes.
pub fn parse_hex_color(hex: &str) -> (r: Option<(u8, u8, u8)>)
    ensures
        match r {
            Some(p) => spec_parse_hex_color(hex@) == Some((p.0 as int, p.1 as int, p.2 as int)),
            None => spec_parse_hex_color(hex@) is None,
        },
{
    let v = crate::text::chars_of(hex);
    proof {
        assert(v@.skip(0) =~= v@);
    }
    let mut lo: usize = 0;
    while lo < v.len() && v[lo] == '#'
        invariant
            lo <= v.len(),
            strip_hashes(v@.skip(lo as int)) == strip_hashes(v@),
            v@ == hex@,
        decreases v.len() - lo,
    {
        proof {
            assert(v@.skip(lo as int).drop_first() =~= v@.skip(lo as int + 1));
        }
        lo += 1;
    }
    let ghost h = strip_hashes(hex@);
    proof {
        if lo < v.len() {
            assert(v@.skip(lo as int)[0] != '#');
        }
        assert(strip_hashes(v@.skip(lo as int)) == v@.skip(lo as int));
        assert(h == v@.skip(lo as int));
    }
    if v.len() - lo != 6 {
        return None;
    }
    proof {
        assert(h.len() == 6);
        assert forall|k: int| 0 <= k < 6 implies h[k] == v@[lo + k] by {}
    }
    let d0 = hex_val_exec(v[lo]);
    let d1 = hex_val_exec(v[lo + 1]);
    let d2 = hex_val_exec(v[lo + 2]);
    let d3 = hex_val_exec(v[lo + 3]);
    let d4 = hex_val_exec(v[lo + 4]);
    let d5 = hex_val_exec(v[lo + 5]);
    match (d0, d1, d2, d3, d4, d5) {
        (Some(a), Some(b), Some(c), Some(d), Some(e), Some(f)) => Some(
            (16 * a + b, 16 * c + d, 16 * e + f),
        ),
        _ => None,
    }
}

} // verus!
