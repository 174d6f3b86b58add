//! Parsing of iCalendar date-time values and conversion between naive
//! wall-clock fields and instants.
//!
//! The calendar arithmetic itself (what instant a wall-clock time in a
//! given zone denotes) is done by the timezone database; this module
//! verifies everything around it: value syntax, field validation, and the
//! choice of interpretation tier.

use vstd::prelude::*;

use chrono::{Datelike, TimeZone, Timelike};

use crate::model::LocalTime;
use crate::text::{
    all_digits, chars_of, digits_value, lower_seq, parse_digits, spec_trim, string_from_chars,
    sub_chars, trim_chars,
};
use crate::timezone::{iana_zone, parse_ical_timezone, spec_resolve_timezone};

verus! {

/// The instant (Unix seconds) that the given wall-clock fields denote in
/// the named zone; `None` when the zone name is unknown, the fields fall
/// in a DST gap, or they are ambiguous. A function of its arguments alone:
/// the timezone database is compiled into the crate.
pub uninterp spec fn zone_epoch(
    zone: Seq<char>,
    y: int,
    mo: int,
    d: int,
    h: int,
    mi: int,
    s: int,
) -> Option<int>;

/// Relies on `chrono_tz::Tz::from_str`, `chrono::TimeZone::with_ymd_and_hms`
/// and `DateTime::timestamp`: the unique instant with those wall-clock
/// fields in that zone.
#[verifier::external_body]
fn zone_naive_to_epoch(zone: &str, y: i32, mo: u8, d: u8, h: u8, mi: u8, s: u8) -> (r: Option<
    i64,
>)
    ensures
        match r {
            Some(e) => zone_epoch(zone@, y as int, mo as int, d as int, h as int, mi as int, s as int)
                == Some(e as int),
            None => zone_epoch(zone@, y as int, mo as int, d as int, h as int, mi as int, s as int)
                is None,
        },
{
    let tz: chrono_tz::Tz = zone.parse().ok()?;
    tz.with_ymd_and_hms(y, mo as u32, d as u32, h as u32, mi as u32, s as u32)
        .single()
        .map(|dt| dt.timestamp())
}

/// The wall-clock rendering of an instant in the named zone; `None` when
/// the zone name is unknown or the instant is out of the calendar's range.
/// A function of its arguments alone.
pub uninterp spec fn zone_wall(zone: Seq<char>, epoch: int) -> Option<LocalTime>;

/// Relies on `chrono_tz::Tz::from_str`, `chrono::TimeZone::timestamp_opt`
/// and the `Datelike`/`Timelike` accessors, whose ranges chrono documents
/// (month 1-12, day 1-31, hour 0-23, minute and second 0-59).
#[verifier::external_body]
pub(crate) fn epoch_to_zone_wall(zone: &str, epoch: i64) -> (r: Option<LocalTime>)
    ensures
        match r {
            Some(t) => zone_wall(zone@, epoch as int) == Some(t) && t.epoch == epoch && t.wf(),
            None => zone_wall(zone@, epoch as int) is None,
        },
{
    let tz: chrono_tz::Tz = zone.parse().ok()?;
    let dt = tz.timestamp_opt(epoch, 0).single()?;
    Some(
        LocalTime {
            epoch,
            year: dt.year(),
            month: dt.month() as u8,
            day: dt.day() as u8,
            hour: dt.hour() as u8,
            minute: dt.minute() as u8,
            second: dt.second() as u8,
        },
    )
}

/// Relies on `localzone::get_local_zone`: the machine's IANA zone name, an
/// environment-dependent value of which nothing is assumed.
#[verifier::external_body]
fn local_zone_name() -> Option<String> {
    localzone::get_local_zone()
}

/// The zone all meetings are rendered in: the machine's local zone when it
/// can be found and resolved, `UTC` otherwise.
pub fn display_zone() -> (r: String)
    ensures
        iana_zone(lower_seq(r@)) is Some || r@ == "UTC"@,
{
    match local_zone_name() {
        Some(name) => match crate::timezone::resolve_iana_name(name.as_str()) {
            Some(resolved) => {
                if crate::timezone::iana_known(resolved.as_str()) {
                    resolved
                } else {
                    String::from_str("UTC")
                }
            },
            None => String::from_str("UTC"),
        },
        None => String::from_str("UTC"),
    }
}

/// Whether a year is a leap year in the Gregorian calendar.
pub open spec fn is_leap_year(y: int) -> bool {
    y % 4 == 0 && (y % 100 != 0 || y % 400 == 0)
}

pub open spec fn days_in_month(y: int, m: int) -> int {
    if m == 2 {
        if is_leap_year(y) {
            29
        } else {
            28
        }
    } else if m == 4 || m == 6 || m == 9 || m == 11 {
        30
    } else {
        31
    }
}

/// Wall-clock fields that name a real calendar date and time.
pub open spec fn valid_fields(y: int, mo: int, d: int, h: int, mi: int, s: int) -> bool {
    &&& 0 <= y <= 9999
    &&& 1 <= mo <= 12
    &&& 1 <= d <= days_in_month(y, mo)
    &&& 0 <= h < 24
    &&& 0 <= mi < 60
    &&& 0 <= s < 60
}

/// The fields written by a compact `YYYYMMDDTHHMMSS` value; `None` when
/// the text is not of that shape or the fields are invalid.
pub open spec fn spec_compact_datetime(v: Seq<char>) -> Option<(int, int, int, int, int, int)> {
    if v.len() == 15 && v[8] == 'T' && all_digits(v.subrange(0, 4)) && all_digits(
        v.subrange(4, 6),
    ) && all_digits(v.subrange(6, 8)) && all_digits(v.subrange(9, 11)) && all_digits(
        v.subrange(11, 13),
    ) && all_digits(v.subrange(13, 15)) {
        let y = digits_value(v.subrange(0, 4));
        let mo = digits_value(v.subrange(4, 6));
        let d = digits_value(v.subrange(6, 8));
        let h = digits_value(v.subrange(9, 11));
        let mi = digits_value(v.subrange(11, 13));
        let s = digits_value(v.subrange(13, 15));
        if valid_fields(y, mo, d, h, mi, s) {
            Some((y, mo, d, h, mi, s))
        } else {
            None
        }
    } else {
        None
    }
}

/// The fields written by a compact `YYYYMMDD` date; the time is midnight.
pub open spec fn spec_compact_date(v: Seq<char>) -> Option<(int, int, int, int, int, int)> {
    if v.len() == 8 && all_digits(v.subrange(0, 4)) && all_digits(v.subrange(4, 6)) && all_digits(
        v.subrange(6, 8),
    ) {
        let y = digits_value(v.subrange(0, 4));
        let mo = digits_value(v.subrange(4, 6));
        let d = digits_value(v.subrange(6, 8));
        if valid_fields(y, mo, d, 0, 0, 0) {
            Some((y, mo, d, 0, 0, 0))
        } else {
            None
        }
    } else {
        None
    }
}

fn days_in_month_exec(y: i32, m: u8) -> (r: u8)
    ensures
        r == days_in_month(y as int, m as int),
{
    if m == 2 {
        if (y % 4 == 0) && (y % 100 != 0 || y % 400 == 0) {
            29
        } else {
            28
        }
    } else if m == 4 || m == 6 || m == 9 || m == 11 {
        30
    } else {
        31
    }
}

/// Parse a compact `YYYYMMDDTHHMMSS` value into validated fields.
fn parse_compact_datetime(v: &Vec<char>) -> (r: Option<(i32, u8, u8, u8, u8, u8)>)
    ensures
        match r {
            Some(t) => spec_compact_datetime(v@) == Some(
                (t.0 as int, t.1 as int, t.2 as int, t.3 as int, t.4 as int, t.5 as int),
            ),
            None => spec_compact_datetime(v@) is None,
        },
{
    if v.len() != 15 {
        return None;
    }
    if v[8] != 'T' {
        return None;
    }
    let y = match parse_digits(v, 0, 4) {
        Some(x) => x,
        None => {
            return None;
        },
    };
    let mo = match parse_digits(v, 4, 2) {
        Some(x) => x,
        None => {
            return None;
        },
    };
    let d = match parse_digits(v, 6, 2) {
        Some(x) => x,
        None => {
            return None;
        },
    };
    let h = match parse_digits(v, 9, 2) {
        Some(x) => x,
        None => {
            return None;
        },
    };
    let mi = match parse_digits(v, 11, 2) {
        Some(x) => x,
        None => {
            return None;
        },
    };
    let s = match parse_digits(v, 13, 2) {
        Some(x) => x,
        None => {
            return None;
        },
    };
    proof {
        crate::text::lemma_digits_value_bound(v@.subrange(0, 4));
        crate::text::lemma_digits_value_bound(v@.subrange(4, 6));
        crate::text::lemma_digits_value_bound(v@.subrange(6, 8));
        crate::text::lemma_digits_value_bound(v@.subrange(9, 11));
        crate::text::lemma_digits_value_bound(v@.subrange(11, 13));
        crate::text::lemma_digits_value_bound(v@.subrange(13, 15));
        reveal_with_fuel(crate::text::pow10, 5);
    }
    let yy = y as i32;
    let dm = days_in_month_exec(yy, mo as u8);
    if !(1 <= mo && mo <= 12 && 1 <= d && d as u8 <= dm && h < 24 && mi < 60 && s < 60) {
        return None;
    }
    Some((yy, mo as u8, d as u8, h as u8, mi as u8, s as u8))
}

/// Parse a compact `YYYYMMDD` date into validated fields at midnight.
fn parse_compact_date(v: &Vec<char>) -> (r: Option<(i32, u8, u8)>)
    ensures
        match r {
            Some(t) => spec_compact_date(v@) == Some(
                (t.0 as int, t.1 as int, t.2 as int, 0int, 0int, 0int),
            ),
            None => spec_compact_date(v@) is None,
        },
{
    if v.len() != 8 {
        return None;
    }
    let y = match parse_digits(v, 0, 4) {
        Some(x) => x,
        None => {
            return None;
        },
    };
    let mo = match parse_digits(v, 4, 2) {
        Some(x) => x,
        None => {
            return None;
        },
    };
    let d = match parse_digits(v, 6, 2) {
        Some(x) => x,
        None => {
            return None;
        },
    };
    proof {
        crate::text::lemma_digits_value_bound(v@.subrange(0, 4));
        crate::text::lemma_digits_value_bound(v@.subrange(4, 6));
        crate::text::lemma_digits_value_bound(v@.subrange(6, 8));
        reveal_with_fuel(crate::text::pow10, 5);
    }
    let yy = y as i32;
    let dm = days_in_month_exec(yy, mo as u8);
    if !(1 <= mo && mo <= 12 && 1 <= d && d as u8 <= dm) {
        return None;
    }
    Some((yy, mo as u8, d as u8))
}

/// The suffix of `s` after its last `':'`; all of `s` when it has none.
pub open spec fn after_last_colon(s: Seq<char>) -> Seq<char>
    decreases s.len(),
{
    if s.len() == 0 {
        s
    } else if s.last() == ':' {
        Seq::empty()
    } else {
        after_last_colon(s.drop_last()).push(s.last())
    }
}

proof fn lemma_after_last_colon_no_colon(s: Seq<char>)
    requires
        forall|i: int| 0 <= i < s.len() ==> s[i] != ':',
    ensures
        after_last_colon(s) == s,
    decreases s.len(),
{
    if s.len() > 0 {
        lemma_after_last_colon_no_colon(s.drop_last());
        assert(s.drop_last().push(s.last()) =~= s);
    }
}

proof fn lemma_after_last_colon_at(s: Seq<char>, i: int)
    requires
        0 <= i < s.len(),
        s[i] == ':',
        forall|j: int| i < j < s.len() ==> s[j] != ':',
    ensures
        after_last_colon(s) == s.skip(i + 1),
    decreases s.len(),
{
    if i == s.len() - 1 {
        assert(s.last() == ':');
        assert(s.skip(i + 1) =~= Seq::<char>::empty());
    } else {
        assert(s.last() != ':');
        lemma_after_last_colon_at(s.drop_last(), i);
        assert(s.drop_last().skip(i + 1).push(s.last()) =~= s.skip(i + 1));
    }
}

/// Take the part of an iCalendar value after any embedded parameters: the
/// suffix after the last colon.
fn after_last_colon_exec(v: &Vec<char>) -> (r: Vec<char>)
    ensures
        r@ == after_last_colon(v@),
{
    let mut i: usize = v.len();
    while i > 0
        invariant
            i <= v.len(),
            forall|j: int| i <= j < v.len() ==> v@[j] != ':',
        decreases i,
    {
        if v[i - 1] == ':' {
            let r = sub_chars(v, i, v.len());
            proof {
                lemma_after_last_colon_at(v@, i - 1);
            }
            return r;
        }
        i -= 1;
    }
    let r = sub_chars(v, 0, v.len());
    proof {
        lemma_after_last_colon_no_colon(v@);
        assert(v@.subrange(0, v@.len() as int) =~= v@);
    }
    r
}

/// The interpretation of validated fields in a zone, rendered in the
/// display zone.
pub open spec fn interp_in_zone(
    zone: Seq<char>,
    disp: Seq<char>,
    f: (int, int, int, int, int, int),
) -> Option<LocalTime> {
    match zone_epoch(zone, f.0, f.1, f.2, f.3, f.4, f.5) {
        Some(e) => zone_wall(disp, e),
        None => None,
    }
}

/// What parsing an iCalendar date-time value yields, given the display
/// zone `disp`: a compact UTC value with a `Z` suffix; else a compact
/// value read in the `TZID` parameter's zone when that resolves, in the
/// display zone otherwise; else a bare date at local midnight. Embedded
/// parameters before a colon are skipped first.
pub open spec fn spec_parse_ical_datetime(
    value: Seq<char>,
    tzid: Option<Seq<char>>,
    disp: Seq<char>,
) -> Option<LocalTime> {
    let v = spec_trim(after_last_colon(value));
    if v.len() >= 1 && v.last() == 'Z' && spec_compact_datetime(v.drop_last()) is Some {
        interp_in_zone("UTC"@, disp, spec_compact_datetime(v.drop_last())->0)
    } else if spec_compact_datetime(v) is Some {
        let f = spec_compact_datetime(v)->0;
        match tzid {
            Some(t) => if spec_resolve_timezone(t) is Some {
                interp_in_zone(spec_resolve_timezone(t)->0, disp, f)
            } else {
                interp_in_zone(disp, disp, f)
            },
            None => interp_in_zone(disp, disp, f),
        }
    } else if spec_compact_date(v) is Some {
        interp_in_zone(disp, disp, spec_compact_date(v)->0)
    } else {
        None
    }
}

/// Interpret validated fields in `zone` and render the instant in `disp`.
fn interp_in_zone_exec(zone: &str, disp: &str, y: i32, mo: u8, d: u8, h: u8, mi: u8, s: u8) -> (r:
    Option<LocalTime>)
    ensures
        match r {
            Some(t) => interp_in_zone(zone@, disp@, (y as int, mo as int, d as int, h as int, mi as int, s as int))
                == Some(t) && t.wf(),
            None => interp_in_zone(zone@, disp@, (y as int, mo as int, d as int, h as int, mi as int, s as int))
                is None,
        },
{
    match zone_naive_to_epoch(zone, y, mo, d, h, mi, s) {
        Some(e) => epoch_to_zone_wall(disp, e),
        None => None,
    }
}

/// Parse an iCalendar date-time value against an explicit display zone.
///
/// Handles `20240221T123000` (naive), `20240221T123000Z` (UTC),
/// `TZID=America/Los_Angeles:20240221T123000` (zone embedded in the
/// value), a separate `TZID` parameter, and bare `20250527` dates. An
/// unresolvable `TZID` falls back to the display zone.
pub fn parse_ical_datetime_in(value: &str, tzid: Option<&str>, disp: &str) -> (r: Option<
    LocalTime,
>)
    ensures
        match r {
            Some(t) => spec_parse_ical_datetime(
                value@,
                match tzid {
                    Some(z) => Some(z@),
                    None => None,
                },
                disp@,
            ) == Some(t) && t.wf(),
            None => spec_parse_ical_datetime(
                value@,
                match tzid {
                    Some(z) => Some(z@),
                    None => None,
                },
                disp@,
            ) is None,
        },
{
    let raw = chars_of(value);
    let v = trim_chars(&after_last_colon_exec(&raw));
    if v.len() >= 1 && v[v.len() - 1] == 'Z' {
        let stripped = sub_chars(&v, 0, v.len() - 1);
        proof {
            assert(stripped@ =~= v@.drop_last());
        }
        if let Some((y, mo, d, h, mi, s)) = parse_compact_datetime(&stripped) {
            return interp_in_zone_exec("UTC", disp, y, mo, d, h, mi, s);
        }
    }
    if let Some((y, mo, d, h, mi, s)) = parse_compact_datetime(&v) {
        if let Some(t) = tzid {
            if let Some(zone) = parse_ical_timezone(t) {
                return interp_in_zone_exec(zone.as_str(), disp, y, mo, d, h, mi, s);
            }
        }
        return interp_in_zone_exec(disp, disp, y, mo, d, h, mi, s);
    }
    if let Some((y, mo, d)) = parse_compact_date(&v) {
        return interp_in_zone_exec(disp, disp, y, mo, d, 0, 0, 0);
    }
    None
}

/// The character writing a single decimal digit.
pub open spec fn digit_char(d: int) -> char {
    ((48 + d) as u8) as char
}

/// A number written with two digits, zero-padded.
pub open spec fn fmt2(x: int) -> Seq<char> {
    seq![digit_char(x / 10), digit_char(x % 10)]
}

/// A number written with four digits, zero-padded.
pub open spec fn fmt4(x: int) -> Seq<char> {
    seq![
        digit_char(x / 1000),
        digit_char((x / 100) % 10),
        digit_char((x / 10) % 10),
        digit_char(x % 10),
    ]
}

/// The compact `YYYYMMDDTHHMMSS` writing of a wall-clock time.
pub open spec fn spec_compact_of(t: LocalTime) -> Seq<char> {
    fmt4(t.year as int) + fmt2(t.month as int) + fmt2(t.day as int) + seq!['T'] + fmt2(
        t.hour as int,
    ) + fmt2(t.minute as int) + fmt2(t.second as int)
}

fn push_2_digits(out: &mut Vec<char>, x: u8)
    requires
        x < 100,
    ensures
        final(out)@ == old(out)@ + fmt2(x as int),
{
    out.push((48 + x / 10) as char);
    out.push((48 + x % 10) as char);
    proof {
        assert(final(out)@ =~= old(out)@ + fmt2(x as int));
    }
}

fn push_4_digits(out: &mut Vec<char>, x: i32)
    requires
        0 <= x <= 9999,
    ensures
        final(out)@ == old(out)@ + fmt4(x as int),
{
    out.push((48 + (x / 1000) as u8) as char);
    out.push((48 + ((x / 100) % 10) as u8) as char);
    out.push((48 + ((x / 10) % 10) as u8) as char);
    out.push((48 + (x % 10) as u8) as char);
    proof {
        assert(final(out)@ =~= old(out)@ + fmt4(x as int));
    }
}

/// Write a wall-clock time in the compact `YYYYMMDDTHHMMSS` form.
pub fn format_compact(t: &LocalTime) -> (r: Vec<char>)
    requires
        0 <= t.year <= 9999,
        t.wf(),
    ensures
        r@ == spec_compact_of(*t),
{
    let mut out: Vec<char> = Vec::new();
    push_4_digits(&mut out, t.year);
    push_2_digits(&mut out, t.month);
    push_2_digits(&mut out, t.day);
    out.push('T');
    push_2_digits(&mut out, t.hour);
    push_2_digits(&mut out, t.minute);
    push_2_digits(&mut out, t.second);
    proof {
        assert(out@ =~= spec_compact_of(*t));
    }
    out
}

/// How far back the fetch window reaches, to include in-progress
/// meetings: 30 minutes.
pub const QUERY_LOOKBACK_SECONDS: i64 = 1800;

/// How far ahead the fetch window reaches: 30 days.
pub const QUERY_LOOKAHEAD_SECONDS: i64 = 2592000;

/// The fetch window around `now`: from 30 minutes before to 30 days
/// after.
pub fn query_window(now: i64) -> (r: (i64, i64))
    requires
        i64::MIN + 1800 <= now <= i64::MAX - 2592000,
    ensures
        r.0 == now - 1800,
        r.1 == now + 2592000,
{
    (now - QUERY_LOOKBACK_SECONDS, now + QUERY_LOOKAHEAD_SECONDS)
}

/// The time-range query sent to the calendar service: an S-expression
/// over the window bounds written as compact UTC timestamps. `None` when
/// a bound cannot be rendered in UTC within four-digit years.
pub open spec fn spec_range_query(query_start: int, query_end: int) -> Option<Seq<char>> {
    match (zone_wall("UTC"@, query_start), zone_wall("UTC"@, query_end)) {
        (Some(a), Some(b)) => if 0 <= a.year <= 9999 && 0 <= b.year <= 9999 {
            Some(
                "(occur-in-time-range? (make-time \""@ + spec_compact_of(a)
                    + "Z\") (make-time \""@ + spec_compact_of(b) + "Z\"))"@,
            )
        } else {
            None
        },
        _ => None,
    }
}

/// Build the occurrence-expansion time-range query for the fetch window,
/// in UTC regardless of the local zone.
pub fn build_range_query(query_start: i64, query_end: i64) -> (r: Option<String>)
    ensures
        match r {
            Some(q) => spec_range_query(query_start as int, query_end as int) == Some(q@),
            None => spec_range_query(query_start as int, query_end as int) is None,
        },
{
    let a = match epoch_to_zone_wall("UTC", query_start) {
        Some(t) => t,
        None => {
            return None;
        },
    };
    let b = match epoch_to_zone_wall("UTC", query_end) {
        Some(t) => t,
        None => {
            return None;
        },
    };
    if !(0 <= a.year && a.year <= 9999 && 0 <= b.year && b.year <= 9999) {
        return None;
    }
    let mut out = chars_of("(occur-in-time-range? (make-time \"");
    let mut fa = format_compact(&a);
    out.append(&mut fa);
    let mut mid = chars_of("Z\") (make-time \"");
    out.append(&mut mid);
    let mut fb = format_compact(&b);
    out.append(&mut fb);
    let mut tail = chars_of("Z\"))");
    out.append(&mut tail);
    proof {
        assert(out@ =~= spec_range_query(query_start as int, query_end as int)->0);
    }
    Some(string_from_chars(&out))
}

/// The view of an optional `TZID` argument.
pub open spec fn tzid_view(o: Option<&str>) -> Option<Seq<char>> {
    match o {
        Some(z) => Some(z@),
        None => None,
    }
}

/// Whether `r` is what parsing the value yields under display zone
/// `disp`.
pub open spec fn parse_result_matches(
    value: Seq<char>,
    tzid: Option<Seq<char>>,
    disp: Seq<char>,
    r: Option<LocalTime>,
) -> bool {
    match r {
        Some(t) => spec_parse_ical_datetime(value, tzid, disp) == Some(t) && t.wf(),
        None => spec_parse_ical_datetime(value, tzid, disp) is None,
    }
}

/// Parse an iCalendar date-time value, rendering it in the machine's
/// display zone: a known IANA zone, or UTC as the fallback.
pub fn parse_ical_datetime(value: &str, tzid: Option<&str>) -> (r: Option<LocalTime>)
    ensures
        exists|disp: Seq<char>|
            #[trigger] parse_result_matches(value@, tzid_view(tzid), disp, r) && (iana_zone(
                lower_seq(disp),
            ) is Some || disp == "UTC"@),
{
    let disp = display_zone();
    let r = parse_ical_datetime_in(value, tzid, disp.as_str());
    proof {
        assert(parse_result_matches(value@, tzid_view(tzid), disp@, r));
    }
    r
}

} // verus!
