//! Resolution of arbitrary timezone identifiers to a canonical IANA zone.
//!
//! Resolution runs in three tiers: the id as an IANA identifier
//! (case-insensitively), then as a Windows zone display name through the
//! CLDR mapping, then through a small table of common unambiguous
//! abbreviations. Abbreviations that are ambiguous across regions (`CST`,
//! `IST`) are deliberately not resolved.

use vstd::prelude::*;

use crate::text::{chars_equal, chars_of, lower_chars, lower_seq, replace_chars, replace_seq, string_from_chars};

verus! {

/// The canonical IANA identifier that `chrono_tz` parses the given id to,
/// case-insensitively; `None` when the id names no zone in the IANA table.
pub uninterp spec fn iana_zone(id: Seq<char>) -> Option<Seq<char>>;

/// Relies on `chrono_tz::Tz::from_str_insensitive` and `Tz::name`: the
/// canonical identifier of the parsed zone, a function of the id alone
/// (the zone table is compiled into the crate).
#[verifier::external_body]
fn iana_lookup(id: &str) -> (r: Option<String>)
    ensures
        match r {
            Some(n) => iana_zone(id@) == Some(n@),
            None => iana_zone(id@) is None,
        },
{
    chrono_tz::Tz::from_str_insensitive(id).ok().map(|tz| tz.name().to_string())
}

/// The IANA identifier that the CLDR mapping gives for a Windows timezone
/// display name (its territory-independent entry); `None` when the name is
/// not in the mapping.
pub uninterp spec fn win_zone(name: Seq<char>) -> Option<Seq<char>>;

/// Relies on `localzone::win_zone_to_iana`: the CLDR Windows-to-IANA zone
/// mapping, a function of the name alone (the table is compiled into the
/// crate).
#[verifier::external_body]
fn win_zone_lookup(name: &str) -> (r: Option<String>)
    ensures
        match r {
            Some(n) => win_zone(name@) == Some(n@),
            None => win_zone(name@) is None,
        },
{
    localzone::win_zone_to_iana(name, None).map(|s| s.to_string())
}

/// `Etc/UTC` is folded into the canonical `UTC`.
pub open spec fn normalize_zone(n: Seq<char>) -> Seq<char> {
    if n == "Etc/UTC"@ {
        "UTC"@
    } else {
        n
    }
}

/// A lowercased id resolved through the IANA table, normalized.
pub open spec fn resolve_iana(s: Seq<char>) -> Option<Seq<char>> {
    match iana_zone(lower_seq(s)) {
        Some(n) => Some(normalize_zone(n)),
        None => None,
    }
}

/// The curated table of common unambiguous abbreviations seen in calendar
/// software. Ambiguous ones (`CST`, `IST`) are absent on purpose.
pub open spec fn spec_abbrev_zone(s: Seq<char>) -> Option<Seq<char>> {
    if s == "PST"@ || s == "PDT"@ {
        Some("America/Los_Angeles"@)
    } else if s == "EDT"@ {
        Some("America/New_York"@)
    } else if s == "CDT"@ {
        Some("America/Chicago"@)
    } else if s == "MDT"@ {
        Some("America/Denver"@)
    } else if s == "BST"@ {
        Some("Europe/London"@)
    } else if s == "CEST"@ {
        Some("Europe/Berlin"@)
    } else if s == "JST"@ {
        Some("Asia/Tokyo"@)
    } else if s == "SGT"@ {
        Some("Asia/Singapore"@)
    } else if s == "KST"@ {
        Some("Asia/Seoul"@)
    } else if s == "NZST"@ || s == "NZDT"@ {
        Some("Pacific/Auckland"@)
    } else if s == "AEST"@ || s == "AEDT"@ {
        Some("Australia/Sydney"@)
    } else if s == "AWST"@ {
        Some("Australia/Perth"@)
    } else if s == "Z"@ {
        Some("UTC"@)
    } else {
        None
    }
}

/// What `parse_ical_timezone` returns: the three-tier resolution.
pub open spec fn spec_resolve_timezone(s: Seq<char>) -> Option<Seq<char>> {
    if iana_zone(lower_seq(s)) is Some {
        resolve_iana(s)
    } else {
        let normalized = replace_seq(s, " Daylight Time"@, " Standard Time"@);
        match win_zone(normalized) {
            Some(iana) => resolve_iana(iana),
            None => match spec_abbrev_zone(s) {
                Some(iana) => resolve_iana(iana),
                None => None,
            },
        }
    }
}

/// Case only ever matters up to ASCII lowercasing: two ids with the same
/// lowercase form resolve alike whenever the IANA tier succeeds.
pub proof fn lemma_resolve_case_insensitive(a: Seq<char>, b: Seq<char>)
    requires
        lower_seq(a) == lower_seq(b),
        iana_zone(lower_seq(a)) is Some,
    ensures
        spec_resolve_timezone(a) == spec_resolve_timezone(b),
{
}

/// Resolve an id through the IANA tier alone (case-insensitively), giving
/// the normalized canonical zone name.
pub fn resolve_iana_name(id: &str) -> (r: Option<String>)
    ensures
        match r {
            Some(v) => resolve_iana(id@) == Some(v@),
            None => resolve_iana(id@) is None,
        },
{
    resolve_iana_exec(&chars_of(id))
}

/// Whether the id names a zone in the IANA table (case-insensitively).
pub fn iana_known(id: &str) -> (r: bool)
    ensures
        r == (iana_zone(lower_seq(id@)) is Some),
{
    let lowered = string_from_chars(&lower_chars(&chars_of(id)));
    match iana_lookup(lowered.as_str()) {
        Some(_) => true,
        None => false,
    }
}

fn resolve_iana_exec(s: &Vec<char>) -> (r: Option<String>)
    ensures
        match r {
            Some(v) => resolve_iana(s@) == Some(v@),
            None => resolve_iana(s@) is None,
        },
{
    let lowered = string_from_chars(&lower_chars(s));
    match iana_lookup(lowered.as_str()) {
        Some(n) => {
            let nc = chars_of(n.as_str());
            if chars_equal(&nc, &chars_of("Etc/UTC")) {
                Some(String::from_str("UTC"))
            } else {
                Some(n)
            }
        },
        None => None,
    }
}

/// Parse an iCalendar timezone id to a canonical IANA zone identifier.
///
/// Supports IANA identifiers (case-insensitively), Windows timezone names
/// via the CLDR mapping (normalizing "Daylight Time" to "Standard Time"),
/// and common unambiguous abbreviations. Returns `None` for anything else,
/// including deliberately unresolved ambiguous abbreviations.
pub fn parse_ical_timezone(tz_str: &str) -> (r: Option<String>)
    ensures
        match r {
            Some(v) => spec_resolve_timezone(tz_str@) == Some(v@),
            None => spec_resolve_timezone(tz_str@) is None,
        },
{
    let tz = chars_of(tz_str);
    match resolve_iana_exec(&tz) {
        Some(v) => Some(v),
        None => {
            let daylight = chars_of(" Daylight Time");
            let standard = chars_of(" Standard Time");
            proof {
                reveal_strlit(" Daylight Time");
            }
            let normalized = replace_chars(&tz, &daylight, &standard);
            match win_zone_lookup(string_from_chars(&normalized).as_str()) {
                Some(iana) => resolve_iana_exec(&chars_of(iana.as_str())),
                None => match abbrev_zone(&tz) {
                    Some(iana) => resolve_iana_exec(&chars_of(iana.as_str())),
                    None => None,
                },
            }
        },
    }
}

fn abbrev_zone(s: &Vec<char>) -> (r: Option<String>)
    ensures
        match r {
            Some(v) => spec_abbrev_zone(s@) == Some(v@),
            None => spec_abbrev_zone(s@) is None,
        },
{
    if chars_equal(s, &chars_of("PST")) || chars_equal(s, &chars_of("PDT")) {
        Some(String::from_str("America/Los_Angeles"))
    } else if chars_equal(s, &chars_of("EDT")) {
        Some(String::from_str("America/New_York"))
    } else if chars_equal(s, &chars_of("CDT")) {
        Some(String::from_str("America/Chicago"))
    } else if chars_equal(s, &chars_of("MDT")) {
        Some(String::from_str("America/Denver"))
    } else if chars_equal(s, &chars_of("BST")) {
        Some(String::from_str("Europe/London"))
    } else if chars_equal(s, &chars_of("CEST")) {
        Some(String::from_str("Europe/Berlin"))
    } else if chars_equal(s, &chars_of("JST")) {
        Some(String::from_str("Asia/Tokyo"))
    } else if chars_equal(s, &chars_of("SGT")) {
        Some(String::from_str("Asia/Singapore"))
    } else if chars_equal(s, &chars_of("KST")) {
        Some(String::from_str("Asia/Seoul"))
    } else if chars_equal(s, &chars_of("NZST")) || chars_equal(s, &chars_of("NZDT")) {
        Some(String::from_str("Pacific/Auckland"))
    } else if chars_equal(s, &chars_of("AEST")) || chars_equal(s, &chars_of("AEDT")) {
        Some(String::from_str("Australia/Sydney"))
    } else if chars_equal(s, &chars_of("AWST")) {
        Some(String::from_str("Australia/Perth"))
    } else if chars_equal(s, &chars_of("Z")) {
        Some(String::from_str("UTC"))
    } else {
        None
    }
}

} // verus!
