//! Extraction of a joinable meeting URL and of a physical location from a
//! meeting's text fields, driven by user-configured regex patterns.
//! Invalid patterns never match and are thereby silently discarded.

use vstd::prelude::*;

use crate::model::Meeting;
use crate::text::{
    chars_equal, chars_of, spec_starts_with, spec_trim, starts_with_chars, string_from_chars,
    trim_chars,
};

verus! {

/// The leftmost match of the pattern in the haystack; `None` when the
/// pattern is not a valid regex or nothing matches. A function of its
/// arguments alone.
pub uninterp spec fn regex_match(pattern: Seq<char>, hay: Seq<char>) -> Option<Seq<char>>;

/// Relies on `regex::Regex::new` and `Regex::find`: `find` returns the
/// leftmost-first match, a substring of the haystack.
#[verifier::external_body]
fn regex_first_match(pattern: &str, hay: &str) -> (r: Option<String>)
    ensures
        match r {
            Some(m) => regex_match(pattern@, hay@) == Some(m@),
            None => regex_match(pattern@, hay@) is None,
        },
{
    regex::Regex::new(pattern).ok().and_then(|re| re.find(hay).map(|m| m.as_str().to_string()))
}

/// The first match that any pattern, in order, finds in the text.
pub open spec fn first_pattern_match(patterns: Seq<String>, text: Seq<char>) -> Option<Seq<char>>
    decreases patterns.len(),
{
    if patterns.len() == 0 {
        None
    } else {
        match regex_match(patterns[0]@, text) {
            Some(m) => Some(m),
            None => first_pattern_match(patterns.drop_first(), text),
        }
    }
}

/// What `extract_meeting_url` returns: the first pattern match in the
/// location; only when the location yields nothing, the first pattern
/// match in the description.
pub open spec fn spec_extract_meeting_url(m: Meeting, patterns: Seq<String>) -> Option<Seq<char>> {
    let from_location = match m.location {
        Some(l) => first_pattern_match(patterns, l@),
        None => None,
    };
    match from_location {
        Some(u) => Some(u),
        None => match m.description {
            Some(d) => first_pattern_match(patterns, d@),
            None => None,
        },
    }
}

fn first_pattern_match_exec(patterns: &Vec<String>, text: &str) -> (r: Option<String>)
    ensures
        match r {
            Some(u) => first_pattern_match(patterns@, text@) == Some(u@),
            None => first_pattern_match(patterns@, text@) is None,
        },
{
    proof {
        assert(patterns@.skip(0) =~= patterns@);
    }
    let mut i: usize = 0;
    while i < patterns.len()
        invariant
            i <= patterns.len(),
            first_pattern_match(patterns@.skip(i as int), text@) == first_pattern_match(
                patterns@,
                text@,
            ),
        decreases patterns.len() - i,
    {
        let ghost cur = patterns@.skip(i as int);
        proof {
            assert(cur[0] == patterns@[i as int]);
            assert(cur.drop_first() =~= patterns@.skip(i as int + 1));
        }
        if let Some(m) = regex_first_match(patterns[i].as_str(), text) {
            return Some(m);
        }
        i += 1;
    }
    proof {
        assert(patterns@.skip(patterns@.len() as int) =~= Seq::<String>::empty());
    }
    None
}

/// Extract a meeting URL from the meeting's location or description.
/// The location is checked first (the most common place for meeting
/// links), then the description.
pub fn extract_meeting_url(meeting: &Meeting, patterns: &Vec<String>) -> (r: Option<String>)
    ensures
        match r {
            Some(u) => spec_extract_meeting_url(*meeting, patterns@) == Some(u@),
            None => spec_extract_meeting_url(*meeting, patterns@) is None,
        },
{
    if let Some(location) = &meeting.location {
        if let Some(u) = first_pattern_match_exec(patterns, location.as_str()) {
            return Some(u);
        }
    }
    if let Some(description) = &meeting.description {
        if let Some(u) = first_pattern_match_exec(patterns, description.as_str()) {
            return Some(u);
        }
    }
    None
}

proof fn lemma_first_pattern_match_none(patterns: Seq<String>, text: Seq<char>)
    requires
        forall|i: int| 0 <= i < patterns.len() ==> (#[trigger] regex_match(patterns[i]@, text))
            is None,
    ensures
        first_pattern_match(patterns, text) is None,
    decreases patterns.len(),
{
    if patterns.len() > 0 {
        assert(regex_match(patterns[0]@, text) is None);
        assert forall|i: int| 0 <= i < patterns.drop_first().len() implies (#[trigger] regex_match(
            patterns.drop_first()[i]@,
            text,
        )) is None by {
            assert(patterns.drop_first()[i] == patterns[i + 1]);
        }
        lemma_first_pattern_match_none(patterns.drop_first(), text);
    }
}

/// With no patterns there is no URL to extract.
pub proof fn lemma_extract_url_empty_patterns(m: Meeting)
    ensures
        spec_extract_meeting_url(m, Seq::<String>::empty()) is None,
{
}

/// When no pattern matches anything — in particular when every pattern is
/// invalid, since an invalid pattern never matches — no URL is extracted.
pub proof fn lemma_extract_url_no_matching_pattern(m: Meeting, patterns: Seq<String>)
    requires
        forall|i: int, text: Seq<char>|
            0 <= i < patterns.len() ==> (#[trigger] regex_match(patterns[i]@, text)) is None,
    ensures
        spec_extract_meeting_url(m, patterns) is None,
{
    if m.location is Some {
        lemma_first_pattern_match_none(patterns, m.location->0@);
    }
    if m.description is Some {
        lemma_first_pattern_match_none(patterns, m.description->0@);
    }
}

/// What `get_physical_location` returns: the trimmed location, unless it
/// is empty, some pattern matches it in full span, or it is itself a URL.
pub open spec fn spec_physical_location(m: Meeting, patterns: Seq<String>) -> Option<Seq<char>> {
    match m.location {
        None => None,
        Some(l) => {
            let t = spec_trim(l@);
            if t.len() == 0 {
                None
            } else if exists|i: int|
                0 <= i < patterns.len() && #[trigger] regex_match(patterns[i]@, t) == Some(t) {
                None
            } else if spec_starts_with(t, "http://"@) || spec_starts_with(t, "https://"@) {
                None
            } else {
                Some(t)
            }
        },
    }
}

/// Get the physical location of a meeting: its location field, when that
/// is not just a URL. A pattern matching only part of the location does
/// not disqualify it.
pub fn get_physical_location(meeting: &Meeting, url_patterns: &Vec<String>) -> (r: Option<String>)
    ensures
        match r {
            Some(l) => spec_physical_location(*meeting, url_patterns@) == Some(l@),
            None => spec_physical_location(*meeting, url_patterns@) is None,
        },
{
    let location = match &meeting.location {
        Some(l) => l,
        None => {
            return None;
        },
    };
    let trimmed = trim_chars(&chars_of(location.as_str()));
    if trimmed.len() == 0 {
        return None;
    }
    let trimmed_str = string_from_chars(&trimmed);
    let mut i: usize = 0;
    while i < url_patterns.len()
        invariant
            i <= url_patterns.len(),
            trimmed@ == spec_trim(meeting.location->0@),
            trimmed_str@ == trimmed@,
            forall|j: int|
                0 <= j < i ==> #[trigger] regex_match(url_patterns@[j]@, trimmed@) != Some(
                    trimmed@,
                ),
        decreases url_patterns.len() - i,
    {
        if let Some(m) = regex_first_match(url_patterns[i].as_str(), trimmed_str.as_str()) {
            let mc = chars_of(m.as_str());
            if chars_equal(&mc, &trimmed) {
                return None;
            }
        }
        i += 1;
    }
    if starts_with_chars(&trimmed, &chars_of("http://")) || starts_with_chars(
        &trimmed,
        &chars_of("https://"),
    ) {
        return None;
    }
    Some(trimmed_str)
}

} // verus!
