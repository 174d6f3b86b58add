//! Parsing of the INI-style key/value blocks that describe calendar sources.
//!
//! A source description consists of sections such as `[Data Source]` and
//! `[Calendar]`, each holding `Key=Value` lines. `DisplayName` is read from
//! anywhere in the block; `Color` and `BackendName` are scoped strictly to
//! the `[Calendar]` section, since sibling sections may carry an empty
//! same-named key that must not shadow them.

use vstd::prelude::*;

use crate::text::{
    chars_equal, chars_of, contains_chars, spec_contains_seq, spec_starts_with, spec_trim,
    split_lines, split_lines_chars, starts_with_chars, string_from_chars, sub_chars, trim_chars,
};

verus! {

/// The value of the first line whose trimmed form starts with `prefix`,
/// with the prefix removed.
pub open spec fn scan_prefixed(lines: Seq<Seq<char>>, prefix: Seq<char>) -> Option<Seq<char>>
    decreases lines.len(),
{
    if lines.len() == 0 {
        None
    } else {
        let l = spec_trim(lines[0]);
        if spec_starts_with(l, prefix) {
            Some(l.skip(prefix.len() as int))
        } else {
            scan_prefixed(lines.drop_first(), prefix)
        }
    }
}

/// The value of the first `prefix` line inside the `[Calendar]` section.
/// A line equal to `[Calendar]` opens the section and any other `[` line
/// closes it. When `skip_empty` is set, a matching line with an empty value
/// is passed over.
pub open spec fn scan_calendar_section(
    lines: Seq<Seq<char>>,
    prefix: Seq<char>,
    skip_empty: bool,
    in_section: bool,
) -> Option<Seq<char>>
    decreases lines.len(),
{
    if lines.len() == 0 {
        None
    } else {
        let l = spec_trim(lines[0]);
        let rest = lines.drop_first();
        if l == "[Calendar]"@ {
            scan_calendar_section(rest, prefix, skip_empty, true)
        } else if l.len() > 0 && l[0] == '[' {
            scan_calendar_section(rest, prefix, skip_empty, false)
        } else if in_section && spec_starts_with(l, prefix) && (!skip_empty || l.len()
            > prefix.len()) {
            Some(l.skip(prefix.len() as int))
        } else {
            scan_calendar_section(rest, prefix, skip_empty, in_section)
        }
    }
}

fn scan_prefixed_exec(lines: &Vec<Vec<char>>, prefix: &Vec<char>) -> (r: Option<Vec<char>>)
    ensures
        match r {
            Some(v) => scan_prefixed(lines.deep_view(), prefix@) == Some(v@),
            None => scan_prefixed(lines.deep_view(), prefix@) is None,
        },
{
    let ghost all = lines.deep_view();
    proof {
        assert(all.skip(0) =~= all);
    }
    let mut i: usize = 0;
    while i < lines.len()
        invariant
            i <= lines.len(),
            all == lines.deep_view(),
            scan_prefixed(all.skip(i as int), prefix@) == scan_prefixed(all, prefix@),
        decreases lines.len() - i,
    {
        let ghost cur = all.skip(i as int);
        proof {
            assert(cur[0] == lines@[i as int].deep_view());
            assert(lines@[i as int].deep_view() =~= lines@[i as int]@);
            assert(cur.drop_first() =~= all.skip(i as int + 1));
        }
        let l = trim_chars(&lines[i]);
        proof {
            assert(l@ == spec_trim(cur[0]));
        }
        if starts_with_chars(&l, prefix) {
            let v = sub_chars(&l, prefix.len(), l.len());
            proof {
                assert(scan_prefixed(cur, prefix@) == Some(l@.skip(prefix@.len() as int)));
                assert(v@ =~= l@.skip(prefix@.len() as int));
            }
            return Some(v);
        }
        proof {
            assert(scan_prefixed(cur, prefix@) == scan_prefixed(cur.drop_first(), prefix@));
        }
        i += 1;
    }
    proof {
        assert(all.skip(lines@.len() as int) =~= Seq::<Seq<char>>::empty());
    }
    None
}

fn scan_calendar_section_exec(
    lines: &Vec<Vec<char>>,
    prefix: &Vec<char>,
    skip_empty: bool,
) -> (r: Option<Vec<char>>)
    ensures
        match r {
            Some(v) => scan_calendar_section(lines.deep_view(), prefix@, skip_empty, false)
                == Some(v@),
            None => scan_calendar_section(lines.deep_view(), prefix@, skip_empty, false) is None,
        },
{
    let ghost all = lines.deep_view();
    proof {
        assert(all.skip(0) =~= all);
    }
    let header = chars_of("[Calendar]");
    let mut in_section = false;
    let mut i: usize = 0;
    while i < lines.len()
        invariant
            i <= lines.len(),
            all == lines.deep_view(),
            header@ == "[Calendar]"@,
            scan_calendar_section(all.skip(i as int), prefix@, skip_empty, in_section)
                == scan_calendar_section(all, prefix@, skip_empty, false),
        decreases lines.len() - i,
    {
        let ghost cur = all.skip(i as int);
        proof {
            assert(cur[0] == lines@[i as int].deep_view());
            assert(lines@[i as int].deep_view() =~= lines@[i as int]@);
            assert(cur.drop_first() =~= all.skip(i as int + 1));
        }
        let l = trim_chars(&lines[i]);
        proof {
            assert(l@ == spec_trim(cur[0]));
        }
        if chars_equal(&l, &header) {
            in_section = true;
        } else if l.len() > 0 && l[0] == '[' {
            in_section = false;
        } else if in_section && starts_with_chars(&l, prefix) && (!skip_empty || l.len()
            > prefix.len()) {
            let v = sub_chars(&l, prefix.len(), l.len());
            proof {
                assert(scan_calendar_section(cur, prefix@, skip_empty, in_section) == Some(
                    l@.skip(prefix@.len() as int),
                ));
                assert(v@ =~= l@.skip(prefix@.len() as int));
            }
            return Some(v);
        }
        i += 1;
    }
    proof {
        assert(all.skip(lines@.len() as int) =~= Seq::<Seq<char>>::empty());
    }
    None
}

/// What `parse_field` returns: the value of the first `field=` line.
pub open spec fn spec_parse_field(data: Seq<char>, field: Seq<char>) -> Option<Seq<char>> {
    scan_prefixed(split_lines(data), field + seq!['='])
}

/// Parse the value of an arbitrary `field=` line from source data.
pub fn parse_field(data: &str, field: &str) -> (r: Option<String>)
    ensures
        match r {
            Some(v) => spec_parse_field(data@, field@) == Some(v@),
            None => spec_parse_field(data@, field@) is None,
        },
{
    let d = chars_of(data);
    let lines = split_lines_chars(&d);
    let mut prefix = chars_of(field);
    prefix.push('=');
    proof {
        assert(prefix@ =~= field@ + seq!['=']);
    }
    match scan_prefixed_exec(&lines, &prefix) {
        Some(v) => Some(string_from_chars(&v)),
        None => None,
    }
}

/// What `parse_display_name` returns.
pub open spec fn spec_parse_display_name(data: Seq<char>) -> Option<Seq<char>> {
    scan_prefixed(split_lines(data), "DisplayName="@)
}

/// Parse `DisplayName` from INI-format source data.
pub fn parse_display_name(data: &str) -> (r: Option<String>)
    ensures
        match r {
            Some(v) => spec_parse_display_name(data@) == Some(v@),
            None => spec_parse_display_name(data@) is None,
        },
{
    let d = chars_of(data);
    let lines = split_lines_chars(&d);
    let prefix = chars_of("DisplayName=");
    match scan_prefixed_exec(&lines, &prefix) {
        Some(v) => Some(string_from_chars(&v)),
        None => None,
    }
}

/// What `parse_color` returns: the first non-empty `Color=` value inside
/// the `[Calendar]` section.
pub open spec fn spec_parse_color(data: Seq<char>) -> Option<Seq<char>> {
    scan_calendar_section(split_lines(data), "Color="@, true, false)
}

/// Parse `Color` from INI-format source data (in the `[Calendar]` section).
pub fn parse_color(data: &str) -> (r: Option<String>)
    ensures
        match r {
            Some(v) => spec_parse_color(data@) == Some(v@),
            None => spec_parse_color(data@) is None,
        },
{
    let d = chars_of(data);
    let lines = split_lines_chars(&d);
    let prefix = chars_of("Color=");
    match scan_calendar_section_exec(&lines, &prefix, true) {
        Some(v) => Some(string_from_chars(&v)),
        None => None,
    }
}

/// What `parse_backend_name` returns.
pub open spec fn spec_parse_backend_name(data: Seq<char>) -> Option<Seq<char>> {
    scan_calendar_section(split_lines(data), "BackendName="@, false, false)
}

/// Parse `BackendName` from INI-format source data (in the `[Calendar]`
/// section).
pub fn parse_backend_name(data: &str) -> (r: Option<String>)
    ensures
        match r {
            Some(v) => spec_parse_backend_name(data@) == Some(v@),
            None => spec_parse_backend_name(data@) is None,
        },
{
    let d = chars_of(data);
    let lines = split_lines_chars(&d);
    let prefix = chars_of("BackendName=");
    match scan_calendar_section_exec(&lines, &prefix, false) {
        Some(v) => Some(string_from_chars(&v)),
        None => None,
    }
}

/// Whether source data describes a calendar: it mentions a `[Calendar]`
/// section.
pub fn is_calendar_data(data: &str) -> (r: bool)
    ensures
        r == spec_contains_seq(data@, "[Calendar]"@),
{
    let d = chars_of(data);
    let needle = chars_of("[Calendar]");
    contains_chars(&d, &needle)
}

} // verus!
