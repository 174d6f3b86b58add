//! Assembly of discovered calendar sources: turning each source's
//! INI-style description into a [`CalendarInfo`] and presenting the list
//! in a stable order.

use vstd::prelude::*;
use vstd::multiset::Multiset;

use crate::pipeline::lemma_insert_to_multiset;

use crate::ini::{
    parse_backend_name, parse_color, parse_display_name, spec_parse_backend_name, spec_parse_color,
    spec_parse_display_name,
};
use crate::model::CalendarInfo;
use crate::text::{chars_of, lemma_lex_le_total, lemma_lex_le_trans, lex_le, lex_le_chars, spec_contains_seq, string_from_chars, sub_chars};

verus! {

/// Whether `c` is the calendar record that the uid and source data
/// describe: the display name falls back to the uid, color and backend
/// are scoped to the `[Calendar]` section, and the sync timestamp is not
/// known at discovery.
pub open spec fn info_matches(uid: Seq<char>, data: Seq<char>, c: CalendarInfo) -> bool {
    &&& c.uid@ == uid
    &&& c.display_name@ == (match spec_parse_display_name(data) {
        Some(n) => n,
        None => uid,
    })
    &&& match c.color {
        Some(col) => spec_parse_color(data) == Some(col@),
        None => spec_parse_color(data) is None,
    }
    &&& match c.backend {
        Some(b) => spec_parse_backend_name(data) == Some(b@),
        None => spec_parse_backend_name(data) is None,
    }
    &&& c.last_synced is None
}

/// Build the calendar record for one discovered source. Only sources
/// whose description holds a `[Calendar]` section are calendars; others
/// yield `None`.
pub fn calendar_info_from_source(uid: &str, data: &str) -> (r: Option<CalendarInfo>)
    ensures
        match r {
            Some(c) => spec_contains_seq(data@, "[Calendar]"@) && info_matches(uid@, data@, c),
            None => !spec_contains_seq(data@, "[Calendar]"@),
        },
{
    if !crate::ini::is_calendar_data(data) {
        return None;
    }
    let display_name = match parse_display_name(data) {
        Some(n) => n,
        None => String::from_str(uid),
    };
    Some(
        CalendarInfo {
            uid: String::from_str(uid),
            display_name,
            color: parse_color(data),
            last_synced: None,
            backend: parse_backend_name(data),
        },
    )
}

/// The prefix of `s` before its first occurrence of `c`; all of `s` when
/// it has none.
pub open spec fn before_char(s: Seq<char>, c: char) -> Seq<char>
    decreases s.len(),
{
    if s.len() == 0 {
        s
    } else if s[0] == c {
        Seq::empty()
    } else {
        seq![s[0]] + before_char(s.drop_first(), c)
    }
}

proof fn lemma_before_char_at(s: Seq<char>, c: char, i: int)
    requires
        0 <= i <= s.len(),
        forall|j: int| 0 <= j < i ==> s[j] != c,
        i < s.len() ==> s[i] == c,
    ensures
        before_char(s, c) == s.take(i),
    decreases i,
{
    if s.len() == 0 {
        assert(s.take(i) =~= s);
    } else if i == 0 {
        assert(s.take(0) =~= Seq::<char>::empty());
    } else {
        lemma_before_char_at(s.drop_first(), c, i - 1);
        assert(seq![s[0]] + s.drop_first().take(i - 1) =~= s.take(i));
    }
}

/// The revision timestamp of a calendar: the part of the revision string
/// before the parenthesized counter.
pub fn revision_timestamp(revision: &str) -> (r: String)
    ensures
        r@ == before_char(revision@, '('),
{
    let v = chars_of(revision);
    let mut i: usize = 0;
    while i < v.len() && v[i] != '('
        invariant
            i <= v.len(),
            forall|j: int| 0 <= j < i ==> v@[j] != '(',
        decreases v.len() - i,
    {
        i += 1;
    }
    proof {
        lemma_before_char_at(v@, '(', i as int);
    }
    string_from_chars(&sub_chars(&v, 0, i))
}

/// Calendars in ascending lexicographic order of display name.
pub open spec fn sorted_by_name(s: Seq<CalendarInfo>) -> bool {
    forall|i: int, j: int|
        0 <= i < j < s.len() ==> lex_le(
            (#[trigger] s[i]).display_name@,
            (#[trigger] s[j]).display_name@,
        )
}

/// Sort calendars by display name for consistent ordering. The result is
/// a permutation of the input.
pub fn sort_calendars(v: Vec<CalendarInfo>) -> (r: Vec<CalendarInfo>)
    ensures
        sorted_by_name(r@),
        r@.to_multiset() == v@.to_multiset(),
{
    let ghost all = v@;
    let mut src = v;
    let mut out: Vec<CalendarInfo> = Vec::new();
    proof {
        broadcast use vstd::seq_lib::group_to_multiset_ensures;

        assert forall|a: CalendarInfo| out@.to_multiset().count(a) == 0 by {
            assert(!out@.contains(a));
        }
        assert(out@.to_multiset().add(src@.to_multiset()) =~= all.to_multiset());
    }
    while src.len() > 0
        invariant
            sorted_by_name(out@),
            out@.to_multiset().add(src@.to_multiset()) == all.to_multiset(),
        decreases src.len(),
    {
        let ghost src0 = src@;
        let m = src.remove(0);
        proof {
            broadcast use vstd::seq_lib::group_to_multiset_ensures;

            assert(src@ =~= src0.remove(0));
            assert(src0.remove(0).to_multiset() =~= src0.to_multiset().remove(src0[0]));
        }
        let name = chars_of(m.display_name.as_str());
        let mut idx: usize = 0;
        while idx < out.len() && lex_le_chars(&chars_of(out[idx].display_name.as_str()), &name)
            invariant
                idx <= out.len(),
                name@ == m.display_name@,
                forall|j: int|
                    0 <= j < idx ==> lex_le((#[trigger] out@[j]).display_name@, m.display_name@),
            decreases out.len() - idx,
        {
            idx += 1;
        }
        let ghost out0 = out@;
        out.insert(idx, m);
        proof {
            broadcast use vstd::seq_lib::group_to_multiset_ensures;

            assert(out@ == out0.insert(idx as int, m));
            lemma_insert_to_multiset(out0, idx as int, m);
            assert forall|i: int, j: int| 0 <= i < j < out@.len() implies lex_le(
                (#[trigger] out@[i]).display_name@,
                (#[trigger] out@[j]).display_name@,
            ) by {
                if idx < out0.len() {
                    lemma_lex_le_total(out0[idx as int].display_name@, m.display_name@);
                }
                if j < idx {
                    assert(out@[i] == out0[i]);
                    assert(out@[j] == out0[j]);
                } else if j == idx {
                    assert(out@[i] == out0[i]);
                    assert(out@[j] == m);
                } else if i < idx {
                    assert(out@[i] == out0[i]);
                    assert(out@[j] == out0[j - 1]);
                } else if i == idx {
                    assert(out@[i] == m);
                    assert(out@[j] == out0[j - 1]);
                    assert(lex_le(m.display_name@, out0[idx as int].display_name@));
                    if idx < j - 1 {
                        assert(lex_le(
                            out0[idx as int].display_name@,
                            out0[j - 1].display_name@,
                        ));
                        lemma_lex_le_trans(
                            m.display_name@,
                            out0[idx as int].display_name@,
                            out0[j - 1].display_name@,
                        );
                    }
                } else {
                    assert(out@[i] == out0[i - 1]);
                    assert(out@[j] == out0[j - 1]);
                }
            }
            assert(out@.to_multiset().add(src@.to_multiset()) =~= all.to_multiset());
        }
    }
    proof {
        broadcast use vstd::seq_lib::group_to_multiset_ensures;

        assert(src@ =~= Seq::<CalendarInfo>::empty());
        assert forall|a: CalendarInfo| src@.to_multiset().count(a) == 0 by {
            assert(!src@.contains(a));
        }
        assert(src@.to_multiset() =~= Multiset::<CalendarInfo>::empty());
        assert(out@.to_multiset() =~= all.to_multiset());
    }
    out
}

} // verus!
