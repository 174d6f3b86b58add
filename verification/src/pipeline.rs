//! The fetch orchestrator's pure core: selecting enabled sources,
//! assembling the user's identity emails, merging each source's meetings,
//! and ranking the result.

use vstd::prelude::*;
use vstd::multiset::Multiset;

use crate::ical::{meeting_admissible, meetings_from_record, record_result_matches};
use crate::model::Meeting;
use crate::text::{chars_of, lower_chars, lower_seq, spec_trim, trim_chars};

verus! {

/// Membership of a uid, compared by contents.
pub open spec fn uid_in(list: Seq<String>, u: Seq<char>) -> bool {
    exists|i: int| 0 <= i < list.len() && (#[trigger] list[i])@ == u
}

/// Whether `x` occurs in `list`, by string contents.
pub fn string_in(list: &Vec<String>, x: &String) -> (r: bool)
    ensures
        r == uid_in(list@, x@),
{
    let mut i: usize = 0;
    while i < list.len()
        invariant
            i <= list.len(),
            forall|j: int| 0 <= j < i ==> (#[trigger] list@[j])@ != x@,
        decreases list.len() - i,
    {
        if list[i].eq(x) {
            return true;
        }
        i += 1;
    }
    false
}

/// The uids that pass the enabled filter, keeping their order.
pub open spec fn spec_filter_enabled(uids: Seq<String>, enabled: Seq<String>) -> Seq<String>
    decreases uids.len(),
{
    if uids.len() == 0 {
        uids
    } else {
        let rest = spec_filter_enabled(uids.drop_first(), enabled);
        if uid_in(enabled, uids[0]@) {
            seq![uids[0]] + rest
        } else {
            rest
        }
    }
}

/// What `filter_enabled_uids` returns: all uids when no filter is set,
/// otherwise only the enabled ones.
pub open spec fn spec_enabled_selection(uids: Seq<String>, enabled: Seq<String>) -> Seq<String> {
    if enabled.len() == 0 {
        uids
    } else {
        spec_filter_enabled(uids, enabled)
    }
}

/// Keep only the calendar source uids that are enabled; an empty enabled
/// list enables every source.
pub fn filter_enabled_uids(uids: Vec<String>, enabled: &Vec<String>) -> (r: Vec<String>)
    ensures
        r@ == spec_enabled_selection(uids@, enabled@),
{
    if enabled.len() == 0 {
        return uids;
    }
    let mut out: Vec<String> = Vec::new();
    proof {
        assert(uids@.skip(0) =~= uids@);
        assert(out@ + spec_filter_enabled(uids@, enabled@) =~= spec_filter_enabled(
            uids@,
            enabled@,
        ));
    }
    let mut i: usize = 0;
    while i < uids.len()
        invariant
            i <= uids.len(),
            out@ + spec_filter_enabled(uids@.skip(i as int), enabled@) == spec_filter_enabled(
                uids@,
                enabled@,
            ),
        decreases uids.len() - i,
    {
        let ghost cur = uids@.skip(i as int);
        proof {
            assert(cur[0] == uids@[i as int]);
            assert(cur.drop_first() =~= uids@.skip(i as int + 1));
        }
        let ghost out0 = out@;
        if string_in(enabled, &uids[i]) {
            out.push(uids[i].clone());
            proof {
                assert(uids@[i as int]@ == uids[i as int]@);
                assert(out@ =~= out0 + seq![uids@[i as int]]);
                assert(out@ + spec_filter_enabled(uids@.skip(i as int + 1), enabled@) =~= out0
                    + spec_filter_enabled(cur, enabled@));
            }
        } else {
            proof {
                assert(out@ + spec_filter_enabled(uids@.skip(i as int + 1), enabled@) =~= out0
                    + spec_filter_enabled(cur, enabled@));
            }
        }
        i += 1;
    }
    proof {
        assert(uids@.skip(uids@.len() as int) =~= Seq::<String>::empty());
        assert(out@ + Seq::<String>::empty() =~= out@);
    }
    out
}

/// Whether an email equal to `e` up to ASCII case is already present.
pub open spec fn has_email_ci(list: Seq<String>, e: Seq<char>) -> bool {
    exists|i: int| 0 <= i < list.len() && lower_seq((#[trigger] list[i])@) == lower_seq(e)
}

/// The emails that are not blank after trimming, kept in order.
pub open spec fn spec_nonblank(emails: Seq<String>) -> Seq<String>
    decreases emails.len(),
{
    if emails.len() == 0 {
        emails
    } else {
        let rest = spec_nonblank(emails.drop_first());
        if spec_trim(emails[0]@).len() > 0 {
            seq![emails[0]] + rest
        } else {
            rest
        }
    }
}

/// What `build_user_emails` returns: the non-blank extra emails, with the
/// calendar's own identity email appended when it is non-empty and not
/// already present up to ASCII case.
pub open spec fn spec_build_user_emails(additional: Seq<String>, cal_email: Option<String>) -> Seq<
    String,
> {
    let base = spec_nonblank(additional);
    match cal_email {
        Some(e) => if e@.len() > 0 && !has_email_ci(base, e@) {
            base.push(e)
        } else {
            base
        },
        None => base,
    }
}

/// Combine the user-supplied extra emails with a calendar's identity
/// email into the list the attendance classifier matches against.
pub fn build_user_emails(additional: &Vec<String>, cal_email: &Option<String>) -> (r: Vec<
    String,
>)
    ensures
        r@ == spec_build_user_emails(additional@, *cal_email),
{
    let mut out: Vec<String> = Vec::new();
    proof {
        assert(additional@.skip(0) =~= additional@);
        assert(out@ + spec_nonblank(additional@) =~= spec_nonblank(additional@));
    }
    let mut i: usize = 0;
    while i < additional.len()
        invariant
            i <= additional.len(),
            out@ + spec_nonblank(additional@.skip(i as int)) == spec_nonblank(additional@),
        decreases additional.len() - i,
    {
        let ghost cur = additional@.skip(i as int);
        proof {
            assert(cur[0] == additional@[i as int]);
            assert(cur.drop_first() =~= additional@.skip(i as int + 1));
        }
        let ghost out0 = out@;
        let trimmed = trim_chars(&chars_of(additional[i].as_str()));
        if trimmed.len() > 0 {
            out.push(additional[i].clone());
            proof {
                assert(out@ =~= out0 + seq![additional@[i as int]]);
                assert(out@ + spec_nonblank(additional@.skip(i as int + 1)) =~= out0
                    + spec_nonblank(cur));
            }
        } else {
            proof {
                assert(out@ + spec_nonblank(additional@.skip(i as int + 1)) =~= out0
                    + spec_nonblank(cur));
            }
        }
        i += 1;
    }
    proof {
        assert(additional@.skip(additional@.len() as int) =~= Seq::<String>::empty());
        assert(out@ + Seq::<String>::empty() =~= out@);
    }
    let email = match cal_email {
        Some(e) => e.clone(),
        None => {
            return out;
        },
    };
    if email.as_str().is_empty() {
        return out;
    }
    let email_lower = lower_chars(&chars_of(email.as_str()));
    let mut k: usize = 0;
    while k < out.len()
        invariant
            k <= out.len(),
            forall|j: int| 0 <= j < k ==> lower_seq((#[trigger] out@[j])@) != lower_seq(email@),
            email_lower@ == lower_seq(email@),
            out@ == spec_nonblank(additional@),
            *cal_email is Some && email == cal_email->0,
            email@.len() > 0,
        decreases out.len() - k,
    {
        let existing = lower_chars(&chars_of(out[k].as_str()));
        if crate::text::chars_equal(&existing, &email_lower) {
            proof {
                assert(has_email_ci(out@, email@));
            }
            return out;
        }
        k += 1;
    }
    proof {
        if has_email_ci(out@, email@) {
            let j = choose|j: int|
                0 <= j < out@.len() && lower_seq((#[trigger] out@[j])@) == lower_seq(email@);
            assert(false);
        }
    }
    out.push(email);
    out
}

/// Meetings in ascending order of their start instant.
pub open spec fn sorted_by_start(s: Seq<Meeting>) -> bool {
    forall|i: int, j: int|
        0 <= i < j < s.len() ==> (#[trigger] s[i]).start.epoch <= (#[trigger] s[j]).start.epoch
}

pub(crate) proof fn lemma_insert_to_multiset<A>(s: Seq<A>, i: int, v: A)
    requires
        0 <= i <= s.len(),
    ensures
        s.insert(i, v).to_multiset() == s.to_multiset().insert(v),
{
    broadcast use vstd::seq_lib::group_to_multiset_ensures;

    let ins = s.insert(i, v);
    assert(ins =~= s.take(i) + (seq![v] + s.skip(i)));
    assert(s =~= s.take(i) + s.skip(i));
    vstd::seq_lib::lemma_multiset_commutative(s.take(i), seq![v] + s.skip(i));
    vstd::seq_lib::lemma_multiset_commutative(seq![v], s.skip(i));
    vstd::seq_lib::lemma_multiset_commutative(s.take(i), s.skip(i));
    assert(seq![v] =~= Seq::<A>::empty().push(v));
    assert forall|a: A| Seq::<A>::empty().to_multiset().count(a) == 0 by {
        assert(!Seq::<A>::empty().contains(a));
    }
    assert(Seq::<A>::empty().to_multiset() =~= Multiset::<A>::empty());
    assert(seq![v].to_multiset() =~= Multiset::<A>::empty().insert(v));
    assert(ins.to_multiset() =~= s.to_multiset().insert(v));
}

/// A meeting inserted after every meeting that starts no later: the
/// stable insertion step.
pub open spec fn spec_insert_meeting(s: Seq<Meeting>, m: Meeting) -> Seq<Meeting>
    decreases s.len(),
{
    if s.len() > 0 && s[0].start.epoch <= m.start.epoch {
        seq![s[0]] + spec_insert_meeting(s.drop_first(), m)
    } else {
        seq![m] + s
    }
}

/// The stable ascending-by-start ordering of `s`: meetings with equal
/// starts keep their input order.
pub open spec fn sort_meetings_spec(s: Seq<Meeting>) -> Seq<Meeting>
    decreases s.len(),
{
    if s.len() == 0 {
        s
    } else {
        spec_insert_meeting(sort_meetings_spec(s.drop_last()), s.last())
    }
}

proof fn lemma_spec_insert_at(s: Seq<Meeting>, m: Meeting, idx: int)
    requires
        0 <= idx <= s.len(),
        forall|j: int| 0 <= j < idx ==> (#[trigger] s[j]).start.epoch <= m.start.epoch,
        idx < s.len() ==> s[idx].start.epoch > m.start.epoch,
    ensures
        spec_insert_meeting(s, m) == s.insert(idx, m),
    decreases idx,
{
    if idx == 0 {
        assert(s.insert(0, m) =~= seq![m] + s);
    } else {
        assert(s[0].start.epoch <= m.start.epoch);
        lemma_spec_insert_at(s.drop_first(), m, idx - 1);
        assert(forall|j: int|
            0 <= j < idx - 1 ==> (#[trigger] s.drop_first()[j]).start.epoch <= m.start.epoch);
        assert(seq![s[0]] + s.drop_first().insert(idx - 1, m) =~= s.insert(idx, m));
    }
}

/// Sort meetings ascending by start instant, stably: the result is the
/// stable ordering of the input, a sorted permutation of it.
pub fn sort_meetings_by_start(v: Vec<Meeting>) -> (r: Vec<Meeting>)
    ensures
        r@ == sort_meetings_spec(v@),
        sorted_by_start(r@),
        r@.to_multiset() == v@.to_multiset(),
{
    broadcast use vstd::seq_lib::group_to_multiset_ensures;

    let ghost all = v@;
    let mut src = v;
    let mut out: Vec<Meeting> = Vec::new();
    proof {
        assert(out@.to_multiset().add(src@.to_multiset()) =~= all.to_multiset());
        assert(src@ =~= all.skip(0));
        assert(all.take(0) =~= Seq::<Meeting>::empty());
    }
    while src.len() > 0
        invariant
            sorted_by_start(out@),
            out@.to_multiset().add(src@.to_multiset()) == all.to_multiset(),
            out@.len() + src@.len() == all.len(),
            src@ == all.skip(out@.len() as int),
            out@ == sort_meetings_spec(all.take(out@.len() as int)),
        decreases src.len(),
    {
        let ghost src0 = src@;
        let ghost p = out@.len() as int;
        let m = src.remove(0);
        proof {
            broadcast use vstd::seq_lib::group_to_multiset_ensures;

            assert(src@ =~= src0.remove(0));
            assert(src0.remove(0).to_multiset() =~= src0.to_multiset().remove(src0[0]));
            assert(m == all[p]);
            assert(src@ =~= all.skip(p + 1));
        }
        let mut idx: usize = 0;
        while idx < out.len() && out[idx].start.epoch <= m.start.epoch
            invariant
                idx <= out.len(),
                forall|j: int| 0 <= j < idx ==> (#[trigger] out@[j]).start.epoch <= m.start.epoch,
            decreases out.len() - idx,
        {
            idx += 1;
        }
        let ghost out0 = out@;
        out.insert(idx, m);
        proof {
            broadcast use vstd::seq_lib::group_to_multiset_ensures;

            assert(out@ == out0.insert(idx as int, m));
            lemma_insert_to_multiset(out0, idx as int, m);
            lemma_spec_insert_at(out0, m, idx as int);
            assert(all.take(p + 1).drop_last() =~= all.take(p));
            assert(all.take(p + 1).last() == all[p]);
            assert(sort_meetings_spec(all.take(p + 1)) == spec_insert_meeting(
                sort_meetings_spec(all.take(p)),
                all[p],
            ));
            assert(out@ == sort_meetings_spec(all.take(p + 1)));
            assert forall|i: int, j: int| 0 <= i < j < out@.len() implies (#[trigger] out@[i]).start.epoch
                <= (#[trigger] out@[j]).start.epoch by {
                if j < idx {
                    assert(out@[i] == out0[i]);
                    assert(out@[j] == out0[j]);
                } else if j == idx {
                    assert(out@[i] == out0[i]);
                    assert(out@[j] == m);
                } else if i < idx {
                    assert(out@[i] == out0[i]);
                    assert(out@[j] == out0[j - 1]);
                } else if i == idx {
                    assert(out@[i] == m);
                    assert(out@[j] == out0[j - 1]);
                    assert(m.start.epoch < out0[idx as int].start.epoch);
                    assert(out0[idx as int].start.epoch <= out0[j - 1].start.epoch);
                } else {
                    assert(out@[i] == out0[i - 1]);
                    assert(out@[j] == out0[j - 1]);
                }
            }
            assert(out@.to_multiset().add(src@.to_multiset()) =~= all.to_multiset());
        }
    }
    proof {
        broadcast use vstd::seq_lib::group_to_multiset_ensures;

        assert(src@ =~= Seq::<Meeting>::empty());
        assert forall|a: Meeting| src@.to_multiset().count(a) == 0 by {
            assert(!src@.contains(a));
        }
        assert(src@.to_multiset() =~= Multiset::<Meeting>::empty());
        assert(out@.to_multiset() =~= all.to_multiset());
        assert(all.take(out@.len() as int) =~= all);
    }
    out
}

/// One queried calendar source: its uid, its identity email, and the raw
/// records its time-range query returned.
pub struct SourceRecords {
    pub uid: String,
    pub cal_email: Option<String>,
    pub records: Vec<String>,
}

/// What one source's records contribute: the concatenation, in record
/// order, of each record's meetings.
pub open spec fn source_matches(
    records: Seq<String>,
    disp: Seq<char>,
    uid: Seq<char>,
    user_emails: Seq<String>,
    now: i64,
    query_start: i64,
    r: Seq<Meeting>,
) -> bool {
    exists|segs: Seq<Seq<Meeting>>|
        {
            &&& segs.len() == records.len()
            &&& forall|i: int|
                0 <= i < records.len() ==> record_result_matches(
                    (#[trigger] records[i])@,
                    disp,
                    uid,
                    user_emails,
                    now,
                    query_start,
                    segs[i],
                )
            &&& r == #[trigger] segs.flatten()
        }
}

/// What one source contributes to the merged list: nothing when the
/// enabled filter excludes it, otherwise its records' meetings, matched
/// against the user emails built from the extra emails and its own
/// identity email.
pub open spec fn source_contribution(
    src: SourceRecords,
    enabled: Seq<String>,
    additional: Seq<String>,
    now: i64,
    query_start: i64,
    disp: Seq<char>,
    seg: Seq<Meeting>,
) -> bool {
    if enabled.len() > 0 && !uid_in(enabled, src.uid@) {
        seg.len() == 0
    } else {
        source_matches(
            src.records@,
            disp,
            src.uid@,
            spec_build_user_emails(additional, src.cal_email),
            now,
            query_start,
            seg,
        )
    }
}

/// Whether `all` is the concatenation, in source order, of every source's
/// contribution.
pub open spec fn collect_matches(
    sources: Seq<SourceRecords>,
    enabled: Seq<String>,
    additional: Seq<String>,
    now: i64,
    query_start: i64,
    disp: Seq<char>,
    all: Seq<Meeting>,
) -> bool {
    exists|segs: Seq<Seq<Meeting>>|
        {
            &&& segs.len() == sources.len()
            &&& forall|i: int|
                0 <= i < sources.len() ==> source_contribution(
                    #[trigger] sources[i],
                    enabled,
                    additional,
                    now,
                    query_start,
                    disp,
                    segs[i],
                )
            &&& all == #[trigger] segs.flatten()
        }
}

/// The number of meetings the caller asked for: at least one.
pub open spec fn effective_limit_of(limit: usize) -> int {
    if limit == 0 {
        1
    } else {
        limit as int
    }
}

/// What the ranker returns: the first `min(limit, n)` meetings of the
/// stable ascending-by-start ordering of the `n` surviving meetings. No
/// survivor that was dropped starts earlier than any returned meeting.
pub open spec fn spec_rank(all: Seq<Meeting>, limit: usize) -> Seq<Meeting> {
    if effective_limit_of(limit) <= sort_meetings_spec(all).len() {
        sort_meetings_spec(all).take(effective_limit_of(limit))
    } else {
        sort_meetings_spec(all)
    }
}

/// Assemble the upcoming-meetings list out of each enabled source's raw
/// records: parse and expand every record, filter by the inclusion
/// policy, merge, sort ascending by start, and keep at most
/// `max(limit, 1)` meetings.
///
/// The result is the ranking of exactly the enabled sources' records'
/// meetings; every returned meeting is well-formed, lies inside the
/// inclusion window, and belongs to an enabled source.
pub fn collect_meetings(
    sources: Vec<SourceRecords>,
    enabled_uids: &Vec<String>,
    additional_emails: &Vec<String>,
    limit: usize,
    now: i64,
    query_start: i64,
    disp: &str,
) -> (r: Vec<Meeting>)
    ensures
        exists|all: Seq<Meeting>|
            #[trigger] collect_matches(
                sources@,
                enabled_uids@,
                additional_emails@,
                now,
                query_start,
                disp@,
                all,
            ) && r@ == spec_rank(all, limit),
        sorted_by_start(r@),
        r@.len() <= effective_limit_of(limit),
        forall|k: int|
            0 <= k < r@.len() ==> (#[trigger] r@[k]).wf() && crate::filter::spec_should_include(
                r@[k].start.epoch,
                r@[k].end.epoch,
                now,
                query_start,
            ) && (enabled_uids@.len() > 0 ==> uid_in(enabled_uids@, r@[k].calendar_uid@)),
{
    broadcast use vstd::seq::Seq::lemma_flatten_push;

    let mut all: Vec<Meeting> = Vec::new();
    let ghost mut src_segs = Seq::<Seq<Meeting>>::empty();
    let mut si: usize = 0;
    proof {
        assert(src_segs.flatten() =~= all@);
    }
    while si < sources.len()
        invariant
            si <= sources.len(),
            src_segs.len() == si,
            forall|i: int|
                0 <= i < si ==> source_contribution(
                    #[trigger] sources@[i],
                    enabled_uids@,
                    additional_emails@,
                    now,
                    query_start,
                    disp@,
                    src_segs[i],
                ),
            all@ == src_segs.flatten(),
            forall|k: int|
                0 <= k < all@.len() ==> (#[trigger] all@[k]).wf()
                    && crate::filter::spec_should_include(
                    all@[k].start.epoch,
                    all@[k].end.epoch,
                    now,
                    query_start,
                ) && (enabled_uids@.len() > 0 ==> uid_in(enabled_uids@, all@[k].calendar_uid@)),
        decreases sources.len() - si,
    {
        broadcast use vstd::seq::Seq::lemma_flatten_push;

        let ghost gi = si as int;
        let source = &sources[si];
        si += 1;
        if enabled_uids.len() > 0 && !string_in(enabled_uids, &source.uid) {
            proof {
                assert(src_segs.push(Seq::<Meeting>::empty()).flatten() =~= all@);
                src_segs = src_segs.push(Seq::<Meeting>::empty());
                assert(source_contribution(
                    sources@[gi],
                    enabled_uids@,
                    additional_emails@,
                    now,
                    query_start,
                    disp@,
                    src_segs[gi],
                ));
            }
            continue ;
        }
        let user_emails = build_user_emails(additional_emails, &source.cal_email);
        let mut seg: Vec<Meeting> = Vec::new();
        let ghost mut rec_segs = Seq::<Seq<Meeting>>::empty();
        proof {
            assert(rec_segs.flatten() =~= seg@);
        }
        let mut ri: usize = 0;
        while ri < source.records.len()
            invariant
                ri <= source.records.len(),
                rec_segs.len() == ri,
                user_emails@ == spec_build_user_emails(additional_emails@, source.cal_email),
                forall|i: int|
                    0 <= i < ri ==> record_result_matches(
                        (#[trigger] source.records@[i])@,
                        disp@,
                        source.uid@,
                        user_emails@,
                        now,
                        query_start,
                        rec_segs[i],
                    ),
                seg@ == rec_segs.flatten(),
                forall|k: int|
                    0 <= k < seg@.len() ==> meeting_admissible(
                        #[trigger] seg@[k],
                        source.uid@,
                        now,
                        query_start,
                    ),
            decreases source.records.len() - ri,
        {
            broadcast use vstd::seq::Seq::lemma_flatten_push;

            let mut ms = meetings_from_record(
                source.records[ri].as_str(),
                disp,
                source.uid.as_str(),
                &user_emails,
                now,
                query_start,
            );
            let ghost ms0 = ms@;
            let ghost seg0 = seg@;
            seg.append(&mut ms);
            proof {
                assert(rec_segs.push(ms0).flatten() =~= seg@);
                rec_segs = rec_segs.push(ms0);
                assert forall|k: int| 0 <= k < seg@.len() implies meeting_admissible(
                    #[trigger] seg@[k],
                    source.uid@,
                    now,
                    query_start,
                ) by {
                    if k < seg0.len() {
                        assert(seg@[k] == seg0[k]);
                    } else {
                        assert(seg@[k] == ms0[k - seg0.len()]);
                    }
                }
            }
            ri += 1;
        }
        let ghost seg_view = seg@;
        let ghost all0 = all@;
        all.append(&mut seg);
        proof {
            assert(seg_view == rec_segs.flatten());
            assert(source_matches(
                source.records@,
                disp@,
                source.uid@,
                user_emails@,
                now,
                query_start,
                seg_view,
            ));
            assert(source_contribution(
                sources@[gi],
                enabled_uids@,
                additional_emails@,
                now,
                query_start,
                disp@,
                seg_view,
            ));
            assert(src_segs.push(seg_view).flatten() =~= all@);
            src_segs = src_segs.push(seg_view);
            assert forall|k: int| 0 <= k < all@.len() implies (#[trigger] all@[k]).wf()
                && crate::filter::spec_should_include(
                all@[k].start.epoch,
                all@[k].end.epoch,
                now,
                query_start,
            ) && (enabled_uids@.len() > 0 ==> uid_in(enabled_uids@, all@[k].calendar_uid@)) by {
                if k < all0.len() {
                    assert(all@[k] == all0[k]);
                } else {
                    assert(all@[k] == seg_view[k - all0.len()]);
                    assert(meeting_admissible(seg_view[k - all0.len()], source.uid@, now, query_start));
                }
            }
        }
    }
    let ghost all_seq = all@;
    proof {
        assert(all_seq == src_segs.flatten());
        assert(collect_matches(
            sources@,
            enabled_uids@,
            additional_emails@,
            now,
            query_start,
            disp@,
            all_seq,
        ));
    }
    let mut out = sort_meetings_by_start(all);
    let ghost sorted_seq = out@;
    let effective_limit: usize = if limit == 0 {
        1
    } else {
        limit
    };
    out.truncate(effective_limit);
    proof {
        broadcast use vstd::seq_lib::group_to_multiset_ensures;

        if effective_limit <= sorted_seq.len() {
            assert(out@ == sorted_seq.subrange(0, effective_limit as int));
            assert(out@ =~= sorted_seq.take(effective_limit as int));
        }
        assert(out@ == spec_rank(all_seq, limit));
        assert forall|k: int| 0 <= k < out@.len() implies (#[trigger] out@[k]).wf()
            && crate::filter::spec_should_include(
            out@[k].start.epoch,
            out@[k].end.epoch,
            now,
            query_start,
        ) && (enabled_uids@.len() > 0 ==> uid_in(enabled_uids@, out@[k].calendar_uid@)) by {
            assert(out@[k] == sorted_seq[k]);
            assert(sorted_seq.contains(sorted_seq[k]));
            assert(sorted_seq.to_multiset().count(sorted_seq[k]) > 0);
            assert(all_seq.to_multiset().count(sorted_seq[k]) > 0);
            assert(all_seq.contains(sorted_seq[k]));
            let j = choose|j: int| 0 <= j < all_seq.len() && all_seq[j] == sorted_seq[k];
            assert(all_seq[j].wf());
        }
    }
    out
}

} // verus!
