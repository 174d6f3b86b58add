//! Classification of the user's RSVP status from a record's `ATTENDEE`
//! entries.

use vstd::prelude::*;

use crate::model::{attendee_view, Attendee, AttendeeModel, AttendanceStatus, PartStat};
use crate::text::{
    chars_equal, chars_of, lower_chars, lower_seq, spec_starts_with, starts_with_chars, sub_chars,
};

verus! {

/// `s` with every leading repetition of `p` removed.
pub open spec fn strip_repeated_prefix(s: Seq<char>, p: Seq<char>) -> Seq<char>
    decreases s.len(),
{
    if p.len() > 0 && spec_starts_with(s, p) {
        strip_repeated_prefix(s.skip(p.len() as int), p)
    } else {
        s
    }
}

/// The lowercased email an attendee entry identifies: the explicit email
/// parameter when present, otherwise a `mailto:` URI value.
pub open spec fn model_identity(a: AttendeeModel) -> Option<Seq<char>> {
    match a.email {
        Some(e) => Some(lower_seq(e)),
        None => match a.uri {
            Some(u) => if spec_starts_with(lower_seq(u), "mailto:"@) {
                Some(strip_repeated_prefix(lower_seq(u), "mailto:"@))
            } else {
                None
            },
            None => None,
        },
    }
}

/// The identity of an attendee value, through its content.
pub open spec fn attendee_identity(a: Attendee) -> Option<Seq<char>> {
    model_identity(attendee_view(a))
}

/// Whether the attendee is the user: its identity matches one of the
/// lowercased user emails.
pub open spec fn is_user_model(a: AttendeeModel, emails_lower: Seq<Seq<char>>) -> bool {
    match model_identity(a) {
        Some(id) => emails_lower.contains(id),
        None => false,
    }
}

pub open spec fn is_user_attendee(a: Attendee, emails_lower: Seq<Seq<char>>) -> bool {
    is_user_model(attendee_view(a), emails_lower)
}

/// The attendance a participation status maps to; unmapped or absent
/// statuses give no attendance info.
pub open spec fn status_of_partstat(p: Option<PartStat>) -> AttendanceStatus {
    match p {
        Some(PartStat::Accepted) => AttendanceStatus::Accepted,
        Some(PartStat::Tentative) => AttendanceStatus::Tentative,
        Some(PartStat::Declined) => AttendanceStatus::Declined,
        Some(PartStat::NeedsAction) => AttendanceStatus::NeedsAction,
        Some(PartStat::Other) => AttendanceStatus::NoStatus,
        None => AttendanceStatus::NoStatus,
    }
}

/// The status of the first attendee that is the user; later entries do not
/// matter.
pub open spec fn classify_in_list(
    attendees: Seq<Attendee>,
    emails_lower: Seq<Seq<char>>,
) -> AttendanceStatus
    decreases attendees.len(),
{
    if attendees.len() == 0 {
        AttendanceStatus::NoStatus
    } else if is_user_attendee(attendees[0], emails_lower) {
        status_of_partstat(attendees[0].partstat)
    } else {
        classify_in_list(attendees.drop_first(), emails_lower)
    }
}

/// The status of the first attendee content that is the user; later
/// entries do not matter.
pub open spec fn classify_models(
    attendees: Seq<AttendeeModel>,
    emails_lower: Seq<Seq<char>>,
) -> AttendanceStatus
    decreases attendees.len(),
{
    if attendees.len() == 0 {
        AttendanceStatus::NoStatus
    } else if is_user_model(attendees[0], emails_lower) {
        status_of_partstat(attendees[0].partstat)
    } else {
        classify_models(attendees.drop_first(), emails_lower)
    }
}

/// Classification reads only the attendees' content.
pub proof fn lemma_classify_view(attendees: Seq<Attendee>, emails_lower: Seq<Seq<char>>)
    ensures
        classify_models(attendees.map_values(|a: Attendee| attendee_view(a)), emails_lower)
            == classify_in_list(attendees, emails_lower),
    decreases attendees.len(),
{
    let models = attendees.map_values(|a: Attendee| attendee_view(a));
    if attendees.len() > 0 {
        assert(models[0] == attendee_view(attendees[0]));
        if !is_user_attendee(attendees[0], emails_lower) {
            lemma_classify_view(attendees.drop_first(), emails_lower);
            assert(models.drop_first() =~= attendees.drop_first().map_values(
                |a: Attendee| attendee_view(a),
            ));
        }
    }
}

/// The user emails, each lowercased.
pub open spec fn lowered_emails(user_emails: Seq<String>) -> Seq<Seq<char>> {
    user_emails.map_values(|e: String| lower_seq(e@))
}

/// What the classifier decides for attendee contents: no user emails
/// means no status, otherwise the first matching attendee decides,
/// comparing emails case-insensitively.
pub open spec fn spec_classify_models(
    attendees: Seq<AttendeeModel>,
    user_emails: Seq<String>,
) -> AttendanceStatus {
    if user_emails.len() == 0 {
        AttendanceStatus::NoStatus
    } else {
        classify_models(attendees, lowered_emails(user_emails))
    }
}

/// Classification of attendee values and of their contents agree.
pub proof fn lemma_spec_classify_view(attendees: Seq<Attendee>, user_emails: Seq<String>)
    ensures
        spec_classify_models(
            attendees.map_values(|a: Attendee| attendee_view(a)),
            user_emails,
        ) == spec_classify(attendees, user_emails),
{
    if user_emails.len() > 0 {
        lemma_classify_view(attendees, lowered_emails(user_emails));
    }
}

/// What `classify_attendance` returns: no user emails means no status,
/// otherwise the first matching attendee decides, comparing emails
/// case-insensitively.
pub open spec fn spec_classify(
    attendees: Seq<Attendee>,
    user_emails: Seq<String>,
) -> AttendanceStatus {
    if user_emails.len() == 0 {
        AttendanceStatus::NoStatus
    } else {
        classify_in_list(attendees, lowered_emails(user_emails))
    }
}

fn attendee_identity_exec(a: &Attendee) -> (r: Option<Vec<char>>)
    ensures
        match r {
            Some(v) => attendee_identity(*a) == Some(v@),
            None => attendee_identity(*a) is None,
        },
{
    match &a.email {
        Some(e) => Some(lower_chars(&chars_of(e.as_str()))),
        None => match &a.uri {
            Some(u) => {
                let mut cur = lower_chars(&chars_of(u.as_str()));
                let prefix = chars_of("mailto:");
                proof {
                    reveal_strlit("mailto:");
                }
                if starts_with_chars(&cur, &prefix) {
                    while starts_with_chars(&cur, &prefix)
                        invariant
                            prefix@ == "mailto:"@,
                            prefix@.len() == 7,
                            strip_repeated_prefix(cur@, prefix@) == strip_repeated_prefix(
                                lower_seq(u@),
                                prefix@,
                            ),
                        decreases cur@.len(),
                    {
                        cur = sub_chars(&cur, prefix.len(), cur.len());
                    }
                    Some(cur)
                } else {
                    None
                }
            },
            None => None,
        },
    }
}

fn contains_word(list: &Vec<Vec<char>>, x: &Vec<char>) -> (r: bool)
    ensures
        r == exists|j: int| 0 <= j < list@.len() && (#[trigger] list@[j])@ == x@,
{
    let mut i: usize = 0;
    while i < list.len()
        invariant
            i <= list.len(),
            forall|j: int| 0 <= j < i ==> (#[trigger] list@[j])@ != x@,
        decreases list.len() - i,
    {
        if chars_equal(&list[i], x) {
            return true;
        }
        i += 1;
    }
    false
}

/// Derive the user's RSVP status for an event from its attendee entries.
///
/// With no user emails the result is always `NoStatus`. Otherwise each
/// attendee's email (explicit parameter, or a `mailto:` value) is compared
/// case-insensitively against the user emails; the first match decides,
/// with its participation status mapped to [`AttendanceStatus`].
pub fn classify_attendance(attendees: &Vec<Attendee>, user_emails: &Vec<String>) -> (r:
    AttendanceStatus)
    ensures
        r == spec_classify(attendees@, user_emails@),
{
    if user_emails.len() == 0 {
        return AttendanceStatus::NoStatus;
    }
    let ghost emails_lower = lowered_emails(user_emails@);
    let mut lowered: Vec<Vec<char>> = Vec::new();
    let mut i: usize = 0;
    while i < user_emails.len()
        invariant
            i <= user_emails.len(),
            lowered@.len() == i,
            forall|j: int| 0 <= j < i ==> (#[trigger] lowered@[j])@ == emails_lower[j],
            emails_lower == lowered_emails(user_emails@),
        decreases user_emails.len() - i,
    {
        let ec = chars_of(user_emails[i].as_str());
        let low = lower_chars(&ec);
        proof {
            assert(low@ == lower_seq(user_emails@[i as int]@));
            assert(emails_lower[i as int] == lower_seq(user_emails@[i as int]@));
        }
        lowered.push(low);
        i += 1;
    }
    proof {
        assert(emails_lower.len() == user_emails@.len());
        assert(attendees@.skip(0) =~= attendees@);
    }
    let mut k: usize = 0;
    while k < attendees.len()
        invariant
            k <= attendees.len(),
            user_emails@.len() > 0,
            emails_lower == lowered_emails(user_emails@),
            lowered@.len() == emails_lower.len(),
            forall|j: int| 0 <= j < emails_lower.len() ==> (#[trigger] lowered@[j])@
                == emails_lower[j],
            classify_in_list(attendees@.skip(k as int), emails_lower) == classify_in_list(
                attendees@,
                emails_lower,
            ),
        decreases attendees.len() - k,
    {
        let ghost cur = attendees@.skip(k as int);
        proof {
            assert(cur[0] == attendees@[k as int]);
            assert(cur.drop_first() =~= attendees@.skip(k as int + 1));
        }
        let ident = attendee_identity_exec(&attendees[k]);
        let matched = match &ident {
            Some(id) => {
                let m = contains_word(&lowered, id);
                proof {
                    if m {
                        let j = choose|j: int|
                            0 <= j < lowered@.len() && (#[trigger] lowered@[j])@ == id@;
                        assert(emails_lower[j] == id@);
                        assert(emails_lower.contains(id@));
                    } else {
                        if emails_lower.contains(id@) {
                            let j = choose|j: int|
                                0 <= j < emails_lower.len() && emails_lower[j] == id@;
                            assert((lowered@[j])@ == id@);
                            assert(false);
                        }
                    }
                }
                m
            },
            None => false,
        };
        if matched {
            let ps = attendees[k].partstat;
            proof {
                assert(ps == attendees@[k as int].partstat);
                assert(is_user_attendee(cur[0], emails_lower));
                assert(classify_in_list(cur, emails_lower) == status_of_partstat(ps));
            }
            let decided = match ps {
                Some(PartStat::Accepted) => AttendanceStatus::Accepted,
                Some(PartStat::Tentative) => AttendanceStatus::Tentative,
                Some(PartStat::Declined) => AttendanceStatus::Declined,
                Some(PartStat::NeedsAction) => AttendanceStatus::NeedsAction,
                Some(PartStat::Other) => AttendanceStatus::NoStatus,
                None => AttendanceStatus::NoStatus,
            };
            proof {
                assert(decided == status_of_partstat(ps));
            }
            return decided;
        }
        proof {
            assert(!is_user_attendee(cur[0], emails_lower));
        }
        k += 1;
    }
    proof {
        assert(attendees@.skip(attendees@.len() as int) =~= Seq::<Attendee>::empty());
    }
    AttendanceStatus::NoStatus
}

} // verus!
