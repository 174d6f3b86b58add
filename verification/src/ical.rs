//! The iCalendar record boundary: parsing raw records and expanding
//! recurring events through the calcard library, and assembling verified
//! [`Meeting`] values from what comes back.
//!
//! What a parsed record holds is captured by two names: `ical_model`, the
//! per-component properties of a parsed value, and `parsed_model`, the
//! same as a function of the record text. Every contract downstream is
//! stated over them, so what each meeting carries is pinned to the record
//! text.

use vstd::prelude::*;
use vstd::multiset::Multiset;

use calcard::icalendar::dates::TimeOrDelta;
use calcard::icalendar::{
    ICalendar, ICalendarComponentType, ICalendarParameterName, ICalendarParameterValue,
    ICalendarParticipationStatus, ICalendarProperty, ICalendarValue, ICalendarValueType, Uri,
};

use crate::attendance::{classify_attendance, lemma_spec_classify_view, spec_classify_models};
use crate::datetime::{epoch_to_zone_wall, format_compact, spec_compact_of, zone_wall};
use crate::filter::{should_include_meeting, spec_should_include};
use crate::model::{attendee_view, Attendee, AttendeeModel, LocalTime, Meeting, PartStat};
use crate::text::{chars_of, spec_starts_with, spec_trim, starts_with_chars, string_from_chars, trim_chars};

verus! {

/// Cap on expanded occurrences per record, bounding worst-case cost.
pub const EXPANSION_LIMIT: usize = 100;

#[verifier::external_type_specification]
#[verifier::external_body]
pub struct ExICalendar(ICalendar);

/// What one component of a parsed record holds, as plain values: the
/// parts of the record that the engine reads.
pub ghost struct EventModel {
    /// Whether the component is a `VEVENT`.
    pub is_vevent: bool,
    /// The first text value of `UID`.
    pub uid: Option<Seq<char>>,
    /// The first text value of `SUMMARY`.
    pub summary: Option<Seq<char>>,
    /// The first text value of `LOCATION`.
    pub location: Option<Seq<char>>,
    /// The first text value of `DESCRIPTION`.
    pub description: Option<Seq<char>>,
    /// Whether the component carries an `RRULE` property.
    pub has_rrule: bool,
    /// Whether `DTSTART` carries a `VALUE=DATE` parameter.
    pub date_param: bool,
    /// Whether `DTSTART`'s parsed value has no time component.
    pub no_time: bool,
    /// The `ATTENDEE` entries, in order.
    pub attendees: Seq<AttendeeModel>,
}

/// What a parsed calendar value holds: one model per component, in
/// component order.
pub uninterp spec fn ical_model(cal: ICalendar) -> Seq<EventModel>;

/// What parsing a record text yields, as the component models; `None`
/// when the text is not a calendar record. Parsing is deterministic, so
/// this is a function of the text alone.
pub uninterp spec fn parsed_model(raw: Seq<char>) -> Option<Seq<EventModel>>;

/// Relies on `calcard::icalendar::ICalendar::parse`: a deterministic
/// parser, whose result's components carry the model of the text.
#[verifier::external_body]
fn ical_parse(raw: &str) -> (r: Option<ICalendar>)
    ensures
        match r {
            Some(cal) => parsed_model(raw@) == Some(ical_model(cal)),
            None => parsed_model(raw@) is None,
        },
{
    ICalendar::parse(raw).ok()
}

/// Relies on `ICalendar::components`: how many components the record
/// holds.
#[verifier::external_body]
fn ical_component_count(cal: &ICalendar) -> (r: usize)
    ensures
        r == ical_model(*cal).len(),
{
    cal.components.len()
}

/// Relies on `ICalendarComponent::component_type`: whether the component
/// is a `VEVENT`.
#[verifier::external_body]
fn ical_is_vevent(cal: &ICalendar, idx: usize) -> (r: bool)
    ensures
        r == (idx < ical_model(*cal).len() && ical_model(*cal)[idx as int].is_vevent),
{
    cal.components.get(idx).is_some_and(
        |c| matches!(c.component_type, ICalendarComponentType::VEvent),
    )
}

/// Relies on `ICalendarComponent::property`: the first text value of the
/// `UID` property.
#[verifier::external_body]
fn ical_uid(cal: &ICalendar, idx: usize) -> (r: Option<String>)
    ensures
        match r {
            Some(s) => idx < ical_model(*cal).len() && ical_model(*cal)[idx as int].uid == Some(
                s@,
            ),
            None => idx >= ical_model(*cal).len() || ical_model(*cal)[idx as int].uid is None,
        },
{
    cal.components.get(idx)?.property(&ICalendarProperty::Uid)?.values.iter().find_map(
        |v| match v {
            ICalendarValue::Text(s) => Some(s.clone()),
            _ => None,
        },
    )
}

/// Relies on `ICalendarComponent::property`: the first text value of the
/// `SUMMARY` property.
#[verifier::external_body]
fn ical_summary(cal: &ICalendar, idx: usize) -> (r: Option<String>)
    ensures
        match r {
            Some(s) => idx < ical_model(*cal).len() && ical_model(*cal)[idx as int].summary
                == Some(s@),
            None => idx >= ical_model(*cal).len() || ical_model(*cal)[idx as int].summary is None,
        },
{
    cal.components.get(idx)?.property(&ICalendarProperty::Summary)?.values.iter().find_map(
        |v| match v {
            ICalendarValue::Text(s) => Some(s.clone()),
            _ => None,
        },
    )
}

/// Relies on `ICalendarComponent::property`: the first text value of the
/// `LOCATION` property.
#[verifier::external_body]
fn ical_location(cal: &ICalendar, idx: usize) -> (r: Option<String>)
    ensures
        match r {
            Some(s) => idx < ical_model(*cal).len() && ical_model(*cal)[idx as int].location
                == Some(s@),
            None => idx >= ical_model(*cal).len() || ical_model(*cal)[idx as int].location is None,
        },
{
    cal.components.get(idx)?.property(&ICalendarProperty::Location)?.values.iter().find_map(
        |v| match v {
            ICalendarValue::Text(s) => Some(s.clone()),
            _ => None,
        },
    )
}

/// Relies on `ICalendarComponent::property`: the first text value of the
/// `DESCRIPTION` property.
#[verifier::external_body]
fn ical_description(cal: &ICalendar, idx: usize) -> (r: Option<String>)
    ensures
        match r {
            Some(s) => idx < ical_model(*cal).len() && ical_model(*cal)[idx as int].description
                == Some(s@),
            None => idx >= ical_model(*cal).len() || ical_model(*cal)[idx as int].description
                is None,
        },
{
    cal.components.get(idx)?.property(&ICalendarProperty::Description)?.values.iter().find_map(
        |v| match v {
            ICalendarValue::Text(s) => Some(s.clone()),
            _ => None,
        },
    )
}

/// Relies on `ICalendarEntry::name`: whether the component carries an
/// `RRULE` property.
#[verifier::external_body]
fn ical_has_rrule(cal: &ICalendar, idx: usize) -> (r: bool)
    ensures
        r == (idx < ical_model(*cal).len() && ical_model(*cal)[idx as int].has_rrule),
{
    cal.components.get(idx).is_some_and(
        |c|
            c.entries.iter().any(
                |e| matches!(e.name, ICalendarProperty::Rrule),
            ),
    )
}

/// Relies on the `DTSTART` entry's parameters: whether a `VALUE=DATE`
/// parameter is present.
#[verifier::external_body]
fn ical_dtstart_has_date_param(cal: &ICalendar, idx: usize) -> (r: bool)
    ensures
        r == (idx < ical_model(*cal).len() && ical_model(*cal)[idx as int].date_param),
{
    let Some(prop) = cal.components.get(idx).and_then(|c| c.property(&ICalendarProperty::Dtstart))
    else { return false };
    prop.params.iter().any(
        |p|
            matches!(p.name, ICalendarParameterName::Value) && matches!(
                p.value,
                ICalendarParameterValue::Value(ICalendarValueType::Date),
            ),
    )
}

/// Relies on the `DTSTART` entry's values: whether the parsed value has
/// no time component.
#[verifier::external_body]
fn ical_dtstart_no_time(cal: &ICalendar, idx: usize) -> (r: bool)
    ensures
        r == (idx < ical_model(*cal).len() && ical_model(*cal)[idx as int].no_time),
{
    let Some(prop) = cal.components.get(idx).and_then(|c| c.property(&ICalendarProperty::Dtstart))
    else { return false };
    prop.values.iter().any(
        |v| matches!(v, ICalendarValue::PartialDateTime(pdt) if pdt.hour.is_none()),
    )
}

/// Relies on `ICalendarEntry::name`: how many `ATTENDEE` entries the
/// component carries.
#[verifier::external_body]
fn ical_attendee_count(cal: &ICalendar, idx: usize) -> (r: usize)
    ensures
        idx < ical_model(*cal).len() ==> r == ical_model(*cal)[idx as int].attendees.len(),
        idx >= ical_model(*cal).len() ==> r == 0,
{
    cal.components.get(idx).map_or(
        0,
        |c| c.entries.iter().filter(|e| matches!(e.name, ICalendarProperty::Attendee)).count(),
    )
}

/// Relies on the n-th `ATTENDEE` entry's parameters: its explicit email
/// parameter, when present.
#[verifier::external_body]
fn ical_attendee_email(cal: &ICalendar, idx: usize, n: usize) -> (r: Option<String>)
    ensures
        match r {
            Some(s) => idx < ical_model(*cal).len() && n < ical_model(
                *cal,
            )[idx as int].attendees.len() && ical_model(*cal)[idx as int].attendees[n as int].email
                == Some(s@),
            None => idx >= ical_model(*cal).len() || n >= ical_model(
                *cal,
            )[idx as int].attendees.len() || ical_model(*cal)[idx as int].attendees[n as int].email
                is None,
        },
{
    let comp = cal.components.get(idx)?;
    let e = comp.entries.iter().filter(|e| matches!(e.name, ICalendarProperty::Attendee)).nth(n)?;
    e.params.iter().find_map(|p| match (&p.name, &p.value) {
        (ICalendarParameterName::Email, ICalendarParameterValue::Text(t)) => Some(t.clone()),
        _ => None,
    })
}

/// Relies on the n-th `ATTENDEE` entry's values: its URI value (often a
/// `mailto:` address), when present.
#[verifier::external_body]
fn ical_attendee_uri(cal: &ICalendar, idx: usize, n: usize) -> (r: Option<String>)
    ensures
        match r {
            Some(s) => idx < ical_model(*cal).len() && n < ical_model(
                *cal,
            )[idx as int].attendees.len() && ical_model(*cal)[idx as int].attendees[n as int].uri
                == Some(s@),
            None => idx >= ical_model(*cal).len() || n >= ical_model(
                *cal,
            )[idx as int].attendees.len() || ical_model(*cal)[idx as int].attendees[n as int].uri
                is None,
        },
{
    let comp = cal.components.get(idx)?;
    let e = comp.entries.iter().filter(|e| matches!(e.name, ICalendarProperty::Attendee)).nth(n)?;
    e.values.iter().find_map(|v| match v {
        ICalendarValue::Uri(Uri::Location(u)) => Some(u.clone()),
        _ => None,
    })
}

/// Relies on the n-th `ATTENDEE` entry's parameters: its participation
/// status, mapped one variant arm each.
#[verifier::external_body]
fn ical_attendee_partstat(cal: &ICalendar, idx: usize, n: usize) -> (r: Option<PartStat>)
    ensures
        match r {
            Some(p) => idx < ical_model(*cal).len() && n < ical_model(
                *cal,
            )[idx as int].attendees.len() && ical_model(
                *cal,
            )[idx as int].attendees[n as int].partstat == Some(p),
            None => idx >= ical_model(*cal).len() || n >= ical_model(
                *cal,
            )[idx as int].attendees.len() || ical_model(
                *cal,
            )[idx as int].attendees[n as int].partstat is None,
        },
{
    let comp = cal.components.get(idx)?;
    let e = comp.entries.iter().filter(|e| matches!(e.name, ICalendarProperty::Attendee)).nth(n)?;
    e.params.iter().find_map(|p| match (&p.name, &p.value) {
        (ICalendarParameterName::Partstat, ICalendarParameterValue::Partstat(s)) => Some(match s {
            ICalendarParticipationStatus::Accepted => PartStat::Accepted,
            ICalendarParticipationStatus::Tentative => PartStat::Tentative,
            ICalendarParticipationStatus::Declined => PartStat::Declined,
            ICalendarParticipationStatus::NeedsAction => PartStat::NeedsAction,
            _ => PartStat::Other,
        }),
        _ => None,
    })
}

/// Collect the component's attendee entries, reduced to the parts the
/// classifier reads; their content is the model's attendee list.
fn ical_attendees(cal: &ICalendar, idx: usize) -> (r: Vec<Attendee>)
    ensures
        idx < ical_model(*cal).len() ==> r@.map_values(|a: Attendee| attendee_view(a))
            == ical_model(*cal)[idx as int].attendees,
{
    let n = ical_attendee_count(cal, idx);
    let mut out: Vec<Attendee> = Vec::new();
    let mut i: usize = 0;
    while i < n
        invariant
            i <= n,
            out@.len() == i,
            idx < ical_model(*cal).len() ==> {
                &&& n == ical_model(*cal)[idx as int].attendees.len()
                &&& forall|k: int|
                    0 <= k < i ==> attendee_view(#[trigger] out@[k]) == ical_model(
                        *cal,
                    )[idx as int].attendees[k]
            },
        decreases n - i,
    {
        let a = Attendee {
            email: ical_attendee_email(cal, idx, i),
            uri: ical_attendee_uri(cal, idx, i),
            partstat: ical_attendee_partstat(cal, idx, i),
        };
        proof {
            if idx < ical_model(*cal).len() {
                assert(attendee_view(a) == ical_model(*cal)[idx as int].attendees[i as int]);
            }
        }
        out.push(a);
        i += 1;
    }
    proof {
        if idx < ical_model(*cal).len() {
            assert(out@.map_values(|a: Attendee| attendee_view(a)) =~= ical_model(
                *cal,
            )[idx as int].attendees);
        }
    }
    out
}

/// One concrete start produced by recurrence expansion. The end is either
/// an instant of its own or a duration from the start.
#[derive(Debug, Clone, Copy, PartialEq, Eq, Structural)]
pub struct Occurrence {
    /// Index of the component this occurrence came from.
    pub comp_index: usize,
    /// Start instant, Unix seconds.
    pub start_epoch: i64,
    /// When set, `end_value` is a duration in seconds from the start;
    /// otherwise it is the end instant itself.
    pub end_is_delta: bool,
    pub end_value: i64,
}

/// The collection of occurrences that expanding the raw record in the
/// given zone with the given cap yields; `None` when the record does not
/// parse or the zone is unknown. A function of its arguments alone: the
/// timezone database is compiled into the crate, and only the order in
/// which the library walks overridden instances without a master varies
/// between calls — so the multiset, not the sequence, is input-determined.
pub uninterp spec fn spec_expand(raw: Seq<char>, zone: Seq<char>, limit: int) -> Option<
    Multiset<Occurrence>,
>;

/// Relies on `calcard::icalendar::ICalendar::parse` and
/// `ICalendar::expand_dates` (with `chrono_tz::Tz::from_str` for the
/// default zone): the expanded events, each reduced to its component id,
/// start instant, and end instant or duration, one variant arm each.
#[verifier::external_body]
fn expand_raw(raw: &str, zone: &str, limit: usize) -> (r: Option<Vec<Occurrence>>)
    ensures
        match r {
            Some(v) => spec_expand(raw@, zone@, limit as int) == Some(v@.to_multiset()),
            None => spec_expand(raw@, zone@, limit as int) is None,
        },
{
    let cal = ICalendar::parse(raw).ok()?;
    let tz: chrono_tz::Tz = zone.parse().ok()?;
    let expanded = cal.expand_dates(tz, limit);
    Some(expanded.events.iter().map(|ev| {
        let (end_is_delta, end_value) = match &ev.end {
            TimeOrDelta::Time(t) => (false, t.timestamp()),
            TimeOrDelta::Delta(d) => (true, d.num_seconds()),
        };
        Occurrence {
            comp_index: ev.comp_id as usize,
            start_epoch: ev.start.timestamp(),
            end_is_delta,
            end_value,
        }
    }).collect())
}

/// A total order on occurrences: by start, then component, then end kind
/// and value.
pub open spec fn occ_le(a: Occurrence, b: Occurrence) -> bool {
    if a.start_epoch != b.start_epoch {
        a.start_epoch < b.start_epoch
    } else if a.comp_index != b.comp_index {
        a.comp_index < b.comp_index
    } else if a.end_is_delta != b.end_is_delta {
        !a.end_is_delta
    } else {
        a.end_value <= b.end_value
    }
}

/// Occurrences in ascending `occ_le` order.
pub open spec fn sorted_occs(s: Seq<Occurrence>) -> bool {
    forall|i: int, j: int| 0 <= i < j < s.len() ==> occ_le(#[trigger] s[i], #[trigger] s[j])
}

fn occ_le_exec(a: &Occurrence, b: &Occurrence) -> (r: bool)
    ensures
        r == occ_le(*a, *b),
{
    if a.start_epoch != b.start_epoch {
        a.start_epoch < b.start_epoch
    } else if a.comp_index != b.comp_index {
        a.comp_index < b.comp_index
    } else if a.end_is_delta != b.end_is_delta {
        !a.end_is_delta
    } else {
        a.end_value <= b.end_value
    }
}

/// Sort occurrences into the canonical ascending order.
fn sort_occurrences(v: Vec<Occurrence>) -> (r: Vec<Occurrence>)
    ensures
        sorted_occs(r@),
        r@.to_multiset() == v@.to_multiset(),
{
    broadcast use vstd::seq_lib::group_to_multiset_ensures;

    let ghost all = v@;
    let mut src = v;
    let mut out: Vec<Occurrence> = Vec::new();
    proof {
        assert forall|a: Occurrence| out@.to_multiset().count(a) == 0 by {
            assert(!out@.contains(a));
        }
        assert(out@.to_multiset().add(src@.to_multiset()) =~= all.to_multiset());
    }
    while src.len() > 0
        invariant
            sorted_occs(out@),
            out@.to_multiset().add(src@.to_multiset()) == all.to_multiset(),
        decreases src.len(),
    {
        let ghost src0 = src@;
        let m = src.remove(0);
        proof {
            broadcast use vstd::seq_lib::group_to_multiset_ensures;

            assert(src@ =~= src0.remove(0));
            assert(src0.remove(0).to_multiset() =~= src0.to_multiset().remove(src0[0]));
        }
        let mut idx: usize = 0;
        while idx < out.len() && occ_le_exec(&out[idx], &m)
            invariant
                idx <= out.len(),
                forall|j: int| 0 <= j < idx ==> occ_le(#[trigger] out@[j], m),
            decreases out.len() - idx,
        {
            idx += 1;
        }
        let ghost out0 = out@;
        out.insert(idx, m);
        proof {
            broadcast use vstd::seq_lib::group_to_multiset_ensures;

            assert(out@ == out0.insert(idx as int, m));
            crate::pipeline::lemma_insert_to_multiset(out0, idx as int, m);
            assert forall|i: int, j: int| 0 <= i < j < out@.len() implies occ_le(
                #[trigger] out@[i],
                #[trigger] out@[j],
            ) by {
                if j < idx {
                    assert(out@[i] == out0[i]);
                    assert(out@[j] == out0[j]);
                } else if j == idx {
                    assert(out@[i] == out0[i]);
                    assert(out@[j] == m);
                } else if i < idx {
                    assert(out@[i] == out0[i]);
                    assert(out@[j] == out0[j - 1]);
                } else if i == idx {
                    assert(out@[i] == m);
                    assert(out@[j] == out0[j - 1]);
                    assert(!occ_le(out0[idx as int], m));
                    assert(occ_le(m, out0[idx as int]));
                    assert(occ_le(out0[idx as int], out0[j - 1]) || idx == j - 1);
                } else {
                    assert(out@[i] == out0[i - 1]);
                    assert(out@[j] == out0[j - 1]);
                }
            }
            assert(out@.to_multiset().add(src@.to_multiset()) =~= all.to_multiset());
        }
    }
    proof {
        broadcast use vstd::seq_lib::group_to_multiset_ensures;

        assert(src@ =~= Seq::<Occurrence>::empty());
        assert forall|a: Occurrence| src@.to_multiset().count(a) == 0 by {
            assert(!src@.contains(a));
        }
        assert(src@.to_multiset() =~= Multiset::<Occurrence>::empty());
        assert(out@.to_multiset() =~= all.to_multiset());
    }
    out
}

/// A sorted sequence of a given multiset is unique: the canonical
/// expansion order is determined by the record, zone and cap.
pub proof fn lemma_sorted_occs_unique(a: Seq<Occurrence>, b: Seq<Occurrence>)
    requires
        sorted_occs(a),
        sorted_occs(b),
        a.to_multiset() == b.to_multiset(),
    ensures
        a == b,
    decreases a.len(),
{
    broadcast use vstd::seq_lib::group_to_multiset_ensures;

    if a.len() == 0 {
        assert(b.len() == b.to_multiset().len());
        assert(a.to_multiset().len() == 0);
        assert(b =~= Seq::<Occurrence>::empty());
        assert(a =~= b);
    } else {
        assert(a.contains(a[0]));
        assert(b.to_multiset().count(a[0]) > 0);
        assert(b.contains(a[0]));
        let j = choose|j: int| 0 <= j < b.len() && b[j] == a[0];
        assert(b.contains(b[0]));
        assert(a.to_multiset().count(b[0]) > 0);
        assert(a.contains(b[0]));
        let k = choose|k: int| 0 <= k < a.len() && a[k] == b[0];
        assert(occ_le(a[0], a[k]) || k == 0);
        assert(occ_le(b[0], b[j]) || j == 0);
        assert(occ_le(a[0], b[0]));
        assert(occ_le(b[0], a[0]));
        assert(a[0] == b[0]);
        assert(a.remove(0) =~= a.drop_first());
        assert(b.remove(0) =~= b.drop_first());
        assert(a.remove(0).to_multiset() =~= a.to_multiset().remove(a[0]));
        assert(b.remove(0).to_multiset() =~= b.to_multiset().remove(b[0]));
        assert(sorted_occs(a.drop_first())) by {
            assert forall|x: int, y: int| 0 <= x < y < a.drop_first().len() implies occ_le(
                #[trigger] a.drop_first()[x],
                #[trigger] a.drop_first()[y],
            ) by {
                assert(a.drop_first()[x] == a[x + 1]);
                assert(a.drop_first()[y] == a[y + 1]);
            }
        }
        assert(sorted_occs(b.drop_first())) by {
            assert forall|x: int, y: int| 0 <= x < y < b.drop_first().len() implies occ_le(
                #[trigger] b.drop_first()[x],
                #[trigger] b.drop_first()[y],
            ) by {
                assert(b.drop_first()[x] == b[x + 1]);
                assert(b.drop_first()[y] == b[y + 1]);
            }
        }
        lemma_sorted_occs_unique(a.drop_first(), b.drop_first());
        assert(a =~= seq![a[0]] + a.drop_first());
        assert(b =~= seq![b[0]] + b.drop_first());
    }
}

/// Whether `r` is the canonical expansion of the record: `None` exactly
/// when the record does not expand, otherwise the occurrences of the
/// named collection in ascending order.
pub open spec fn is_canonical_expansion(
    raw: Seq<char>,
    zone: Seq<char>,
    limit: int,
    r: Option<Seq<Occurrence>>,
) -> bool {
    match (spec_expand(raw, zone, limit), r) {
        (Some(ms), Some(v)) => sorted_occs(v) && v.to_multiset() == ms,
        (None, None) => true,
        _ => false,
    }
}

/// Expand one raw record's events into concrete occurrences in the given
/// display zone, in canonical ascending order, with at most `limit`
/// occurrences per record.
pub fn expand_event(raw: &str, zone: &str, limit: usize) -> (r: Option<Vec<Occurrence>>)
    ensures
        match r {
            Some(v) => is_canonical_expansion(raw@, zone@, limit as int, Some(v@)),
            None => is_canonical_expansion(raw@, zone@, limit as int, None),
        },
{
    match expand_raw(raw, zone, limit) {
        Some(v) => Some(sort_occurrences(v)),
        None => None,
    }
}

/// Expanding the same record over the same window twice yields an
/// identical ordered occurrence list.
pub proof fn lemma_expansion_idempotent(
    raw: Seq<char>,
    zone: Seq<char>,
    limit: int,
    r1: Option<Seq<Occurrence>>,
    r2: Option<Seq<Occurrence>>,
)
    requires
        is_canonical_expansion(raw, zone, limit, r1),
        is_canonical_expansion(raw, zone, limit, r2),
    ensures
        r1 == r2,
{
    match (r1, r2) {
        (Some(a), Some(b)) => {
            lemma_sorted_occs_unique(a, b);
        },
        _ => {},
    }
}

/// A bare `BEGIN:VEVENT` block wrapped in the minimal `VCALENDAR`
/// envelope; a record that already has an envelope is unchanged.
pub open spec fn spec_wrap_vevent(raw: Seq<char>) -> Seq<char> {
    if spec_starts_with(spec_trim(raw), "BEGIN:VEVENT"@) {
        "BEGIN:VCALENDAR\r\nVERSION:2.0\r\n"@ + raw + "\r\nEND:VCALENDAR"@
    } else {
        raw
    }
}

/// Synthesize the minimal enclosing envelope around a bare event block.
pub fn wrap_vevent(raw: &str) -> (r: String)
    ensures
        r@ == spec_wrap_vevent(raw@),
{
    let rc = chars_of(raw);
    let trimmed = trim_chars(&rc);
    if starts_with_chars(&trimmed, &chars_of("BEGIN:VEVENT")) {
        let mut out = chars_of("BEGIN:VCALENDAR\r\nVERSION:2.0\r\n");
        let mut mid = chars_of(raw);
        let mut tail = chars_of("\r\nEND:VCALENDAR");
        out.append(&mut mid);
        out.append(&mut tail);
        proof {
            assert(out@ =~= spec_wrap_vevent(raw@));
        }
        string_from_chars(&out)
    } else {
        string_from_chars(&rc)
    }
}

/// The identity of one occurrence: expanded recurring instances get the
/// derived key `"{uid}@{start}"`, with the start written in the compact
/// form; anything else keeps the master's uid.
pub open spec fn spec_occurrence_uid(uid: Seq<char>, start: LocalTime, recurring: bool) -> Seq<
    char,
> {
    if recurring && 0 <= start.year <= 9999 {
        uid + seq!['@'] + spec_compact_of(start)
    } else {
        uid
    }
}

/// The uid under which one concrete occurrence is reported.
pub fn occurrence_uid(uid: &str, start: &LocalTime, recurring: bool) -> (r: String)
    requires
        start.wf(),
    ensures
        r@ == spec_occurrence_uid(uid@, *start, recurring),
{
    let mut out = chars_of(uid);
    if recurring && 0 <= start.year && start.year <= 9999 {
        out.push('@');
        let mut compact = format_compact(start);
        out.append(&mut compact);
        proof {
            assert(out@ =~= spec_occurrence_uid(uid@, *start, recurring));
        }
    }
    string_from_chars(&out)
}

/// The structured properties of one parsed event record.
#[derive(Debug, Clone)]
pub struct RawEventProps {
    pub uid: Option<String>,
    pub summary: Option<String>,
    pub location: Option<String>,
    pub description: Option<String>,
    /// Whether the event carries a recurrence rule.
    pub has_rrule: bool,
    /// True when the start carries a date-only value type or its parsed
    /// value has no time component.
    pub is_all_day: bool,
    pub attendees: Vec<Attendee>,
}

/// Whether the properties are those of the given component model.
pub open spec fn props_match(p: RawEventProps, em: EventModel) -> bool {
    &&& (match p.uid {
        Some(u) => em.uid == Some(u@),
        None => em.uid is None,
    })
    &&& (match p.summary {
        Some(s) => em.summary == Some(s@),
        None => em.summary is None,
    })
    &&& (match p.location {
        Some(l) => em.location == Some(l@),
        None => em.location is None,
    })
    &&& (match p.description {
        Some(d) => em.description == Some(d@),
        None => em.description is None,
    })
    &&& p.has_rrule == em.has_rrule
    &&& p.is_all_day == (em.date_param || em.no_time)
    &&& p.attendees@.map_values(|a: Attendee| attendee_view(a)) == em.attendees
}

/// Whether `p` describes the first event component of the model: the
/// component at `i` is a `VEVENT`, nothing before it is, and the
/// properties are its.
pub open spec fn first_event_at(model: Seq<EventModel>, i: int, p: RawEventProps) -> bool {
    &&& 0 <= i < model.len()
    &&& model[i].is_vevent
    &&& forall|j: int| 0 <= j < i ==> !(#[trigger] model[j]).is_vevent
    &&& props_match(p, model[i])
}

/// Parse one raw calendar record into the structured properties of its
/// first event component, synthesizing the minimal enclosing envelope
/// around a bare event block. A record without an event component yields
/// `None`, never an error.
pub fn parse_event(raw: &str) -> (r: Option<RawEventProps>)
    ensures
        match r {
            Some(p) => parsed_model(spec_wrap_vevent(raw@)) is Some && exists|i: int|
                #[trigger] first_event_at(parsed_model(spec_wrap_vevent(raw@))->0, i, p),
            None => match parsed_model(spec_wrap_vevent(raw@)) {
                Some(model) => forall|j: int|
                    0 <= j < model.len() ==> !(#[trigger] model[j]).is_vevent,
                None => true,
            },
        },
{
    let wrapped = wrap_vevent(raw);
    let cal = match ical_parse(wrapped.as_str()) {
        Some(c) => c,
        None => {
            return None;
        },
    };
    let ghost model = ical_model(cal);
    let n = ical_component_count(&cal);
    let mut i: usize = 0;
    while i < n
        invariant
            i <= n,
            n == model.len(),
            model == ical_model(cal),
            parsed_model(wrapped@) == Some(model),
            wrapped@ == spec_wrap_vevent(raw@),
            forall|j: int| 0 <= j < i ==> !(#[trigger] model[j]).is_vevent,
        decreases n - i,
    {
        if ical_is_vevent(&cal, i) {
            let p = RawEventProps {
                uid: ical_uid(&cal, i),
                summary: ical_summary(&cal, i),
                location: ical_location(&cal, i),
                description: ical_description(&cal, i),
                has_rrule: ical_has_rrule(&cal, i),
                is_all_day: ical_dtstart_has_date_param(&cal, i) || ical_dtstart_no_time(&cal, i),
                attendees: ical_attendees(&cal, i),
            };
            proof {
                assert(first_event_at(model, i as int, p));
            }
            return Some(p);
        }
        i += 1;
    }
    None
}

/// A meeting the pipeline may report: well-formed, inside the inclusion
/// window, and owned by the right calendar.
pub open spec fn meeting_admissible(
    m: Meeting,
    calendar_uid: Seq<char>,
    now: i64,
    query_start: i64,
) -> bool {
    &&& m.wf()
    &&& spec_should_include(m.start.epoch, m.end.epoch, now, query_start)
    &&& m.calendar_uid@ == calendar_uid
}

/// The end instant of an occurrence, as an unbounded integer.
pub open spec fn end_epoch_of(occ: Occurrence) -> int {
    if occ.end_is_delta {
        occ.start_epoch + occ.end_value
    } else {
        occ.end_value as int
    }
}

/// Whether one occurrence yields a meeting: it comes from a `VEVENT`
/// carrying a `UID`, its end fits the machine integers, it passes the
/// inclusion policy, and both instants render in the display zone.
pub open spec fn occ_emits(
    model: Seq<EventModel>,
    occ: Occurrence,
    disp: Seq<char>,
    now: i64,
    query_start: i64,
) -> bool {
    &&& occ.comp_index < model.len()
    &&& model[occ.comp_index as int].is_vevent
    &&& model[occ.comp_index as int].uid is Some
    &&& i64::MIN <= end_epoch_of(occ) <= i64::MAX
    &&& spec_should_include(occ.start_epoch, end_epoch_of(occ) as i64, now, query_start)
    &&& zone_wall(disp, occ.start_epoch as int) is Some
    &&& zone_wall(disp, end_epoch_of(occ)) is Some
}

/// Whether `m` is the meeting that the occurrence yields: every field
/// comes from the occurrence's component model and the rendered instants.
pub open spec fn meeting_matches_occ(
    m: Meeting,
    model: Seq<EventModel>,
    occ: Occurrence,
    disp: Seq<char>,
    calendar_uid: Seq<char>,
    user_emails: Seq<String>,
) -> bool {
    let em = model[occ.comp_index as int];
    let start = zone_wall(disp, occ.start_epoch as int)->0;
    let end = zone_wall(disp, end_epoch_of(occ))->0;
    &&& m.start == start
    &&& m.end == end
    &&& m.uid@ == spec_occurrence_uid(em.uid->0, start, em.has_rrule)
    &&& m.title@ == (match em.summary {
        Some(s) => s,
        None => "Untitled Event"@,
    })
    &&& (match m.location {
        Some(l) => em.location == Some(l@),
        None => em.location is None,
    })
    &&& (match m.description {
        Some(d) => em.description == Some(d@),
        None => em.description is None,
    })
    &&& m.calendar_uid@ == calendar_uid
    &&& m.is_all_day == (em.date_param || em.no_time)
    &&& m.attendance_status == spec_classify_models(em.attendees, user_emails)
}

/// Whether `r` is exactly the meetings of the emitting occurrences of
/// `occs`, in order.
pub open spec fn meetings_match(
    model: Seq<EventModel>,
    occs: Seq<Occurrence>,
    r: Seq<Meeting>,
    disp: Seq<char>,
    calendar_uid: Seq<char>,
    user_emails: Seq<String>,
    now: i64,
    query_start: i64,
) -> bool
    decreases occs.len(),
{
    if occs.len() == 0 {
        r.len() == 0
    } else if occ_emits(model, occs[0], disp, now, query_start) {
        &&& r.len() > 0
        &&& meeting_matches_occ(r[0], model, occs[0], disp, calendar_uid, user_emails)
        &&& meetings_match(
            model,
            occs.drop_first(),
            r.drop_first(),
            disp,
            calendar_uid,
            user_emails,
            now,
            query_start,
        )
    } else {
        meetings_match(
            model,
            occs.drop_first(),
            r,
            disp,
            calendar_uid,
            user_emails,
            now,
            query_start,
        )
    }
}

proof fn lemma_meetings_match_push_emit(
    model: Seq<EventModel>,
    occs: Seq<Occurrence>,
    r: Seq<Meeting>,
    occ: Occurrence,
    m: Meeting,
    disp: Seq<char>,
    calendar_uid: Seq<char>,
    user_emails: Seq<String>,
    now: i64,
    query_start: i64,
)
    requires
        meetings_match(model, occs, r, disp, calendar_uid, user_emails, now, query_start),
        occ_emits(model, occ, disp, now, query_start),
        meeting_matches_occ(m, model, occ, disp, calendar_uid, user_emails),
    ensures
        meetings_match(
            model,
            occs.push(occ),
            r.push(m),
            disp,
            calendar_uid,
            user_emails,
            now,
            query_start,
        ),
    decreases occs.len(),
{
    let po = occs.push(occ);
    if occs.len() == 0 {
        assert(po[0] == occ);
        assert(r.len() == 0);
        assert(r.push(m)[0] == m);
        assert(po.drop_first() =~= Seq::<Occurrence>::empty());
        assert(r.push(m).drop_first() =~= Seq::<Meeting>::empty());
        assert(meetings_match(
            model,
            po.drop_first(),
            r.push(m).drop_first(),
            disp,
            calendar_uid,
            user_emails,
            now,
            query_start,
        ));
    } else {
        assert(po[0] == occs[0]);
        assert(po.drop_first() =~= occs.drop_first().push(occ));
        if occ_emits(model, occs[0], disp, now, query_start) {
            assert(r.len() > 0);
            assert(r.push(m)[0] == r[0]);
            assert(r.push(m).drop_first() =~= r.drop_first().push(m));
            lemma_meetings_match_push_emit(
                model,
                occs.drop_first(),
                r.drop_first(),
                occ,
                m,
                disp,
                calendar_uid,
                user_emails,
                now,
                query_start,
            );
            assert(meetings_match(
                model,
                po.drop_first(),
                r.push(m).drop_first(),
                disp,
                calendar_uid,
                user_emails,
                now,
                query_start,
            ));
        } else {
            lemma_meetings_match_push_emit(
                model,
                occs.drop_first(),
                r,
                occ,
                m,
                disp,
                calendar_uid,
                user_emails,
                now,
                query_start,
            );
            assert(meetings_match(
                model,
                po.drop_first(),
                r.push(m),
                disp,
                calendar_uid,
                user_emails,
                now,
                query_start,
            ));
        }
    }
    assert(meetings_match(model, po, r.push(m), disp, calendar_uid, user_emails, now, query_start));
}

proof fn lemma_meetings_match_push_skip(
    model: Seq<EventModel>,
    occs: Seq<Occurrence>,
    r: Seq<Meeting>,
    occ: Occurrence,
    disp: Seq<char>,
    calendar_uid: Seq<char>,
    user_emails: Seq<String>,
    now: i64,
    query_start: i64,
)
    requires
        meetings_match(model, occs, r, disp, calendar_uid, user_emails, now, query_start),
        !occ_emits(model, occ, disp, now, query_start),
    ensures
        meetings_match(model, occs.push(occ), r, disp, calendar_uid, user_emails, now, query_start),
    decreases occs.len(),
{
    let po = occs.push(occ);
    if occs.len() == 0 {
        assert(po[0] == occ);
        assert(r.len() == 0);
        assert(po.drop_first() =~= Seq::<Occurrence>::empty());
        assert(meetings_match(
            model,
            po.drop_first(),
            r,
            disp,
            calendar_uid,
            user_emails,
            now,
            query_start,
        ));
    } else {
        assert(po[0] == occs[0]);
        assert(po.drop_first() =~= occs.drop_first().push(occ));
        if occ_emits(model, occs[0], disp, now, query_start) {
            assert(r.len() > 0);
            lemma_meetings_match_push_skip(
                model,
                occs.drop_first(),
                r.drop_first(),
                occ,
                disp,
                calendar_uid,
                user_emails,
                now,
                query_start,
            );
            assert(meetings_match(
                model,
                po.drop_first(),
                r.drop_first(),
                disp,
                calendar_uid,
                user_emails,
                now,
                query_start,
            ));
        } else {
            lemma_meetings_match_push_skip(
                model,
                occs.drop_first(),
                r,
                occ,
                disp,
                calendar_uid,
                user_emails,
                now,
                query_start,
            );
            assert(meetings_match(
                model,
                po.drop_first(),
                r,
                disp,
                calendar_uid,
                user_emails,
                now,
                query_start,
            ));
        }
    }
    assert(meetings_match(model, po, r, disp, calendar_uid, user_emails, now, query_start));
}

/// What one raw record contributes: nothing when it does not parse or
/// expand; otherwise exactly the meetings of its canonically ordered
/// emitting occurrences.
pub open spec fn record_result_matches(
    raw: Seq<char>,
    disp: Seq<char>,
    calendar_uid: Seq<char>,
    user_emails: Seq<String>,
    now: i64,
    query_start: i64,
    r: Seq<Meeting>,
) -> bool {
    if parsed_model(spec_wrap_vevent(raw)) is Some && spec_expand(
        spec_wrap_vevent(raw),
        disp,
        EXPANSION_LIMIT as int,
    ) is Some {
        exists|occs: Seq<Occurrence>|
            {
                &&& sorted_occs(occs)
                &&& occs.to_multiset() == spec_expand(
                    spec_wrap_vevent(raw),
                    disp,
                    EXPANSION_LIMIT as int,
                )->0
                &&& #[trigger] meetings_match(
                    parsed_model(spec_wrap_vevent(raw))->0,
                    occs,
                    r,
                    disp,
                    calendar_uid,
                    user_emails,
                    now,
                    query_start,
                )
            }
    } else {
        r.len() == 0
    }
}

/// Turn one raw calendar record into concrete meetings: wrap a bare event
/// block, parse it, expand recurrences in the display zone in canonical
/// order, drop occurrences of components missing a `UID`, filter by the
/// inclusion policy, classify attendance, and derive occurrence uids for
/// expanded recurring instances.
///
/// A record that does not parse yields no meetings, never an error.
pub fn meetings_from_record(
    raw: &str,
    disp: &str,
    calendar_uid: &str,
    user_emails: &Vec<String>,
    now: i64,
    query_start: i64,
) -> (r: Vec<Meeting>)
    ensures
        record_result_matches(
            raw@,
            disp@,
            calendar_uid@,
            user_emails@,
            now,
            query_start,
            r@,
        ),
        forall|k: int|
            0 <= k < r@.len() ==> meeting_admissible(
                #[trigger] r@[k],
                calendar_uid@,
                now,
                query_start,
            ),
{
    let mut out: Vec<Meeting> = Vec::new();
    let wrapped = wrap_vevent(raw);
    let cal = match ical_parse(wrapped.as_str()) {
        Some(c) => c,
        None => {
            return out;
        },
    };
    let ghost model = ical_model(cal);
    let occs = match expand_raw(wrapped.as_str(), disp, EXPANSION_LIMIT) {
        Some(v) => sort_occurrences(v),
        None => {
            return out;
        },
    };
    let ghost occs_seq = occs@;
    proof {
        assert(occs_seq.take(0) =~= Seq::<Occurrence>::empty());
    }
    let mut i: usize = 0;
    while i < occs.len()
        invariant
            i <= occs.len(),
            occs@ == occs_seq,
            model == ical_model(cal),
            wrapped@ == spec_wrap_vevent(raw@),
            parsed_model(wrapped@) == Some(model),
            spec_expand(wrapped@, disp@, EXPANSION_LIMIT as int) == Some(occs_seq.to_multiset()),
            sorted_occs(occs_seq),
            meetings_match(
                model,
                occs_seq.take(i as int),
                out@,
                disp@,
                calendar_uid@,
                user_emails@,
                now,
                query_start,
            ),
            forall|k: int|
                0 <= k < out@.len() ==> meeting_admissible(
                    #[trigger] out@[k],
                    calendar_uid@,
                    now,
                    query_start,
                ),
        decreases occs.len() - i,
    {
        let occ = occs[i];
        i += 1;
        let ghost taken = occs_seq.take(i - 1);
        proof {
            assert(occs_seq.take(i as int) =~= taken.push(occ));
        }
        if !ical_is_vevent(&cal, occ.comp_index) {
            proof {
                assert(!occ_emits(model, occ, disp@, now, query_start));
                lemma_meetings_match_push_skip(
                    model,
                    taken,
                    out@,
                    occ,
                    disp@,
                    calendar_uid@,
                    user_emails@,
                    now,
                    query_start,
                );
            }
            continue ;
        }
        let uid = match ical_uid(&cal, occ.comp_index) {
            Some(u) => u,
            None => {
                proof {
                    assert(!occ_emits(model, occ, disp@, now, query_start));
                    lemma_meetings_match_push_skip(
                        model,
                        taken,
                        out@,
                        occ,
                        disp@,
                        calendar_uid@,
                        user_emails@,
                        now,
                        query_start,
                    );
                }
                continue ;
            },
        };
        let start_epoch = occ.start_epoch;
        let end_epoch = if occ.end_is_delta {
            match start_epoch.checked_add(occ.end_value) {
                Some(e) => e,
                None => {
                    proof {
                        assert(!occ_emits(model, occ, disp@, now, query_start));
                        lemma_meetings_match_push_skip(
                            model,
                            taken,
                            out@,
                            occ,
                            disp@,
                            calendar_uid@,
                            user_emails@,
                            now,
                            query_start,
                        );
                    }
                    continue ;
                },
            }
        } else {
            occ.end_value
        };
        proof {
            assert(end_epoch as int == end_epoch_of(occ));
        }
        if !should_include_meeting(start_epoch, end_epoch, now, query_start) {
            proof {
                assert(!occ_emits(model, occ, disp@, now, query_start));
                lemma_meetings_match_push_skip(
                    model,
                    taken,
                    out@,
                    occ,
                    disp@,
                    calendar_uid@,
                    user_emails@,
                    now,
                    query_start,
                );
            }
            continue ;
        }
        let start = match epoch_to_zone_wall(disp, start_epoch) {
            Some(t) => t,
            None => {
                proof {
                    assert(!occ_emits(model, occ, disp@, now, query_start));
                    lemma_meetings_match_push_skip(
                        model,
                        taken,
                        out@,
                        occ,
                        disp@,
                        calendar_uid@,
                        user_emails@,
                        now,
                        query_start,
                    );
                }
                continue ;
            },
        };
        let end = match epoch_to_zone_wall(disp, end_epoch) {
            Some(t) => t,
            None => {
                proof {
                    assert(!occ_emits(model, occ, disp@, now, query_start));
                    lemma_meetings_match_push_skip(
                        model,
                        taken,
                        out@,
                        occ,
                        disp@,
                        calendar_uid@,
                        user_emails@,
                        now,
                        query_start,
                    );
                }
                continue ;
            },
        };
        let title = match ical_summary(&cal, occ.comp_index) {
            Some(t) => t,
            None => String::from_str("Untitled Event"),
        };
        let location = ical_location(&cal, occ.comp_index);
        let description = ical_description(&cal, occ.comp_index);
        let is_all_day = ical_dtstart_has_date_param(&cal, occ.comp_index)
            || ical_dtstart_no_time(&cal, occ.comp_index);
        let attendees = ical_attendees(&cal, occ.comp_index);
        let attendance_status = classify_attendance(&attendees, user_emails);
        let recurring = ical_has_rrule(&cal, occ.comp_index);
        let meeting_uid = occurrence_uid(uid.as_str(), &start, recurring);
        let m = Meeting {
            uid: meeting_uid,
            title,
            start,
            end,
            location,
            description,
            calendar_uid: String::from_str(calendar_uid),
            is_all_day,
            attendance_status,
        };
        proof {
            assert(occ_emits(model, occ, disp@, now, query_start));
            lemma_spec_classify_view(attendees@, user_emails@);
            assert(meeting_matches_occ(m, model, occ, disp@, calendar_uid@, user_emails@));
            assert(meeting_admissible(m, calendar_uid@, now, query_start));
            lemma_meetings_match_push_emit(
                model,
                taken,
                out@,
                occ,
                m,
                disp@,
                calendar_uid@,
                user_emails@,
                now,
                query_start,
            );
        }
        out.push(m);
    }
    proof {
        assert(occs_seq.take(occs_seq.len() as int) =~= occs_seq);
        assert(meetings_match(
            model,
            occs_seq,
            out@,
            disp@,
            calendar_uid@,
            user_emails@,
            now,
            query_start,
        ));
        assert(meetings_match(
            parsed_model(spec_wrap_vevent(raw@))->0,
            occs_seq,
            out@,
            disp@,
            calendar_uid@,
            user_emails@,
            now,
            query_start,
        ));
        assert(record_result_matches(
            raw@,
            disp@,
            calendar_uid@,
            user_emails@,
            now,
            query_start,
            out@,
        ));
    }
    out
}

} // verus!
