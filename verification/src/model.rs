//! Core value types of the engine: meetings, calendar sources, and the
//! user's attendance.

use vstd::prelude::*;

use crate::text::{chars_equal, chars_of};

verus! {

/// User's attendance status for a meeting.
#[derive(Debug, Clone, Copy, PartialEq, Eq, Default)]
pub enum AttendanceStatus {
    /// User has accepted the meeting.
    Accepted,
    /// User has tentatively accepted.
    Tentative,
    /// User has declined.
    Declined,
    /// User has not responded yet.
    NeedsAction,
    /// No attendance info (user is organizer or it is a personal event).
    #[default]
    NoStatus,
}

/// An instant in time: a Unix timestamp in seconds, paired with its
/// wall-clock rendering in the engine's display timezone.
#[derive(Debug, Clone, Copy)]
pub struct LocalTime {
    /// Seconds since the Unix epoch, in UTC.
    pub epoch: i64,
    pub year: i32,
    pub month: u8,
    pub day: u8,
    pub hour: u8,
    pub minute: u8,
    pub second: u8,
}

impl LocalTime {
    /// Wall-clock fields lie in their calendar ranges.
    pub open spec fn wf(self) -> bool {
        &&& 1 <= self.month <= 12
        &&& 1 <= self.day <= 31
        &&& self.hour < 24
        &&& self.minute < 60
        &&& self.second < 60
    }
}

/// One concrete, time-bound meeting occurrence.
#[derive(Debug, Clone)]
pub struct Meeting {
    /// Stable per master event; expanded recurring instances get a derived
    /// key `"{uid}@{start}"`.
    pub uid: String,
    pub title: String,
    pub start: LocalTime,
    pub end: LocalTime,
    pub location: Option<String>,
    pub description: Option<String>,
    /// The owning calendar source.
    pub calendar_uid: String,
    pub is_all_day: bool,
    pub attendance_status: AttendanceStatus,
}

impl Meeting {
    /// A meeting is well-formed when it starts before it ends.
    pub open spec fn wf(self) -> bool {
        self.start.epoch < self.end.epoch && self.start.wf() && self.end.wf()
    }
}

/// A discovered calendar source.
#[derive(Debug, Clone)]
pub struct CalendarInfo {
    pub uid: String,
    pub display_name: String,
    /// Hex color such as `#62a0ea`.
    pub color: Option<String>,
    /// Last update timestamp of the source (ISO-8601).
    pub last_synced: Option<String>,
    /// Backend type (e.g. `local`, `caldav`, `google`).
    pub backend: Option<String>,
}

impl CalendarInfo {
    /// Whether this source can hold schedulable events: every backend but
    /// contacts, weather and birthdays.
    pub open spec fn spec_is_meeting_source(self) -> bool {
        match self.backend {
            Some(b) => b@ != "contacts"@ && b@ != "weather"@ && b@ != "birthdays"@,
            None => true,
        }
    }

    /// Returns true when this calendar is a valid source of meetings.
    /// Some calendars (contacts, weather, birthdays) never contain actual
    /// meetings and are excluded from every meeting query.
    pub fn is_meeting_source(&self) -> (r: bool)
        ensures
            r == self.spec_is_meeting_source(),
    {
        match &self.backend {
            Some(b) => {
                let bc = chars_of(b.as_str());
                !(chars_equal(&bc, &chars_of("contacts")) || chars_equal(&bc, &chars_of("weather"))
                    || chars_equal(&bc, &chars_of("birthdays")))
            },
            None => true,
        }
    }
}

/// The participation status carried by one attendee entry.
#[derive(Debug, Clone, Copy, PartialEq, Eq)]
pub enum PartStat {
    Accepted,
    Tentative,
    Declined,
    NeedsAction,
    /// Any other status; it classifies as no attendance info.
    Other,
}

/// One `ATTENDEE` entry of a calendar record, reduced to the parts the
/// classifier reads.
#[derive(Debug, Clone)]
pub struct Attendee {
    /// The explicit email parameter, when present.
    pub email: Option<String>,
    /// The entry's URI value (often a `mailto:` address), when present.
    pub uri: Option<String>,
    /// The participation-status parameter, when present.
    pub partstat: Option<PartStat>,
}

/// The mathematical content of one attendee entry: the same parts as
/// [`Attendee`], with the strings as character sequences.
pub ghost struct AttendeeModel {
    pub email: Option<Seq<char>>,
    pub uri: Option<Seq<char>>,
    pub partstat: Option<PartStat>,
}

/// The content of an attendee value.
pub open spec fn attendee_view(a: Attendee) -> AttendeeModel {
    AttendeeModel {
        email: match a.email {
            Some(e) => Some(e@),
            None => None,
        },
        uri: match a.uri {
            Some(u) => Some(u@),
            None => None,
        },
        partstat: a.partstat,
    }
}

} // verus!
