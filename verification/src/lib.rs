//! A verified calendar meeting-extraction engine.
//!
//! The crate discovers calendar sources from INI-style source
//! descriptions, parses raw iCalendar records (expanding recurring
//! events), resolves timezone identifiers, classifies the user's
//! attendance, extracts meeting URLs and physical locations, and produces
//! a ranked, deduplicated, time-filtered list of upcoming meetings.

pub mod attendance;
pub mod config;
pub mod datetime;
pub mod discovery;
pub mod display;
pub mod filter;
pub mod ical;
pub mod ini;
pub mod model;
pub mod pipeline;
pub mod text;
pub mod timezone;
pub mod urls;

pub use attendance::classify_attendance;
pub use config::Config;
pub use config::DisplayFormat;
pub use config::EventStatusFilter;
pub use config::InProgressMeeting;
pub use config::JoinButtonVisibility;
pub use config::LocationVisibility;
pub use datetime::build_range_query;
pub use datetime::parse_ical_datetime;
pub use datetime::parse_ical_datetime_in;
pub use datetime::query_window;
pub use discovery::calendar_info_from_source;
pub use discovery::revision_timestamp;
pub use discovery::sort_calendars;
pub use display::enabled_meeting_source_uids;
pub use display::filtered_meetings;
pub use display::parse_hex_color;
pub use display::relative_time_parts;
pub use filter::should_include_meeting;
pub use ical::expand_event;
pub use ical::meetings_from_record;
pub use ical::occurrence_uid;
pub use ical::parse_event;
pub use ical::RawEventProps;
pub use ical::wrap_vevent;
pub use ini::parse_backend_name;
pub use ini::parse_color;
pub use ini::parse_display_name;
pub use ini::parse_field;
pub use model::AttendanceStatus;
pub use model::Attendee;
pub use model::CalendarInfo;
pub use model::LocalTime;
pub use model::Meeting;
pub use model::PartStat;
pub use pipeline::build_user_emails;
pub use pipeline::collect_meetings;
pub use pipeline::filter_enabled_uids;
pub use pipeline::SourceRecords;
pub use timezone::parse_ical_timezone;
pub use urls::extract_meeting_url;
pub use urls::get_physical_location;
