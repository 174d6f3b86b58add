//! User preferences that the presentation layer passes down to the engine.

use vstd::prelude::*;

verus! {

/// How to display the meeting time in the panel.
#[derive(Debug, Default, Clone, Copy, Eq, PartialEq)]
pub enum DisplayFormat {
    /// Show day and time (e.g. "Fri 9:30: All Hands").
    #[default]
    DayAndTime,
    /// Show relative time (e.g. "In 2d 3h: All Hands").
    Relative,
    /// Legacy: treated as DayAndTime.
    TitleOnly,
    /// Legacy: treated as DayAndTime.
    TimeOnly,
}

/// When to show the Join button.
#[derive(Debug, Default, Clone, Copy, Eq, PartialEq)]
pub enum JoinButtonVisibility {
    /// Never show the join button.
    Hide,
    /// Always show the join button (when a URL is available).
    Show,
    /// Show only when the meeting is on the same day.
    ShowIfSameDay,
    /// Show only when the meeting is within 30 minutes.
    ShowIf30m,
    /// Show only when the meeting is within 15 minutes.
    #[default]
    ShowIf15m,
    /// Show only when the meeting is within 5 minutes.
    ShowIf5m,
}

/// When to show the physical location.
#[derive(Debug, Default, Clone, Copy, Eq, PartialEq)]
pub enum LocationVisibility {
    /// Never show the location.
    Hide,
    /// Always show the location (when available).
    #[default]
    Show,
    /// Show only when the meeting is on the same day.
    ShowIfSameDay,
    /// Show only when the meeting is within 30 minutes.
    ShowIf30m,
    /// Show only when the meeting is within 15 minutes.
    ShowIf15m,
    /// Show only when the meeting is within 5 minutes.
    ShowIf5m,
}

/// Which events to show based on attendance status.
#[derive(Debug, Default, Clone, Copy, Eq, PartialEq)]
pub enum EventStatusFilter {
    /// Show all events regardless of attendance status.
    #[default]
    All,
    /// Show only events the user accepted.
    Accepted,
    /// Show events the user accepted or tentatively accepted.
    AcceptedOrTentative,
}

/// Whether to show meetings that have already started.
#[derive(Debug, Default, Clone, Copy, Eq, PartialEq)]
pub enum InProgressMeeting {
    /// Only show future meetings.
    Off,
    /// Show meetings that started within 5 minutes.
    #[default]
    Within5m,
    /// Show meetings that started within 10 minutes.
    Within10m,
    /// Show meetings that started within 15 minutes.
    Within15m,
    /// Show meetings that started within 30 minutes.
    Within30m,
}

/// The engine's user-facing configuration.
#[derive(Debug, Clone)]
pub struct Config {
    /// Whether to automatically refresh calendars from remote servers.
    pub auto_refresh_enabled: bool,
    /// Interval in minutes for automatic refresh (5, 10, 15, 30).
    pub auto_refresh_interval_minutes: u8,
    /// Calendar UIDs that are enabled for display; an empty list means all
    /// calendars are enabled.
    pub enabled_calendar_uids: Vec<String>,
    /// How to display the meeting time in the panel.
    pub display_format: DisplayFormat,
    /// Number of upcoming events to show in the popup (0-10).
    pub upcoming_events_count: u8,
    /// When to show the Join button in the popup.
    pub popup_join_button: JoinButtonVisibility,
    /// When to show the Join button in the panel.
    pub panel_join_button: JoinButtonVisibility,
    /// When to show the physical location in the popup.
    pub popup_location: LocationVisibility,
    /// When to show the physical location in the panel.
    pub panel_location: LocationVisibility,
    /// Show the calendar color indicator in the panel.
    pub panel_calendar_indicator: bool,
    /// Show the calendar color indicator in the popup.
    pub popup_calendar_indicator: bool,
    /// Regex patterns used to detect meeting URLs in location/description.
    pub meeting_url_patterns: Vec<String>,
    /// Whether to show all-day events.
    pub show_all_day_events: bool,
    /// Filter events by attendance status.
    pub event_status_filter: EventStatusFilter,
    /// Additional email addresses identifying the user in `ATTENDEE`
    /// fields, besides each calendar's own identity email.
    pub additional_emails: Vec<String>,
    /// Whether to show meetings that have already started.
    pub show_in_progress: InProgressMeeting,
}

impl Default for Config {
    /// The default configuration, with URL patterns for the common meeting
    /// services.
    fn default() -> (r: Self)
        ensures
            r.auto_refresh_enabled == false,
            r.auto_refresh_interval_minutes == 10,
            r.enabled_calendar_uids@ =~= Seq::<String>::empty(),
            r.display_format == DisplayFormat::DayAndTime,
            r.upcoming_events_count == 3,
            r.popup_join_button == JoinButtonVisibility::ShowIfSameDay,
            r.panel_join_button == JoinButtonVisibility::ShowIf15m,
            r.popup_location == LocationVisibility::Show,
            r.panel_location == LocationVisibility::Show,
            r.panel_calendar_indicator == false,
            r.popup_calendar_indicator == true,
            r.meeting_url_patterns@.len() == 6,
            r.meeting_url_patterns@[0]@ == "https://meet\\.google\\.com/[a-z-]+"@,
            r.meeting_url_patterns@[1]@ == "https://[a-z0-9]+\\.zoom\\.us/j/[0-9]+"@,
            r.meeting_url_patterns@[2]@ == "https://teams\\.microsoft\\.com/l/meetup-join/[^\\s]+"@,
            r.meeting_url_patterns@[3]@ == "https://teams\\.live\\.com/meet/[^\\s]+"@,
            r.meeting_url_patterns@[4]@ == "https://[a-z0-9]+\\.webex\\.com/[^\\s]+/j\\.php\\?MTID=[^\\s]+"@,
            r.meeting_url_patterns@[5]@ == "https://[a-z0-9]+\\.webex\\.com/meet/[^\\s]+"@,
            r.show_all_day_events == true,
            r.event_status_filter == EventStatusFilter::All,
            r.additional_emails@ =~= Seq::<String>::empty(),
            r.show_in_progress == InProgressMeeting::Within5m,
    {
        let mut patterns: Vec<String> = Vec::new();
        patterns.push(String::from_str("https://meet\\.google\\.com/[a-z-]+"));
        patterns.push(String::from_str("https://[a-z0-9]+\\.zoom\\.us/j/[0-9]+"));
        patterns.push(String::from_str("https://teams\\.microsoft\\.com/l/meetup-join/[^\\s]+"));
        patterns.push(String::from_str("https://teams\\.live\\.com/meet/[^\\s]+"));
        patterns.push(String::from_str("https://[a-z0-9]+\\.webex\\.com/[^\\s]+/j\\.php\\?MTID=[^\\s]+"));
        patterns.push(String::from_str("https://[a-z0-9]+\\.webex\\.com/meet/[^\\s]+"));
        Config {
            auto_refresh_enabled: false,
            auto_refresh_interval_minutes: 10,
            enabled_calendar_uids: Vec::new(),
            display_format: DisplayFormat::DayAndTime,
            upcoming_events_count: 3,
            popup_join_button: JoinButtonVisibility::ShowIfSameDay,
            panel_join_button: JoinButtonVisibility::ShowIf15m,
            popup_location: LocationVisibility::Show,
            panel_location: LocationVisibility::Show,
            panel_calendar_indicator: false,
            popup_calendar_indicator: true,
            meeting_url_patterns: patterns,
            show_all_day_events: true,
            event_status_filter: EventStatusFilter::All,
            additional_emails: Vec::new(),
            show_in_progress: InProgressMeeting::Within5m,
        }
    }
}

} // verus!
