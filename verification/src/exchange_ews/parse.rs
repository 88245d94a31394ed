//! A calendar item as Exchange describes it.

use crate::exchange_ews::types::ItemId;
use vstd::prelude::*;

verus! {

/// How the events of a series follow each other.
#[derive(Debug)]
pub enum RecurrencePattern {
    Daily { interval: u32 },
    Weekly { interval: u32, days_of_week: Vec<String> },
    AbsoluteMonthly { interval: u32, day_of_month: u32 },
    RelativeMonthly { interval: u32, day_of_week_index: String, days_of_week: Vec<String> },
    AbsoluteYearly { month: String, day_of_month: u32 },
    RelativeYearly { month: String, day_of_week_index: String, days_of_week: Vec<String> },
}

/// When a series starts and ends.
#[derive(Debug)]
pub enum RecurrenceRange {
    NoEnd { start_date: String },
    EndDate { start_date: String, end_date: String },
    Numbered { start_date: String, number_of_occurrences: u32 },
}

/// A recurrence, as far as it was given.
#[derive(Debug, Default)]
pub struct RawRecurrence {
    pub pattern: Option<RecurrencePattern>,
    pub range: Option<RecurrenceRange>,
}

/// Someone, or some room, invited to an event.
#[derive(Debug, Default)]
pub struct RawAttendee {
    pub email: Option<String>,
    pub routing_type: Option<String>,
    pub name: Option<String>,
    pub response_type: Option<String>,
}

/// One occurrence of a series that was changed or deleted.
#[derive(Debug, Default)]
pub struct RawOccurrence {
    pub item_id: ItemId,
    pub start: Option<String>,
    pub end: Option<String>,
    pub original_start: Option<String>,
}

/// A calendar item.
#[derive(Debug, Default)]
pub struct CalendarItemRaw {
    pub id: ItemId,
    pub uid: Option<String>,
    pub subject: Option<String>,
    pub location: Option<String>,
    pub body_text: Option<String>,
    pub body_html: Option<String>,
    pub created: Option<String>,
    pub last_modified: Option<String>,
    pub categories: Vec<String>,
    pub is_all_day_event: Option<bool>,
    pub start: Option<String>,
    pub end: Option<String>,
    pub start_tz: Option<String>,
    pub legacy_free_busy_status: Option<String>,
    pub organizer_smtp: Option<String>,
    pub organizer_routing_type: Option<String>,
    pub organizer_name: Option<String>,
    pub required_attendees: Vec<RawAttendee>,
    pub optional_attendees: Vec<RawAttendee>,
    pub resources: Vec<RawAttendee>,
    pub recurrence: Option<RawRecurrence>,
    pub modified_occurrences: Vec<RawOccurrence>,
    pub deleted_occurrences: Vec<RawOccurrence>,
    pub reminder_is_set: Option<bool>,
    pub reminder_minutes_before_start: Option<i32>,
    pub join_online_meeting_url: Option<String>,
    pub net_show_url: Option<String>,
    pub meeting_workspace_url: Option<String>,
    pub is_online_meeting: Option<bool>,
}

} // verus!
