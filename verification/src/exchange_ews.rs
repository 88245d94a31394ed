//! Exchange Web Services as a source: its calendar items and recurrences.

pub mod calendar_map;
pub mod event_laws;
pub mod parse;
pub mod recurrence;
pub mod rule_laws;
pub mod types;
