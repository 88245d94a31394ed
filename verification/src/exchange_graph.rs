//! Microsoft Graph as a source: its contacts, recurrences and answers.

pub mod client;
pub mod card_laws;
pub mod contact_map;
pub mod error;
pub mod expand;
pub mod expansion_laws;
pub mod recurrence;
pub mod retry;
pub mod series_laws;
pub mod types;
