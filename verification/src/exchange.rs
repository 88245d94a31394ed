//! What the Exchange sources share: addresses, dates and calendar patches.

pub mod address;
pub mod date;
pub mod jscalendar;
