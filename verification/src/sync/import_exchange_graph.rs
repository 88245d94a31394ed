//! An import from Microsoft Graph.

pub mod calendar;
pub mod coordinator;
pub mod files;
pub mod folders;
pub mod override_laws;
pub mod plan_laws;
pub mod runs;
pub mod series;
pub mod walk_laws;
