//! Mailbox archiving: the verified core.
//!
//! The modules below hold the rules by which mail, contacts, calendars and
//! files are read from a source, kept in an archive and written to a target.
//! Input and output stay with the caller: a function here takes plain values
//! and gives plain values back, and its contract says exactly which.

pub mod text;
pub mod text_laws;
pub mod json;
pub mod exchange;
pub mod digest;
pub mod exchange_graph;
pub mod civil;
pub mod exchange_ews;
pub mod instant;
pub mod imap;
pub mod delay;
pub mod encoding;
pub mod error;
pub mod jmap;
pub mod types;
pub mod db;
pub mod dav;
pub mod links;
pub mod sync;
pub mod order;
pub mod tree;
