//! IMAP as a source: mailbox names and the errors of a connection.

pub mod error;
pub mod name;
