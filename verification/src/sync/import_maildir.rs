//! What a Maildir becomes in the archive.

pub mod coordinator;
pub mod fate_laws;
pub mod keywords;
pub mod messages;
