//! What an export of a mail provider becomes in the archive.

pub mod coordinator;
