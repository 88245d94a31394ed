//! An import from an IMAP server.

pub mod pool;
