//! CalDAV, CardDAV and WebDAV: where the collections of a user are.

pub mod discover;
pub mod search_laws;
pub mod xml;
