//! What a JMAP account becomes in the archive.

pub mod cards;
pub mod collections;
pub mod mapping;
pub mod nodes;
