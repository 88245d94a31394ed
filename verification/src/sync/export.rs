//! Exports: what is written to a server.

pub mod email;
pub mod message_laws;
pub mod object_laws;
pub mod uidtype;
