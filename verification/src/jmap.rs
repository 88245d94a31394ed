//! JMAP: sessions, requests, retries and the blobs inside objects.

pub mod answer_laws;
pub mod blob;
pub mod connect;
pub mod error;
pub mod http;
pub mod objects;
pub mod retry;
pub mod session;
pub mod session_laws;
pub mod wire;
