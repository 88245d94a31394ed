//! What can go wrong with a JMAP server.

use crate::error::Error;
use crate::jmap::blob::BlobWalkError;
use crate::text;
use vstd::prelude::*;

verus! {

/// An error of a JMAP request.
#[derive(Debug)]
pub enum JmapError {
    Transport(String),
    Connect(String),
    Auth(String),
    HttpStatus { status: u16, body: String },
    RetriesExhausted(String),
    RequestTooLarge,
    SingleObjectTooLarge(String),
    AnchorNotFound,
    CannotCalculateChanges,
    UnknownMethod,
    Method { call_id: String, error_type: String, description: Option<String> },
    Malformed(String),
    Json(String),
    Sqlite(String),
    Blob(BlobWalkError),
}

/// A description in brackets, after a space.
pub open spec fn in_brackets(d: Option<String>) -> Seq<char> {
    match d {
        Some(t) => " ("@ + t@ + ")"@,
        None => Seq::empty(),
    }
}

/// What a walk over blobs says of its error.
pub open spec fn walk_text(e: BlobWalkError) -> Seq<char>
    decreases e,
{
    match e {
        BlobWalkError::MalformedSentinel =>
            "malformed @blob sentinel: expected integer local id"@,
        BlobWalkError::Resolver(source) => "blob resolver failed: "@ + jmap_text(*source),
    }
}

/// What an error says.
pub open spec fn jmap_text(e: JmapError) -> Seq<char>
    decreases e,
{
    match e {
        JmapError::Transport(m) => "transport failure: "@ + m@,
        JmapError::Connect(m) => "connection failure: "@ + m@,
        JmapError::Auth(m) => "authentication rejected: "@ + m@,
        JmapError::HttpStatus { status, body } => "http status "@ + text::dec(status as nat)
            + ": "@ + body@,
        JmapError::RetriesExhausted(m) => "retries exhausted: "@ + m@,
        JmapError::RequestTooLarge => "request too large"@,
        JmapError::SingleObjectTooLarge(m) =>
            "single object exceeds the server size limit and cannot be split: "@ + m@,
        JmapError::AnchorNotFound => "query anchor not found"@,
        JmapError::CannotCalculateChanges =>
            "server cannot calculate changes from the stored state"@,
        JmapError::UnknownMethod => "server does not implement the requested method"@,
        JmapError::Method { call_id, error_type, description } => "jmap method error in call "@
            + call_id@ + ": "@ + error_type@ + in_brackets(description),
        JmapError::Malformed(m) => "malformed jmap response: "@ + m@,
        JmapError::Json(m) => "json error: "@ + m@,
        JmapError::Sqlite(m) => "sqlite error: "@ + m@,
        JmapError::Blob(w) => "blob walk error: "@ + walk_text(w),
    }
}

impl BlobWalkError {
    /// What the error says.
    pub fn message(&self) -> (r: String)
        ensures
            r@ == walk_text(*self),
        decreases self,
    {
        match self {
            BlobWalkError::MalformedSentinel =>
                "malformed @blob sentinel: expected integer local id".to_owned(),
            BlobWalkError::Resolver(source) => {
                let s: String = source.message();
                text::joined("blob resolver failed: ", s.as_str())
            },
        }
    }
}

impl JmapError {
    /// A response that is not what it should be.
    pub fn malformed(context: &str) -> (r: JmapError)
        ensures
            r matches JmapError::Malformed(m) && m@ == context@,
    {
        JmapError::Malformed(context.to_owned())
    }

    /// What the error says.
    pub fn message(&self) -> (r: String)
        ensures
            r@ == jmap_text(*self),
        decreases self,
    {
        match self {
            JmapError::Transport(m) => text::joined("transport failure: ", m.as_str()),
            JmapError::Connect(m) => text::joined("connection failure: ", m.as_str()),
            JmapError::Auth(m) => text::joined("authentication rejected: ", m.as_str()),
            JmapError::HttpStatus { status, body } => {
                let n: String = text::decimal(*status as u64);
                let mut s: String = "http status ".to_owned();
                s.append(n.as_str());
                s.append(": ");
                s.append(body.as_str());
                s
            },
            JmapError::RetriesExhausted(m) => text::joined("retries exhausted: ", m.as_str()),
            JmapError::RequestTooLarge => "request too large".to_owned(),
            JmapError::SingleObjectTooLarge(m) => text::joined(
                "single object exceeds the server size limit and cannot be split: ",
                m.as_str(),
            ),
            JmapError::AnchorNotFound => "query anchor not found".to_owned(),
            JmapError::CannotCalculateChanges =>
                "server cannot calculate changes from the stored state".to_owned(),
            JmapError::UnknownMethod => "server does not implement the requested method".to_owned(),
            JmapError::Method { call_id, error_type, description } => {
                let mut s: String = "jmap method error in call ".to_owned();
                s.append(call_id.as_str());
                s.append(": ");
                s.append(error_type.as_str());
                let ghost so_far = s@;
                match description {
                    Some(d) => {
                        s.append(" (");
                        s.append(d.as_str());
                        s.append(")");
                        assert(s@ =~= so_far + (" ("@ + d@ + ")"@));
                    },
                    None => {
                        assert(so_far =~= so_far + Seq::<char>::empty());
                    },
                }
                s
            },
            JmapError::Malformed(m) => text::joined("malformed jmap response: ", m.as_str()),
            JmapError::Json(m) => text::joined("json error: ", m.as_str()),
            JmapError::Sqlite(m) => text::joined("sqlite error: ", m.as_str()),
            JmapError::Blob(w) => {
                let s: String = w.message();
                text::joined("blob walk error: ", s.as_str())
            },
        }
    }
}

/// Whether an error of a run is the one that an error of a JMAP request gives.
pub open spec fn is_run_error(value: JmapError, r: Error) -> bool {
    match value {
        JmapError::Connect(m) => r matches Error::Connection(t) && t@ == m@,
        JmapError::Transport(m) => r matches Error::Connection(t) && t@ == m@,
        JmapError::Auth(m) => r matches Error::Connection(t) && t@ == "authentication rejected: "@
            + m@,
        JmapError::Sqlite(m) => r matches Error::Db(t) && t@ == m@,
        JmapError::HttpStatus { status, body } => r matches Error::Connection(t) && t@ == jmap_text(
            value,
        ),
        JmapError::RetriesExhausted(_) => r matches Error::Connection(t) && t@ == jmap_text(value),
        _ => r matches Error::Partial(t) && t@ == jmap_text(value),
    }
}

/// What an error of a JMAP request means for the run: a server that cannot be
/// reached ends it, as an archive that cannot be written does; everything else
/// concerns one unit.
pub fn run_error(value: JmapError) -> (r: Error)
    ensures
        is_run_error(value, r),
{
    match value {
        JmapError::Connect(m) => Error::Connection(m),
        JmapError::Transport(m) => Error::Connection(m),
        JmapError::Auth(m) => Error::Connection(
            text::joined("authentication rejected: ", m.as_str()),
        ),
        JmapError::Sqlite(m) => Error::Db(m),
        JmapError::HttpStatus { status, body } => {
            let e: JmapError = JmapError::HttpStatus { status, body };
            Error::Connection(e.message())
        },
        JmapError::RetriesExhausted(m) => {
            let e: JmapError = JmapError::RetriesExhausted(m);
            Error::Connection(e.message())
        },
        other => Error::Partial(other.message()),
    }
}

impl vstd::std_specs::convert::FromSpecImpl<JmapError> for Error {
    open spec fn obeys_from_spec() -> bool {
        false
    }

    open spec fn from_spec(value: JmapError) -> Error {
        arbitrary()
    }
}

impl From<JmapError> for Error {
    fn from(value: JmapError) -> (r: Error)
        ensures
            is_run_error(value, r),
    {
        run_error(value)
    }
}

/// What an error on one collection means for the run: it ends it only where
/// the archive cannot be written.
pub fn per_collection_failure(err: JmapError) -> (r: Error)
    ensures
        match err {
            JmapError::Sqlite(m) => r matches Error::Db(t) && t@ == m@,
            _ => r matches Error::Partial(t) && t@ == jmap_text(err),
        },
{
    match err {
        JmapError::Sqlite(m) => Error::Db(m),
        scoped => Error::Partial(scoped.message()),
    }
}

} // verus!
