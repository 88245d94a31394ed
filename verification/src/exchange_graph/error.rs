//! What can go wrong with Microsoft Graph.

use crate::text;
use vstd::prelude::*;

verus! {

/// An error of the Graph source.
#[derive(Debug)]
pub enum GraphError {
    Connect(String),
    Transport(String),
    Auth(String),
    HttpStatus { status: u16, body: String },
    RetriesExhausted(String),
    Malformed(String),
    Vanished,
}

/// What an error says.
pub open spec fn graph_text(e: GraphError) -> Seq<char> {
    match e {
        GraphError::Connect(m) => "connection failure: "@ + m@,
        GraphError::Transport(m) => "transport failure: "@ + m@,
        GraphError::Auth(m) => "authentication rejected: "@ + m@,
        GraphError::HttpStatus { status, body } => "http status "@ + text::dec(status as nat)
            + ": "@ + body@,
        GraphError::RetriesExhausted(m) => "retries exhausted: "@ + m@,
        GraphError::Malformed(m) => "malformed graph response: "@ + m@,
        GraphError::Vanished => "the item is no longer there"@,
    }
}

impl GraphError {
    /// What the error says.
    pub fn message(&self) -> (r: String)
        ensures
            r@ == graph_text(*self),
    {
        match self {
            GraphError::Connect(m) => text::joined("connection failure: ", m.as_str()),
            GraphError::Transport(m) => text::joined("transport failure: ", m.as_str()),
            GraphError::Auth(m) => text::joined("authentication rejected: ", m.as_str()),
            GraphError::HttpStatus { status, body } => {
                let mut s: String = "http status ".to_owned();
                s.append(text::decimal(*status as u64).as_str());
                s.append(": ");
                s.append(body.as_str());
                s
            },
            GraphError::RetriesExhausted(m) => text::joined("retries exhausted: ", m.as_str()),
            GraphError::Malformed(m) => text::joined("malformed graph response: ", m.as_str()),
            GraphError::Vanished => "the item is no longer there".to_owned(),
        }
    }
}

} // verus!
