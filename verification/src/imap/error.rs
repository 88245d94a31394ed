//! What can go wrong with an IMAP server.

use vstd::prelude::*;

verus! {

/// An error of the IMAP source.
#[derive(Debug)]
pub enum ImapError {
    Parse(String),
    Protocol(String),
    AuthFailed(String),
    No(String),
    Transport(String),
}

} // verus!
