//! The errors that end a run, or one unit of it, and the exit codes they give.

use crate::text;
use vstd::prelude::*;

verus! {

/// An error of a run.
#[derive(Debug)]
pub enum Error {
    Usage(String),
    Connection(String),
    Account(String),
    SourceChange(String),
    Partial(String),
    PruneAborted,
    Unimplemented(String),
    Db(String),
    Io(String),
}

/// What an error says.
pub open spec fn error_text(e: Error) -> Seq<char> {
    match e {
        Error::Usage(m) => "usage error: "@ + m@,
        Error::Connection(m) => "connection error: "@ + m@,
        Error::Account(m) => "account resolution failed: "@ + m@,
        Error::SourceChange(m) => "source-change protection: "@ + m@,
        Error::Partial(m) => "partial failure: "@ + m@,
        Error::PruneAborted => "aborted at prune confirmation"@,
        Error::Unimplemented(m) => "not yet implemented: "@ + m@,
        Error::Db(m) => "archive error: sqlite error: "@ + m@,
        Error::Io(m) => "i/o error: "@ + m@,
    }
}

impl Error {
    /// Whether the error ends the whole run, and not one unit of it.
    pub fn aborts_run(&self) -> (r: bool)
        ensures
            r == !(*self is Partial),
    {
        match self {
            Error::Partial(_) => false,
            _ => true,
        }
    }

    /// The exit code that the error gives.
    pub fn exit_code(&self) -> (r: i32)
        ensures
            r == exit_code_of(*self),
    {
        match self {
            Error::Usage(_) => 1,
            Error::Connection(_) => 2,
            Error::Account(_) => 3,
            Error::SourceChange(_) => 4,
            Error::Partial(_) => 5,
            Error::PruneAborted => 6,
            Error::Unimplemented(_) => 1,
            Error::Db(_) => 7,
            Error::Io(_) => 7,
        }
    }

    /// What the error says.
    pub fn message(&self) -> (r: String)
        ensures
            r@ == error_text(*self),
    {
        match self {
            Error::Usage(m) => text::joined("usage error: ", m.as_str()),
            Error::Connection(m) => text::joined("connection error: ", m.as_str()),
            Error::Account(m) => text::joined("account resolution failed: ", m.as_str()),
            Error::SourceChange(m) => text::joined("source-change protection: ", m.as_str()),
            Error::Partial(m) => text::joined("partial failure: ", m.as_str()),
            Error::PruneAborted => "aborted at prune confirmation".to_owned(),
            Error::Unimplemented(m) => text::joined("not yet implemented: ", m.as_str()),
            Error::Db(m) => text::joined("archive error: sqlite error: ", m.as_str()),
            Error::Io(m) => text::joined("i/o error: ", m.as_str()),
        }
    }
}

/// The exit code of each kind of error.
pub open spec fn exit_code_of(e: Error) -> i32 {
    match e {
        Error::Usage(_) => 1,
        Error::Connection(_) => 2,
        Error::Account(_) => 3,
        Error::SourceChange(_) => 4,
        Error::Partial(_) => 5,
        Error::PruneAborted => 6,
        Error::Unimplemented(_) => 1,
        Error::Db(_) => 7,
        Error::Io(_) => 7,
    }
}

/// An error gives the exit code of a partial failure exactly when it does not
/// end the run, and no error gives the exit code of success.
pub proof fn only_partial_failures_exit_as_such(e: Error)
    ensures
        exit_code_of(e) == 5 <==> e is Partial,
        exit_code_of(e) != 0,
{
}

} // verus!
