//! Workers that fetch messages: when a job is tried again, and which name a
//! folder is selected by.

use crate::imap::error::ImapError;
use crate::imap::name;
use crate::json;
use crate::text;
use vstd::prelude::*;

verus! {

/// How many workers there are at most.
pub const HARD_CAP: usize = 8;

/// Messages to fetch from a folder.
#[derive(Debug)]
pub struct FetchJob {
    pub folder: String,
    pub uidvalidity: u32,
    pub uids: Vec<u32>,
}

/// What is fetched of a message.
#[derive(Debug)]
pub struct FetchAttrs {
    pub uid: u32,
    pub flags: Vec<String>,
    pub internal_date: Option<String>,
    pub size: Option<u64>,
    pub body: Vec<u8>,
}

/// What a worker reports.
#[derive(Debug)]
pub enum FetchEvent {
    Item { folder: String, uidvalidity: u32, attrs: FetchAttrs },
    ChunkDone {
        folder: String,
        uidvalidity: u32,
        uids_requested: Vec<u32>,
        outcome: Result<(), ImapError>,
    },
}

/// What a worker is told.
#[derive(Debug)]
pub struct WorkerArgs {
    pub host: String,
    pub port: u16,
    pub compress: bool,
    pub max_retries: u32,
}

/// How many workers are started: at least one, at most the cap.
pub fn pool_size(wanted: usize) -> (r: usize)
    ensures
        r == (if wanted < 1 {
            1
        } else if wanted > HARD_CAP {
            HARD_CAP
        } else {
            wanted
        }),
{
    if wanted < 1 {
        1
    } else if wanted > HARD_CAP {
        HARD_CAP
    } else {
        wanted
    }
}

/// What a failure means for a connection.
#[derive(Clone, Copy, PartialEq, Eq, Structural, Debug)]
pub enum Disposition {
    /// The connection is gone.
    TransportDrop,
    /// The server asks to come back later.
    Transient,
    /// Trying again does not help.
    Fatal,
}

/// A job on its way.
#[derive(Clone, Copy, PartialEq, Eq, Structural, Debug)]
pub struct JobRun {
    pub max_retries: u32,
    pub transient_attempts: u32,
    pub transport_attempts: u32,
}

/// What a worker does next.
#[derive(Clone, Copy, PartialEq, Eq, Structural, Debug)]
pub enum Action {
    /// The job is done; the waits start over.
    Done,
    /// The job has failed. The connection may have to go.
    Fail { drop_connection: bool },
    /// Connect anew after the wait for the given attempt.
    Reconnect { attempt: u32 },
    /// Try again on the same connection after the wait that all workers share.
    Retry,
}

impl JobRun {
    /// A job that was not tried yet.
    pub fn new(max_retries: u32) -> (r: JobRun)
        ensures
            r.max_retries == max_retries,
            r.transient_attempts == 0,
            r.transport_attempts == 0,
    {
        JobRun { max_retries, transient_attempts: 0, transport_attempts: 0 }
    }

    /// Whether the attempts are within the limit.
    pub open spec fn wf(self) -> bool {
        self.transient_attempts <= self.max_retries && self.transport_attempts <= self.max_retries
    }

    /// Decides what follows a connection that failed.
    pub fn after_connect_failure(&mut self, d: Disposition) -> (r: Action)
        requires
            old(self).wf(),
        ensures
            final(self).wf(),
            if d == Disposition::TransportDrop && old(self).transport_attempts < old(
                self,
            ).max_retries {
                &&& *final(self) == (JobRun {
                    transport_attempts: (old(self).transport_attempts + 1) as u32,
                    ..*old(self)
                })
                &&& r == (Action::Reconnect { attempt: final(self).transport_attempts })
            } else {
                *final(self) == *old(self) && r == (Action::Fail { drop_connection: false })
            },
    {
        if d == Disposition::TransportDrop && self.transport_attempts < self.max_retries {
            self.transport_attempts = self.transport_attempts + 1;
            return Action::Reconnect { attempt: self.transport_attempts };
        }
        Action::Fail { drop_connection: false }
    }

    /// Decides what follows a job that was run.
    pub fn after_job(&mut self, result: Result<(), Disposition>) -> (r: Action)
        requires
            old(self).wf(),
        ensures
            final(self).wf(),
            match result {
                Ok(_) => r == Action::Done && *final(self) == *old(self),
                Err(Disposition::TransportDrop) => if old(self).transport_attempts >= old(
                    self,
                ).max_retries {
                    r == (Action::Fail { drop_connection: true }) && *final(self) == *old(self)
                } else {
                    &&& *final(self) == (JobRun {
                        transport_attempts: (old(self).transport_attempts + 1) as u32,
                        ..*old(self)
                    })
                    &&& r == (Action::Reconnect { attempt: final(self).transport_attempts })
                },
                Err(Disposition::Transient) => if old(self).transient_attempts >= old(
                    self,
                ).max_retries {
                    r == (Action::Fail { drop_connection: false }) && *final(self) == *old(self)
                } else {
                    &&& *final(self) == (JobRun {
                        transient_attempts: (old(self).transient_attempts + 1) as u32,
                        ..*old(self)
                    })
                    &&& r == Action::Retry
                },
                Err(Disposition::Fatal) => r == (Action::Fail { drop_connection: false })
                    && *final(self) == *old(self),
            },
    {
        match result {
            Ok(_) => Action::Done,
            Err(d) => match d {
                Disposition::TransportDrop => {
                    if self.transport_attempts >= self.max_retries {
                        return Action::Fail { drop_connection: true };
                    }
                    self.transport_attempts = self.transport_attempts + 1;
                    Action::Reconnect { attempt: self.transport_attempts }
                },
                Disposition::Transient => {
                    if self.transient_attempts >= self.max_retries {
                        return Action::Fail { drop_connection: false };
                    }
                    self.transient_attempts = self.transient_attempts + 1;
                    Action::Retry
                },
                Disposition::Fatal => Action::Fail { drop_connection: false },
            },
        }
    }
}

/// How many attempts a job has left.
pub open spec fn attempts_left(j: JobRun) -> int {
    (j.max_retries - j.transient_attempts) + (j.max_retries - j.transport_attempts)
}

/// A job ends: every further attempt leaves one fewer, whatever fails.
pub proof fn jobs_end(before: JobRun, after: JobRun)
    requires
        before.wf(),
        after.wf(),
        after.max_retries == before.max_retries,
        (after.transient_attempts == before.transient_attempts + 1 && after.transport_attempts
            == before.transport_attempts) || (after.transport_attempts == before.transport_attempts
            + 1 && after.transient_attempts == before.transient_attempts),
    ensures
        0 <= attempts_left(after) < attempts_left(before),
{
}

/// The names that a folder is selected by: the first one, and one to try where
/// the server says that it has no such folder.
pub fn select_names(folder: &str, utf8_accept: bool) -> (r: (String, Option<String>))
    ensures
        r.0@ == name::encoded_for(folder@, utf8_accept),
        json::text_view(r.1) == (if name::encoded(folder@) == folder@ {
            None
        } else {
            Some(name::encoded_for(folder@, !utf8_accept))
        }),
{
    (
        name::encode_mailbox_name_with(folder, utf8_accept),
        name::alternate_mailbox_name(folder, utf8_accept),
    )
}

/// The name to select a folder by after the first one was refused: only a
/// server that says no may know the folder by the other name.
pub fn name_after_refusal(refusal: &ImapError, folder: &str, utf8_accept: bool) -> (r: Option<
    String,
>)
    ensures
        json::text_view(r) == (if *refusal is No && name::encoded(folder@) != folder@ {
            Some(name::encoded_for(folder@, !utf8_accept))
        } else {
            None
        }),
{
    match refusal {
        ImapError::No(_) => name::alternate_mailbox_name(folder, utf8_accept),
        _ => None,
    }
}

/// What is switched on once a connection is there.
#[derive(Clone, Copy, PartialEq, Eq, Structural, Debug)]
pub struct Setup {
    pub compress: bool,
    pub enable_utf8: bool,
}

/// Whether a server names a capability.
pub open spec fn names_capability(capabilities: Seq<Seq<char>>, wanted: Seq<char>) -> bool {
    exists|i: int|
        0 <= i < capabilities.len() && text::lowered(#[trigger] capabilities[i]) == text::lowered(
            wanted,
        )
}

fn has_capability(capabilities: &Vec<String>, wanted: &str) -> (r: bool)
    ensures
        r == names_capability(text::texts(capabilities@), wanted@),
{
    let ghost all = text::texts(capabilities@);
    let mut i: usize = 0;
    while i < capabilities.len()
        invariant
            i <= capabilities@.len(),
            all == text::texts(capabilities@),
            forall|k: int|
                0 <= k < i ==> text::lowered(#[trigger] all[k]) != text::lowered(wanted@),
        decreases capabilities@.len() - i,
    {
        if text::same_ignoring_case(capabilities[i].as_str(), wanted) {
            assert(text::lowered(all[i as int]) == text::lowered(wanted@));
            return true;
        }
        i = i + 1;
    }
    false
}

/// Decides what is switched on: compression where it is wanted and the server
/// has it, names in UTF-8 where the server can be told to take them.
pub fn setup(compress: bool, capabilities: &Vec<String>) -> (r: Setup)
    ensures
        r.compress == (compress && names_capability(
            text::texts(capabilities@),
            "COMPRESS=DEFLATE"@,
        )),
        r.enable_utf8 == (names_capability(text::texts(capabilities@), "ENABLE"@)
            && names_capability(text::texts(capabilities@), "UTF8=ACCEPT"@)),
{
    Setup {
        compress: compress && has_capability(capabilities, "COMPRESS=DEFLATE"),
        enable_utf8: has_capability(capabilities, "ENABLE") && has_capability(
            capabilities,
            "UTF8=ACCEPT",
        ),
    }
}

/// Whether a folder has to be selected before a job on it.
pub fn needs_select(current: Option<&str>, folder: &str) -> (r: bool)
    ensures
        r == (json::str_view(current) != Some(folder@)),
{
    match current {
        Some(c) => !text::same(c, folder),
        None => true,
    }
}

} // verus!
