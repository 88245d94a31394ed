//! Runs: what they are told to do, what they count and how they end.

use crate::error;
use crate::error::Error;
use crate::jmap::http::Auth;
use crate::text;
use crate::types::ObjectType;
use vstd::prelude::*;

pub mod export;
pub mod import_dav;
pub mod import_exchange_graph;
pub mod import_imap;
pub mod import_jmap;
pub mod import_maildir;
pub mod import_takeout;

verus! {

/// The table that holds the objects of a kind.
pub open spec fn table_of(ty: ObjectType) -> Seq<char> {
    match ty {
        ObjectType::Mailbox => "mailboxes"@,
        ObjectType::Email => "emails"@,
        ObjectType::Identity => "identities"@,
        ObjectType::SieveScript => "sieve_scripts"@,
        ObjectType::AddressBook => "address_books"@,
        ObjectType::ContactCard => "contact_cards"@,
        ObjectType::Calendar => "calendars"@,
        ObjectType::CalendarEvent => "calendar_events"@,
        ObjectType::ParticipantIdentity => "participant_identities"@,
        ObjectType::FileNode => "file_nodes"@,
    }
}

/// The table that holds the objects of a kind.
pub fn table_name(ty: ObjectType) -> (r: &'static str)
    ensures
        r@ == table_of(ty),
{
    match ty {
        ObjectType::Mailbox => "mailboxes",
        ObjectType::Email => "emails",
        ObjectType::Identity => "identities",
        ObjectType::SieveScript => "sieve_scripts",
        ObjectType::AddressBook => "address_books",
        ObjectType::ContactCard => "contact_cards",
        ObjectType::Calendar => "calendars",
        ObjectType::CalendarEvent => "calendar_events",
        ObjectType::ParticipantIdentity => "participant_identities",
        ObjectType::FileNode => "file_nodes",
    }
}

/// What every run is told.
#[derive(Debug)]
pub struct CommonConfig {
    pub archive: String,
    pub threads: usize,
    pub dry_run: bool,
    pub max_retries: u32,
    pub allow_invalid_certs: bool,
    pub log_level: u8,
}

/// How an account of a server is chosen.
#[derive(Debug)]
pub enum AccountSelector {
    Default,
    Id(String),
    Name(String),
}

/// Where a server is and who asks.
#[derive(Debug)]
pub struct ConnectConfig {
    pub url: String,
    pub auth: Auth,
    pub account: AccountSelector,
}

/// What an import is told.
#[derive(Debug)]
pub struct ImportConfig {
    pub connect: ConnectConfig,
    pub objects: Option<Vec<ObjectType>>,
    pub allow_source_change: bool,
}

/// What an export is told.
#[derive(Debug)]
pub struct ExportConfig {
    pub connect: ConnectConfig,
    pub objects: Option<Vec<ObjectType>>,
    pub prune: bool,
    pub yes: bool,
}

/// What became of the objects of a kind.
#[derive(Clone, Copy, PartialEq, Eq, Structural, Debug)]
pub struct TypeCounts {
    pub created: u64,
    pub fetched: u64,
    pub updated: u64,
    pub deleted: u64,
    pub skipped: u64,
    pub failed: u64,
}

/// Counts that are all zero.
pub open spec fn no_counts() -> TypeCounts {
    TypeCounts { created: 0, fetched: 0, updated: 0, deleted: 0, skipped: 0, failed: 0 }
}

impl Default for TypeCounts {
    fn default() -> (r: TypeCounts)
        ensures
            r == no_counts(),
    {
        TypeCounts { created: 0, fetched: 0, updated: 0, deleted: 0, skipped: 0, failed: 0 }
    }
}

/// The line that reports what became of the objects of a kind.
pub open spec fn report_text(label: Seq<char>, c: TypeCounts) -> Seq<char> {
    label + ": created="@ + text::dec(c.created as nat) + " fetched="@ + text::dec(c.fetched as nat)
        + " updated="@ + text::dec(c.updated as nat) + " deleted="@ + text::dec(c.deleted as nat)
        + " skipped="@ + text::dec(c.skipped as nat) + " failed="@ + text::dec(c.failed as nat)
}

/// Reports what became of the objects of a kind.
pub fn report_line(label: &str, c: &TypeCounts) -> (r: String)
    ensures
        r@ == report_text(label@, *c),
{
    let mut s: String = text::joined(label, ": created=");
    s.append(text::decimal(c.created).as_str());
    s.append(" fetched=");
    s.append(text::decimal(c.fetched).as_str());
    s.append(" updated=");
    s.append(text::decimal(c.updated).as_str());
    s.append(" deleted=");
    s.append(text::decimal(c.deleted).as_str());
    s.append(" skipped=");
    s.append(text::decimal(c.skipped).as_str());
    s.append(" failed=");
    s.append(text::decimal(c.failed).as_str());
    s
}

/// What a run did.
#[derive(Debug)]
pub struct Summary {
    pub per_type: Vec<(&'static str, TypeCounts)>,
    pub retries_observed: u64,
    pub retry_after_sleeps: u64,
}

impl Default for Summary {
    fn default() -> (r: Summary)
        ensures
            r.per_type@.len() == 0,
            r.retries_observed == 0,
            r.retry_after_sleeps == 0,
    {
        Summary { per_type: Vec::new(), retries_observed: 0, retry_after_sleeps: 0 }
    }
}

/// Whether something failed.
pub open spec fn has_failures(s: Summary) -> bool {
    exists|i: int| 0 <= i < s.per_type@.len() && (#[trigger] s.per_type@[i]).1.failed > 0
}

impl Summary {
    /// Whether something failed.
    pub fn any_failed(&self) -> (r: bool)
        ensures
            r == has_failures(*self),
    {
        let mut i: usize = 0;
        while i < self.per_type.len()
            invariant
                i <= self.per_type@.len(),
                forall|k: int| 0 <= k < i ==> (#[trigger] self.per_type@[k]).1.failed == 0,
            decreases self.per_type@.len() - i,
        {
            if self.per_type[i].1.failed > 0 {
                assert(self.per_type@[i as int].1.failed > 0);
                return true;
            }
            i = i + 1;
        }
        false
    }
}

/// How a run ended: what it did until then, and the error that ended it.
#[derive(Debug)]
pub struct RunOutcome {
    pub summary: Summary,
    pub error: Option<Error>,
}

impl RunOutcome {
    /// The outcome of a run that reports nothing when it is ended by an error.
    pub fn from_result(result: Result<Summary, Error>) -> (r: RunOutcome)
        ensures
            match result {
                Ok(s) => r.summary == s && r.error is None,
                Err(e) => r.summary.per_type@.len() == 0 && r.summary.retries_observed == 0
                    && r.summary.retry_after_sleeps == 0 && r.error == Some(e),
            },
    {
        match result {
            Ok(summary) => RunOutcome { summary, error: None },
            Err(e) => RunOutcome { summary: Summary::default(), error: Some(e) },
        }
    }

    /// The error that ended a run, else what the run did.
    pub fn into_result(self) -> (r: Result<Summary, Error>)
        ensures
            r == outcome_result(self),
    {
        match self.error {
            Some(e) => Err(e),
            None => Ok(self.summary),
        }
    }

    /// The exit code of the program after a run.
    pub fn exit_code(&self) -> (r: i32)
        ensures
            r == (match self.error {
                Some(e) => error::exit_code_of(e),
                None => if has_failures(self.summary) {
                    5
                } else {
                    0
                },
            }),
    {
        match &self.error {
            Some(e) => e.exit_code(),
            None => {
                if self.summary.any_failed() {
                    5
                } else {
                    0
                }
            },
        }
    }
}

/// The error that ended a run, else what the run did.
pub open spec fn outcome_result(o: RunOutcome) -> Result<Summary, Error> {
    match o.error {
        Some(e) => Err(e),
        None => Ok(o.summary),
    }
}

/// What is made of a result gives the result back: a summary as it was, and an
/// error whatever else was counted.
pub proof fn outcomes_keep_their_results(result: Result<Summary, Error>, o: RunOutcome)
    requires
        match result {
            Ok(s) => o.summary == s && o.error is None,
            Err(e) => o.error == Some(e),
        },
    ensures
        outcome_result(o) == result,
{
}

/// A run exits with success exactly when no error ended it and nothing failed.
pub proof fn success_means_that_nothing_failed(o: RunOutcome)
    ensures
        (match o.error {
            Some(e) => error::exit_code_of(e),
            None => if has_failures(o.summary) {
                5
            } else {
                0
            },
        }) == 0 <==> o.error is None && !has_failures(o.summary),
{
}

/// What is said where the archive records another source of a kind.
pub open spec fn other_source(kind: Seq<char>, url: Seq<char>, account: Seq<char>) -> Seq<char> {
    "archive already records "@ + kind + " source "@ + url + " / "@ + account
        + "; re-run with --allow-source-change or use a fresh archive"@
}

/// Refuses an import from another source than the one that the archive
/// records, unless the change was allowed.
pub fn refuse_other_source(
    kind: &str,
    recorded: Option<(String, String)>,
    allow_source_change: bool,
) -> (r: Result<(), Error>)
    ensures
        if recorded is Some && !allow_source_change {
            r matches Err(Error::SourceChange(m)) && m@ == other_source(
                kind@,
                (recorded->0).0@,
                (recorded->0).1@,
            )
        } else {
            r is Ok
        },
{
    if allow_source_change {
        return Ok(());
    }
    match recorded {
        Some((url, account)) => {
            let mut m: String = text::joined("archive already records ", kind);
            m.append(" source ");
            m.append(url.as_str());
            m.append(" / ");
            m.append(account.as_str());
            m.append("; re-run with --allow-source-change or use a fresh archive");
            Err(Error::SourceChange(m))
        },
        None => Ok(()),
    }
}

} // verus!
