//! The run of an import from a Maildir.

use crate::error;
use crate::error::Error;
use crate::json;
use crate::links;
use crate::order;
use crate::sync;
use crate::sync::import_maildir::messages;
use crate::sync::import_maildir::messages::{Done, LocalMail};
use crate::sync::{RunOutcome, Summary, TypeCounts};
use crate::text;
use vstd::prelude::*;

verus! {

/// What an import is told. The folders to take and to leave are patterns.
#[derive(Debug)]
pub struct MaildirImportConfig {
    pub maildir: String,
    pub include_folders: Vec<String>,
    pub exclude_folders: Vec<String>,
    pub folder: Vec<String>,
    pub automap: bool,
    pub include_deleted: bool,
    pub allow_source_change: bool,
}

/// Refuses folders that are named together with patterns.
pub fn check_filters(config: &MaildirImportConfig) -> (r: Result<(), Error>)
    ensures
        if config.folder@.len() > 0 && (config.include_folders@.len() > 0
            || config.exclude_folders@.len() > 0) {
            r matches Err(Error::Usage(m)) && m@
                == "--folder is mutually exclusive with --include/--exclude"@
        } else {
            r is Ok
        },
{
    if config.folder.len() > 0 && (config.include_folders.len() > 0
        || config.exclude_folders.len() > 0) {
        return Err(
            Error::Usage("--folder is mutually exclusive with --include/--exclude".to_owned()),
        );
    }
    Ok(())
}

/// Why a path is no Maildir that can be imported.
#[derive(Debug)]
pub enum DiscoverError {
    NotFound(String),
    NotADirectory(String),
    NotAMaildir(String),
    NotMaildirPlus(String),
    Io(String, String),
}

/// What is said of a path that is no Maildir.
pub open spec fn discover_text(e: DiscoverError) -> Seq<char> {
    match e {
        DiscoverError::NotFound(p) => "maildir path does not exist: "@ + text::debug_text(p@),
        DiscoverError::NotADirectory(p) => "not a directory: "@ + text::debug_text(p@),
        DiscoverError::NotAMaildir(p) => "not a Maildir: "@ + text::debug_text(p@)
            + " (missing cur/ subdirectory)"@,
        DiscoverError::NotMaildirPlus(name) =>
            "only Maildir++ layout is supported; found non-prefixed subfolder "@
            + text::debug_text(name@)
            + " (subfolders must be named with a leading '.', e.g. '."@ + name@ + "')"@,
        DiscoverError::Io(p, e) => "walking "@ + text::debug_text(p@) + ": "@ + e@,
    }
}

/// What a path that is no Maildir means for the run.
pub fn map_discover_error(e: &DiscoverError) -> (r: Error)
    ensures
        r matches Error::Usage(m) && m@ == discover_text(*e),
{
    match e {
        DiscoverError::NotFound(p) => Error::Usage(
            text::joined("maildir path does not exist: ", text::quoted(p.as_str()).as_str()),
        ),
        DiscoverError::NotADirectory(p) => Error::Usage(
            text::joined("not a directory: ", text::quoted(p.as_str()).as_str()),
        ),
        DiscoverError::NotAMaildir(p) => {
            let mut m: String = text::joined("not a Maildir: ", text::quoted(p.as_str()).as_str());
            m.append(" (missing cur/ subdirectory)");
            Error::Usage(m)
        },
        DiscoverError::NotMaildirPlus(name) => {
            let mut m: String = text::joined(
                "only Maildir++ layout is supported; found non-prefixed subfolder ",
                text::quoted(name.as_str()).as_str(),
            );
            m.append(" (subfolders must be named with a leading '.', e.g. '.");
            m.append(name.as_str());
            m.append("')");
            Error::Usage(m)
        },
        DiscoverError::Io(p, e) => {
            let mut m: String = text::joined("walking ", text::quoted(p.as_str()).as_str());
            m.append(": ");
            m.append(e.as_str());
            Error::Usage(m)
        },
    }
}

/// The URL of a Maildir.
pub fn file_url_for(path: &str) -> (r: Result<String, Error>)
    ensures
        match r {
            Ok(u) => links::file_url(path@) == Some(u@),
            Err(e) => links::file_url(path@) is None && (e matches Error::Usage(m) && m@
                == "cannot encode maildir path as a file:// URL: "@ + text::debug_text(path@)),
        },
{
    links::file_url_for(path, "cannot encode maildir path as a file:// URL: ")
}

/// Refuses an import from another Maildir than the one that the archive
/// records, unless the change was allowed.
pub fn source_change(recorded: Option<(String, String)>, allow_source_change: bool) -> (r: Result<
    (),
    Error,
>)
    ensures
        if recorded is Some && !allow_source_change {
            r matches Err(Error::SourceChange(m)) && m@ == sync::other_source(
                "maildir"@,
                (recorded->0).0@,
                (recorded->0).1@,
            )
        } else {
            r is Ok
        },
{
    sync::refuse_other_source("maildir", recorded, allow_source_change)
}

/// What is said where a path looks like a folder of a Maildir: its name begins
/// with a dot, and the directory that it is in has a `cur`.
pub open spec fn subfolder_warning(
    basename: Option<Seq<char>>,
    path: Seq<char>,
    parent: Option<Seq<char>>,
    parent_has_cur: bool,
) -> Option<Seq<char>> {
    if basename is Some && text::has_prefix(basename->0, "."@) && parent is Some
        && parent_has_cur {
        Some(
            "warning: "@ + text::debug_text(path) + " looks like a Maildir++ subfolder of "@
                + text::debug_text(parent->0)
                + " (basename starts with '.' and the parent has its own cur/); proceeding, but you may have meant to import the parent"@,
        )
    } else {
        None
    }
}

/// The warning for a path that looks like a folder of a Maildir.
pub fn warn_if_looks_like_subfolder(
    basename: Option<&str>,
    path: &str,
    parent: Option<&str>,
    parent_has_cur: bool,
) -> (r: Option<String>)
    ensures
        json::text_view(r) == subfolder_warning(
            json::str_view(basename),
            path@,
            json::str_view(parent),
            parent_has_cur,
        ),
{
    let name: &str = match basename {
        Some(n) => n,
        None => {
            return None;
        },
    };
    if !text::starts_with(name, ".") {
        return None;
    }
    let dir: &str = match parent {
        Some(p) => p,
        None => {
            return None;
        },
    };
    if !parent_has_cur {
        return None;
    }
    let mut m: String = text::joined("warning: ", text::quoted(path).as_str());
    m.append(" looks like a Maildir++ subfolder of ");
    m.append(text::quoted(dir).as_str());
    m.append(
        " (basename starts with '.' and the parent has its own cur/); proceeding, but you may have meant to import the parent",
    );
    Some(m)
}

/// A folder to import.
#[derive(Debug)]
pub struct ResolvedFolder {
    pub name: String,
    pub leaf: String,
    pub parent_path: Option<String>,
    pub role: Option<String>,
    pub ephemeral: bool,
}

/// A folder and its mailbox.
#[derive(Debug)]
pub struct FolderId {
    pub name: String,
    pub local_id: i64,
}

/// The mailbox of a folder.
pub open spec fn mailbox_of(ids: Seq<FolderId>, name: Seq<char>) -> Option<i64>
    decreases ids.len(),
{
    if ids.len() == 0 {
        None
    } else if ids.last().name@ == name {
        Some(ids.last().local_id)
    } else {
        mailbox_of(ids.drop_last(), name)
    }
}

/// Finds the mailbox of a folder.
pub fn find_mailbox(ids: &Vec<FolderId>, name: &str) -> (r: Option<i64>)
    ensures
        r == mailbox_of(ids@, name@),
{
    let mut n: usize = ids.len();
    assert(ids@.take(n as int) =~= ids@);
    while n > 0
        invariant
            n <= ids@.len(),
            mailbox_of(ids@.take(n as int), name@) == mailbox_of(ids@, name@),
        decreases n,
    {
        proof {
            let taken = ids@.take(n as int);
            assert(taken.last() == ids@[n - 1]);
            assert(taken.drop_last() =~= ids@.take(n - 1));
        }
        if text::same(ids[n - 1].name.as_str(), name) {
            return Some(ids[n - 1].local_id);
        }
        n = n - 1;
    }
    None
}

/// How a folder's mailbox is written: which one it is, if it is there, its
/// parent, and whether it is subscribed to.
#[derive(Clone, Copy, PartialEq, Eq, Structural, Debug)]
pub struct MailboxPlan {
    pub existing: Option<i64>,
    pub parent: Option<i64>,
    pub is_subscribed: bool,
}

/// The parent of a folder's mailbox: among those written in this run, else
/// among those of the archive.
pub open spec fn parent_mailbox(
    parent_path: Option<Seq<char>>,
    written: Seq<FolderId>,
    stored: Seq<FolderId>,
) -> Option<i64> {
    match parent_path {
        Some(p) => match mailbox_of(written, p) {
            Some(n) => Some(n),
            None => mailbox_of(stored, p),
        },
        None => None,
    }
}

/// Finds how a folder's mailbox is written.
pub fn plan_mailbox(
    folder: &ResolvedFolder,
    written: &Vec<FolderId>,
    stored: &Vec<FolderId>,
) -> (r: MailboxPlan)
    ensures
        r == (MailboxPlan {
            existing: mailbox_of(stored@, folder.name@),
            parent: parent_mailbox(json::text_view(folder.parent_path), written@, stored@),
            is_subscribed: !folder.ephemeral,
        }),
{
    let parent: Option<i64> = match &folder.parent_path {
        Some(p) => match find_mailbox(written, p.as_str()) {
            Some(n) => Some(n),
            None => find_mailbox(stored, p.as_str()),
        },
        None => None,
    };
    MailboxPlan {
        existing: find_mailbox(stored, folder.name.as_str()),
        parent,
        is_subscribed: !folder.ephemeral,
    }
}

/// Counts a mailbox that was written: a new one was created and fetched.
pub fn count_mailbox(plan: &MailboxPlan, counts: &mut TypeCounts)
    requires
        old(counts).created < u64::MAX,
        old(counts).fetched < u64::MAX,
    ensures
        *final(counts) == (if plan.existing is None {
            TypeCounts {
                created: (old(counts).created + 1) as u64,
                fetched: (old(counts).fetched + 1) as u64,
                ..*old(counts)
            }
        } else {
            *old(counts)
        }),
{
    if plan.existing.is_none() {
        counts.created = counts.created + 1;
        counts.fetched = counts.fetched + 1;
    }
}

/// Whether a folder is one of those to import.
pub open spec fn is_listed(folders: Seq<ResolvedFolder>, name: Seq<char>) -> bool {
    exists|i: int| 0 <= i < folders.len() && (#[trigger] folders[i]).name@ == name
}

fn lists(folders: &Vec<ResolvedFolder>, name: &str) -> (r: bool)
    ensures
        r == is_listed(folders@, name@),
{
    let mut i: usize = 0;
    while i < folders.len()
        invariant
            i <= folders@.len(),
            forall|k: int| 0 <= k < i ==> (#[trigger] folders@[k]).name@ != name@,
        decreases folders@.len() - i,
    {
        if text::same(folders[i].name.as_str(), name) {
            assert(folders@[i as int].name@ == name@);
            return true;
        }
        i = i + 1;
    }
    false
}

/// The folders of the archive that are gone from the disk.
pub open spec fn gone(stored: Seq<FolderId>, folders: Seq<ResolvedFolder>) -> Seq<Seq<char>>
    decreases stored.len(),
{
    if stored.len() == 0 {
        Seq::empty()
    } else {
        let before = gone(stored.drop_last(), folders);
        if is_listed(folders, stored.last().name@) {
            before
        } else {
            before.push(stored.last().name@)
        }
    }
}

/// Finds the folders of the archive that are gone from the disk.
pub fn vanished_folders(stored: &Vec<FolderId>, folders: &Vec<ResolvedFolder>) -> (r: Vec<String>)
    ensures
        text::texts(r@) == gone(stored@, folders@),
        r@.len() <= stored@.len(),
{
    let mut out: Vec<String> = Vec::new();
    let mut i: usize = 0;
    assert(stored@.take(0) =~= Seq::empty());
    assert(text::texts(out@) =~= Seq::empty());
    while i < stored.len()
        invariant
            i <= stored@.len(),
            out@.len() <= i,
            text::texts(out@) == gone(stored@.take(i as int), folders@),
        decreases stored@.len() - i,
    {
        let ghost before = text::texts(out@);
        proof {
            assert(stored@.take(i as int + 1).drop_last() =~= stored@.take(i as int));
            assert(stored@.take(i as int + 1).last() == stored@[i as int]);
        }
        if !lists(folders, stored[i].name.as_str()) {
            out.push(stored[i].name.clone());
            assert(text::texts(out@) =~= before.push(stored@[i as int].name@));
        }
        i = i + 1;
    }
    assert(stored@.take(i as int) =~= stored@);
    out
}

/// What is said of a folder that is gone while others are still in it.
pub open spec fn surviving_child_text(name: Seq<char>) -> Seq<char> {
    "folder "@ + text::debug_text(name)
        + ": vanished from disk but still has child mailboxes in the archive; skipping delete (parent_id RESTRICT)"@
}

/// Whether the mailbox of a folder that is gone is deleted, with its messages:
/// only where no mailbox is left in it. Else it is a failure, with a warning.
pub fn delete_vanished_folder(
    name: &str,
    has_child: bool,
    emails: u64,
    mailbox_counts: &mut TypeCounts,
    email_counts: &mut TypeCounts,
) -> (r: Option<String>)
    requires
        old(mailbox_counts).failed < u64::MAX,
        old(mailbox_counts).deleted < u64::MAX,
        old(email_counts).deleted + emails <= u64::MAX,
    ensures
        json::text_view(r) == (if has_child {
            Some(surviving_child_text(name@))
        } else {
            None
        }),
        *final(mailbox_counts) == (if has_child {
            TypeCounts { failed: (old(mailbox_counts).failed + 1) as u64, ..*old(mailbox_counts) }
        } else {
            TypeCounts { deleted: (old(mailbox_counts).deleted + 1) as u64, ..*old(mailbox_counts) }
        }),
        *final(email_counts) == (if has_child {
            *old(email_counts)
        } else {
            TypeCounts { deleted: (old(email_counts).deleted + emails) as u64, ..*old(email_counts) }
        }),
{
    if has_child {
        mailbox_counts.failed = mailbox_counts.failed + 1;
        let mut m: String = text::joined("folder ", text::quoted(name).as_str());
        m.append(
            ": vanished from disk but still has child mailboxes in the archive; skipping delete (parent_id RESTRICT)",
        );
        return Some(m);
    }
    email_counts.deleted = email_counts.deleted + emails;
    mailbox_counts.deleted = mailbox_counts.deleted + 1;
    None
}

/// Goes on after the work on a folder: an error that ends the run is handed
/// back, any other becomes a failure and a warning.
pub fn after_folder(name: &str, result: Result<(), Error>, email_counts: &mut TypeCounts) -> (r:
    Result<Option<String>, Error>)
    requires
        old(email_counts).failed < u64::MAX,
    ensures
        match result {
            Ok(_) => r == Ok::<Option<String>, Error>(None) && *final(email_counts) == *old(
                email_counts,
            ),
            Err(e) => if !(e is Partial) {
                r == Err::<Option<String>, Error>(e) && *final(email_counts) == *old(email_counts)
            } else {
                &&& r matches Ok(Some(w)) && w@ == "folder "@ + text::debug_text(name@) + ": "@
                    + error::error_text(e)
                &&& *final(email_counts) == (TypeCounts {
                    failed: (old(email_counts).failed + 1) as u64,
                    ..*old(email_counts)
                })
            },
        },
{
    let e: Error = match result {
        Ok(_) => {
            return Ok(None);
        },
        Err(e) => e,
    };
    if e.aborts_run() {
        return Err(e);
    }
    email_counts.failed = email_counts.failed + 1;
    let mut w: String = text::joined("folder ", text::quoted(name).as_str());
    w.append(": ");
    w.append(e.message().as_str());
    Ok(Some(w))
}

/// Whether blobs that nothing refers to are taken out after a run: only where
/// nothing failed.
pub fn collects_garbage(mailbox: &TypeCounts, email: &TypeCounts) -> (r: bool)
    ensures
        r == (email.failed == 0 && mailbox.failed == 0),
{
    email.failed == 0 && mailbox.failed == 0
}

/// How a run ended: what was counted is reported, whatever ended it.
pub fn outcome(mailbox: TypeCounts, email: TypeCounts, failure: Option<Error>) -> (r: RunOutcome)
    ensures
        r.error == failure,
        r.summary.per_type@.len() == 2,
        r.summary.per_type@[0].0@ == "mailbox"@ && r.summary.per_type@[0].1 == mailbox,
        r.summary.per_type@[1].0@ == "email"@ && r.summary.per_type@[1].1 == email,
        r.summary.retries_observed == 0,
        r.summary.retry_after_sleeps == 0,
{
    let mut per_type: Vec<(&'static str, TypeCounts)> = Vec::new();
    per_type.push(("mailbox", mailbox));
    per_type.push(("email", email));
    RunOutcome {
        summary: Summary { per_type, retries_observed: 0, retry_after_sleeps: 0 },
        error: failure,
    }
}

/// What a run that only looks would do with one folder: how many messages are
/// new, gone, there already, and how many files could not be looked at.
#[derive(Debug)]
pub struct FolderLook {
    pub new: u64,
    pub vanished: u64,
    pub present: u64,
    pub failed: u64,
}

/// Looks at a folder, given what was listed of it and what the archive has of
/// it; a folder that could not be listed is a failure.
pub fn look_at_folder(listing: Option<&messages::DiskListing>, local: &Vec<LocalMail>) -> (r:
    FolderLook)
    ensures
        match listing {
            None => r == (FolderLook { new: 0, vanished: 0, present: 0, failed: 1 }),
            Some(l) => {
                let disk = messages::entries_view(l.entries@);
                &&& r.new == messages::new_entries(disk, local@).len()
                &&& r.vanished == messages::vanished_ids(disk, local@).len()
                &&& r.present == messages::present_entries(disk, local@).len()
                &&& r.failed == l.io_failures
            },
        },
{
    match listing {
        None => FolderLook { new: 0, vanished: 0, present: 0, failed: 1 },
        Some(l) => {
            let d: messages::FolderDiff = messages::diff(&l.entries, local);
            let new: usize = d.new.len();
            let vanished: usize = d.vanished.len();
            let present: usize = d.present.len();
            assert(messages::entries_view(d.new@).len() == new);
            assert(messages::present_view(d.present@).len() == present);
            FolderLook {
                new: new as u64,
                vanished: vanished as u64,
                present: present as u64,
                failed: l.io_failures,
            }
        },
    }
}

/// Counts what a run that only looks would do with one folder.
pub fn count_look(look: &FolderLook, email: &mut TypeCounts)
    requires
        old(email).created + look.new <= u64::MAX,
        old(email).fetched + look.new <= u64::MAX,
        old(email).deleted + look.vanished <= u64::MAX,
        old(email).skipped + look.present <= u64::MAX,
        old(email).failed + look.failed <= u64::MAX,
    ensures
        *final(email) == (TypeCounts {
            created: (old(email).created + look.new) as u64,
            fetched: (old(email).fetched + look.new) as u64,
            updated: old(email).updated,
            deleted: (old(email).deleted + look.vanished) as u64,
            skipped: (old(email).skipped + look.present) as u64,
            failed: (old(email).failed + look.failed) as u64,
        }),
{
    email.created = email.created + look.new;
    email.fetched = email.fetched + look.new;
    email.deleted = email.deleted + look.vanished;
    email.skipped = email.skipped + look.present;
    email.failed = email.failed + look.failed;
}

/// How many folders the archive does not have.
pub open spec fn new_folders(folders: Seq<ResolvedFolder>, stored: Seq<FolderId>) -> nat
    decreases folders.len(),
{
    if folders.len() == 0 {
        0
    } else {
        new_folders(folders.drop_last(), stored) + (if mailbox_of(
            stored,
            folders.last().name@,
        ) is None {
            1nat
        } else {
            0nat
        })
    }
}

/// What a run that only looks would do with the mailboxes.
pub fn look_at_mailboxes(folders: &Vec<ResolvedFolder>, stored: &Vec<FolderId>) -> (r: TypeCounts)
    ensures
        r == (TypeCounts {
            created: new_folders(folders@, stored@) as u64,
            fetched: new_folders(folders@, stored@) as u64,
            deleted: gone(stored@, folders@).len() as u64,
            ..sync::no_counts()
        }),
        new_folders(folders@, stored@) <= folders@.len(),
{
    let mut n: u64 = 0;
    let total: usize = folders.len();
    let mut i: usize = 0;
    assert(folders@.take(0) =~= Seq::empty());
    while i < folders.len()
        invariant
            i <= folders@.len(),
            folders@.len() == total,
            n <= i,
            n == new_folders(folders@.take(i as int), stored@),
        decreases folders@.len() - i,
    {
        proof {
            assert(folders@.take(i as int + 1).drop_last() =~= folders@.take(i as int));
            assert(folders@.take(i as int + 1).last() == folders@[i as int]);
        }
        if find_mailbox(stored, folders[i].name.as_str()).is_none() {
            n = n + 1;
        }
        i = i + 1;
    }
    assert(folders@.take(i as int) =~= folders@);
    let vanished: Vec<String> = vanished_folders(stored, folders);
    let m: usize = vanished.len();
    assert(text::texts(vanished@).len() == m);
    TypeCounts { created: n, fetched: n, updated: 0, deleted: m as u64, skipped: 0, failed: 0 }
}

/// By how much names are shorter than the longest could be.
pub open spec fn shortness(names: Seq<Seq<char>>) -> Seq<int> {
    Seq::new(names.len(), |i: int| 0x1_0000_0000_0000_0000 - names[i].len())
}

/// Names, the longest first.
pub open spec fn longest_first(names: Seq<Seq<char>>) -> Seq<Seq<char>> {
    let o = order::ordered(shortness(names), names.len());
    Seq::new(o.len(), |i: int| names[o[i]])
}

/// Orders folders for their deletion. The name of a folder begins with the
/// name of the one that it is in, so no folder comes before those in it.
pub fn order_for_deletion(names: &Vec<String>) -> (r: Vec<String>)
    ensures
        text::texts(r@) == longest_first(text::texts(names@)),
        r@.len() == names@.len(),
{
    let ghost all = text::texts(names@);
    let mut keys: Vec<u128> = Vec::new();
    let mut i: usize = 0;
    while i < names.len()
        invariant
            i <= names@.len(),
            all == text::texts(names@),
            keys@.len() == i,
            forall|k: int| 0 <= k < i ==> (#[trigger] keys@[k]) as int == shortness(all)[k],
        decreases names@.len() - i,
    {
        let chars: Vec<char> = text::chars_of(names[i].as_str());
        let len: usize = chars.len();
        assert(all[i as int].len() == len);
        keys.push(0x1_0000_0000_0000_0000u128 - len as u128);
        i = i + 1;
    }
    assert(order::numbers(keys@) =~= shortness(all));
    let indices: Vec<usize> = order::order_by_key(&keys);
    let mut r: Vec<String> = Vec::new();
    let mut j: usize = 0;
    while j < indices.len()
        invariant
            j <= indices@.len(),
            indices@.len() == names@.len(),
            all == text::texts(names@),
            order::places(indices@) == order::ordered(shortness(all), names@.len()),
            forall|k: int| 0 <= k < indices@.len() ==> #[trigger] indices@[k] < names@.len(),
            r@.len() == j,
            forall|k: int| 0 <= k < j ==> (#[trigger] r@[k])@ == longest_first(all)[k],
        decreases indices@.len() - j,
    {
        proof {
            assert(order::places(indices@)[j as int] == indices@[j as int]);
        }
        r.push(names[indices[j]].clone());
        j = j + 1;
    }
    assert(order::places(indices@).len() == indices@.len());
    assert(text::texts(r@) =~= longest_first(all));
    r
}

/// Of two folders that are deleted, one whose name begins with the other's
/// goes first, and none is lost.
pub proof fn folders_go_before_those_they_are_in(names: Seq<Seq<char>>, a: int, b: int)
    requires
        0 <= a < b < longest_first(names).len(),
    ensures
        longest_first(names)[a].len() >= longest_first(names)[b].len(),
        longest_first(names)[a].is_prefix_of(longest_first(names)[b]) ==> longest_first(names)[a]
            == longest_first(names)[b],
        longest_first(names).len() == names.len(),
{
    order::ordering_is_stable_and_loses_nothing(shortness(names), names.len());
    let o = order::ordered(shortness(names), names.len());
    let keys = shortness(names);
    assert(0 <= o[a] < names.len() && 0 <= o[b] < names.len());
    assert(keys[o[a]] <= keys[o[b]]);
    let first = longest_first(names)[a];
    let second = longest_first(names)[b];
    if first.is_prefix_of(second) {
        assert(first =~= second);
    }
}

/// What a run works on next: the mailbox of a folder, a folder that is gone,
/// or the messages of a folder.
#[derive(Clone, Copy, PartialEq, Eq, Structural, Debug)]
pub enum Stage {
    Mailboxes,
    Vanished,
    Messages,
}

/// A piece of work.
pub enum Todo {
    Mailbox(int),
    Delete(int),
    Messages(int),
}

/// An import from a Maildir on its way.
#[derive(Debug)]
pub struct MaildirRun {
    pub folders: Vec<ResolvedFolder>,
    pub stored: Vec<FolderId>,
    pub written: Vec<FolderId>,
    pub gone: Vec<String>,
    pub stage: Stage,
    pub index: usize,
    pub mailbox_counts: TypeCounts,
    pub email_counts: TypeCounts,
}

/// The mailboxes that are still to be written.
pub open spec fn mailboxes_from(i: int, n: int) -> Seq<Todo>
    decreases n - i,
{
    if i >= n {
        Seq::empty()
    } else {
        seq![Todo::Mailbox(i)] + mailboxes_from(i + 1, n)
    }
}

/// The folders that are still to be deleted.
pub open spec fn deletions_from(i: int, n: int) -> Seq<Todo>
    decreases n - i,
{
    if i >= n {
        Seq::empty()
    } else {
        seq![Todo::Delete(i)] + deletions_from(i + 1, n)
    }
}

/// The folders whose messages are still to be looked at: those that stand only
/// for their place have none.
pub open spec fn messages_from(folders: Seq<ResolvedFolder>, i: int) -> Seq<Todo>
    decreases folders.len() - i,
{
    if i < 0 || i >= folders.len() {
        Seq::empty()
    } else if folders[i].ephemeral {
        messages_from(folders, i + 1)
    } else {
        seq![Todo::Messages(i)] + messages_from(folders, i + 1)
    }
}

/// What a run still has to do.
pub open spec fn todo(run: MaildirRun) -> Seq<Todo> {
    match run.stage {
        Stage::Mailboxes => mailboxes_from(run.index as int, run.folders@.len() as int)
            + deletions_from(0, run.gone@.len() as int) + messages_from(run.folders@, 0),
        Stage::Vanished => deletions_from(run.index as int, run.gone@.len() as int)
            + messages_from(run.folders@, 0),
        Stage::Messages => messages_from(run.folders@, run.index as int),
    }
}

/// What is written of the mailbox of a folder.
pub open spec fn planned(run: MaildirRun, folder: int) -> MailboxPlan {
    MailboxPlan {
        existing: mailbox_of(run.stored@, run.folders@[folder].name@),
        parent: parent_mailbox(
            json::text_view(run.folders@[folder].parent_path),
            run.written@,
            run.stored@,
        ),
        is_subscribed: !run.folders@[folder].ephemeral,
    }
}

/// What is to be done next, with what it takes.
#[derive(Debug)]
pub enum MaildirStep {
    WriteMailbox { folder: usize, plan: MailboxPlan },
    DeleteFolder { name: String },
    Messages { folder: usize, mailbox: i64 },
    Finish,
}

/// What became of the mailbox of a folder that is gone.
#[derive(Clone, Copy, PartialEq, Eq, Structural, Debug)]
pub enum Deletion {
    /// The archive does not know the folder.
    Unknown,
    /// A mailbox is left in it.
    HasChild,
    /// It was deleted, with so many messages.
    Deleted(u64),
}

proof fn lemma_written(ids: Seq<FolderId>, i: int)
    requires
        0 <= i < ids.len(),
    ensures
        mailbox_of(ids, ids[i].name@) is Some,
    decreases ids.len(),
{
    if ids.last().name@ != ids[i].name@ {
        lemma_written(ids.drop_last(), i);
    }
}

impl MaildirRun {
    /// Whether the run is at a piece of work or at its end, and every folder
    /// that it passed has its mailbox.
    pub open spec fn wf(self) -> bool {
        &&& self.written@.len() == (if self.stage == Stage::Mailboxes {
            self.index as nat
        } else {
            self.folders@.len()
        })
        &&& self.written@.len() <= self.folders@.len()
        &&& forall|i: int|
            0 <= i < self.written@.len() ==> (#[trigger] self.written@[i]).name@
                == self.folders@[i].name@
        &&& match self.stage {
            Stage::Mailboxes => self.index < self.folders@.len(),
            Stage::Vanished => self.index < self.gone@.len(),
            Stage::Messages => self.index <= self.folders@.len() && (self.index
                < self.folders@.len() ==> !self.folders@[self.index as int].ephemeral),
        }
    }

    fn settle(&mut self)
        requires
            old(self).written@.len() == (if old(self).stage == Stage::Mailboxes {
                old(self).index as nat
            } else {
                old(self).folders@.len()
            }),
            old(self).written@.len() <= old(self).folders@.len(),
            forall|i: int|
                0 <= i < old(self).written@.len() ==> (#[trigger] old(self).written@[i]).name@
                    == old(self).folders@[i].name@,
            match old(self).stage {
                Stage::Mailboxes => old(self).index <= old(self).folders@.len(),
                Stage::Vanished => old(self).index <= old(self).gone@.len(),
                Stage::Messages => old(self).index <= old(self).folders@.len(),
            },
        ensures
            final(self).wf(),
            todo(*final(self)) == todo(*old(self)),
            final(self).folders == old(self).folders,
            final(self).stored == old(self).stored,
            final(self).written == old(self).written,
            final(self).gone == old(self).gone,
            final(self).mailbox_counts == old(self).mailbox_counts,
            final(self).email_counts == old(self).email_counts,
    {
        let ghost start = *self;
        if self.stage == Stage::Mailboxes && self.index == self.folders.len() {
            self.stage = Stage::Vanished;
            self.index = 0;
            assert(todo(*self) =~= todo(start));
        }
        if self.stage == Stage::Vanished && self.index == self.gone.len() {
            self.stage = Stage::Messages;
            self.index = 0;
            assert(todo(*self) =~= todo(start));
        }
        if self.stage == Stage::Messages {
            while self.index < self.folders.len() && self.folders[self.index].ephemeral
                invariant
                    self.stage == Stage::Messages,
                    self.index <= self.folders@.len(),
                    todo(*self) == todo(start),
                    self.folders == start.folders,
                    self.stored == start.stored,
                    self.written == start.written,
                    self.gone == start.gone,
                    self.mailbox_counts == start.mailbox_counts,
                    self.email_counts == start.email_counts,
                decreases self.folders@.len() - self.index,
            {
                self.index = self.index + 1;
            }
        }
    }

    /// A run that has done nothing yet. The folders of the archive that are
    /// gone from the disk are deleted after the mailboxes are written.
    pub fn begin(folders: Vec<ResolvedFolder>, stored: Vec<FolderId>) -> (r: MaildirRun)
        ensures
            r.wf(),
            r.folders == folders,
            r.stored == stored,
            text::texts(r.gone@) == longest_first(gone(stored@, folders@)),
            todo(r) == mailboxes_from(0, folders@.len() as int) + deletions_from(
                0,
                r.gone@.len() as int,
            ) + messages_from(folders@, 0),
            r.mailbox_counts == sync::no_counts(),
            r.email_counts == sync::no_counts(),
    {
        let vanished: Vec<String> = vanished_folders(&stored, &folders);
        let ordered: Vec<String> = order_for_deletion(&vanished);
        let mut run: MaildirRun = MaildirRun {
            folders,
            stored,
            written: Vec::new(),
            gone: ordered,
            stage: Stage::Mailboxes,
            index: 0,
            mailbox_counts: TypeCounts::default(),
            email_counts: TypeCounts::default(),
        };
        run.settle();
        run
    }

    /// The next piece of work.
    pub fn next(&self) -> (r: MaildirStep)
        requires
            self.wf(),
        ensures
            match r {
                MaildirStep::WriteMailbox { folder, plan } => {
                    &&& todo(*self).len() > 0
                    &&& todo(*self)[0] == Todo::Mailbox(folder as int)
                    &&& self.stage == Stage::Mailboxes
                    &&& folder == self.index
                    &&& folder < self.folders@.len()
                    &&& plan == planned(*self, folder as int)
                },
                MaildirStep::DeleteFolder { name } => {
                    &&& todo(*self).len() > 0
                    &&& todo(*self)[0] == Todo::Delete(self.index as int)
                    &&& self.stage == Stage::Vanished
                    &&& name@ == self.gone@[self.index as int]@
                },
                MaildirStep::Messages { folder, mailbox } => {
                    &&& todo(*self).len() > 0
                    &&& todo(*self)[0] == Todo::Messages(folder as int)
                    &&& self.stage == Stage::Messages
                    &&& folder == self.index
                    &&& folder < self.folders@.len()
                    &&& mailbox_of(self.written@, self.folders@[folder as int].name@) == Some(
                        mailbox,
                    )
                },
                MaildirStep::Finish => todo(*self).len() == 0,
            },
    {
        match self.stage {
            Stage::Mailboxes => {
                let i: usize = self.index;
                MaildirStep::WriteMailbox {
                    folder: i,
                    plan: plan_mailbox(&self.folders[i], &self.written, &self.stored),
                }
            },
            Stage::Vanished => MaildirStep::DeleteFolder { name: self.gone[self.index].clone() },
            Stage::Messages => {
                let i: usize = self.index;
                if i == self.folders.len() {
                    return MaildirStep::Finish;
                }
                proof {
                    assert(self.written@[i as int].name@ == self.folders@[i as int].name@);
                    lemma_written(self.written@, i as int);
                }
                match find_mailbox(&self.written, self.folders[i].name.as_str()) {
                    Some(n) => MaildirStep::Messages { folder: i, mailbox: n },
                    None => MaildirStep::Finish,
                }
            },
        }
    }

    /// Goes on after a mailbox was written. An error ends the run.
    pub fn after_mailbox(&mut self, plan: &MailboxPlan, result: Result<i64, Error>) -> (r: Result<
        (),
        Error,
    >)
        requires
            old(self).wf(),
            old(self).stage == Stage::Mailboxes,
            *plan == planned(*old(self), old(self).index as int),
            old(self).mailbox_counts.created < u64::MAX,
            old(self).mailbox_counts.fetched < u64::MAX,
        ensures
            final(self).wf(),
            match result {
                Err(e) => r == Err::<(), Error>(e) && *final(self) == *old(self),
                Ok(id) => {
                    &&& r is Ok
                    &&& todo(*final(self)) == todo(*old(self)).drop_first()
                    &&& final(self).folders == old(self).folders
                    &&& final(self).stored == old(self).stored
                    &&& final(self).gone == old(self).gone
                    &&& final(self).written@.len() == old(self).written@.len() + 1
                    &&& final(self).written@.drop_last() == old(self).written@
                    &&& final(self).written@.last().local_id == id
                    &&& final(self).written@.last().name@ == old(
                        self,
                    ).folders@[old(self).index as int].name@
                    &&& final(self).email_counts == old(self).email_counts
                    &&& final(self).mailbox_counts == (if plan.existing is None {
                        TypeCounts {
                            created: (old(self).mailbox_counts.created + 1) as u64,
                            fetched: (old(self).mailbox_counts.fetched + 1) as u64,
                            ..old(self).mailbox_counts
                        }
                    } else {
                        old(self).mailbox_counts
                    })
                },
            },
    {
        let id: i64 = match result {
            Ok(n) => n,
            Err(e) => {
                return Err(e);
            },
        };
        let ghost start = *self;
        let name: String = self.folders[self.index].name.clone();
        self.written.push(FolderId { name, local_id: id });
        count_mailbox(plan, &mut self.mailbox_counts);
        let n: usize = self.folders.len();
        assert(self.index < n);
        self.index = self.index + 1;
        proof {
            assert(self.written@.drop_last() =~= start.written@);
            assert forall|i: int| 0 <= i < self.written@.len() implies (
            #[trigger] self.written@[i]).name@ == self.folders@[i].name@ by {
                if i < start.written@.len() {
                    assert(self.written@[i] == start.written@[i]);
                }
            }
            assert(todo(*self) =~= todo(start).drop_first());
        }
        self.settle();
        Ok(())
    }

    /// Goes on after the mailbox of a folder that is gone was looked at. An
    /// error ends the run; a mailbox that is left in the folder is a failure,
    /// with a warning.
    pub fn after_delete(&mut self, result: Result<Deletion, Error>) -> (r: Result<
        Option<String>,
        Error,
    >)
        requires
            old(self).wf(),
            old(self).stage == Stage::Vanished,
            old(self).mailbox_counts.failed < u64::MAX,
            old(self).mailbox_counts.deleted < u64::MAX,
            result matches Ok(Deletion::Deleted(n)) ==> old(self).email_counts.deleted + n
                <= u64::MAX,
        ensures
            final(self).wf(),
            match result {
                Err(e) => r == Err::<Option<String>, Error>(e) && *final(self) == *old(self),
                Ok(d) => {
                    &&& r matches Ok(w)
                    &&& json::text_view(w) == (if d == Deletion::HasChild {
                        Some(surviving_child_text(old(self).gone@[old(self).index as int]@))
                    } else {
                        None
                    })
                    &&& todo(*final(self)) == todo(*old(self)).drop_first()
                    &&& final(self).folders == old(self).folders
                    &&& final(self).stored == old(self).stored
                    &&& final(self).gone == old(self).gone
                    &&& final(self).written == old(self).written
                    &&& final(self).mailbox_counts == (match d {
                        Deletion::Unknown => old(self).mailbox_counts,
                        Deletion::HasChild => TypeCounts {
                            failed: (old(self).mailbox_counts.failed + 1) as u64,
                            ..old(self).mailbox_counts
                        },
                        Deletion::Deleted(_) => TypeCounts {
                            deleted: (old(self).mailbox_counts.deleted + 1) as u64,
                            ..old(self).mailbox_counts
                        },
                    })
                    &&& final(self).email_counts == (match d {
                        Deletion::Deleted(n) => TypeCounts {
                            deleted: (old(self).email_counts.deleted + n) as u64,
                            ..old(self).email_counts
                        },
                        _ => old(self).email_counts,
                    })
                },
            },
    {
        let d: Deletion = match result {
            Ok(d) => d,
            Err(e) => {
                return Err(e);
            },
        };
        let ghost start = *self;
        let name: String = self.gone[self.index].clone();
        let w: Option<String> = match d {
            Deletion::Unknown => None,
            Deletion::HasChild => delete_vanished_folder(
                name.as_str(),
                true,
                0,
                &mut self.mailbox_counts,
                &mut self.email_counts,
            ),
            Deletion::Deleted(n) => delete_vanished_folder(
                name.as_str(),
                false,
                n,
                &mut self.mailbox_counts,
                &mut self.email_counts,
            ),
        };
        let n: usize = self.gone.len();
        assert(self.index < n);
        self.index = self.index + 1;
        proof {
            assert(todo(*self) =~= todo(start).drop_first());
        }
        self.settle();
        Ok(w)
    }

    /// Goes on after the messages of a folder were worked on, as far as they
    /// were: what was done is counted, and an error is decided on as for any
    /// folder.
    pub fn after_messages(
        &mut self,
        io_failures: u64,
        done: &Vec<Done>,
        result: Result<(), Error>,
    ) -> (r: Result<Option<String>, Error>)
        requires
            old(self).wf(),
            old(self).stage == Stage::Messages,
            todo(*old(self)).len() > 0,
            old(self).email_counts.created + done@.len() <= u64::MAX,
            old(self).email_counts.fetched + done@.len() <= u64::MAX,
            old(self).email_counts.deleted + done@.len() <= u64::MAX,
            old(self).email_counts.skipped + done@.len() <= u64::MAX,
            old(self).email_counts.failed + io_failures + done@.len() < u64::MAX,
        ensures
            final(self).wf(),
            final(self).folders == old(self).folders,
            final(self).stored == old(self).stored,
            final(self).gone == old(self).gone,
            final(self).written == old(self).written,
            final(self).mailbox_counts == old(self).mailbox_counts,
            ({
                let counted = messages::counted_all(
                    TypeCounts {
                        failed: (old(self).email_counts.failed + io_failures) as u64,
                        ..old(self).email_counts
                    },
                    done@,
                );
                match result {
                    Ok(_) => {
                        &&& r == Ok::<Option<String>, Error>(None)
                        &&& final(self).email_counts == counted
                        &&& todo(*final(self)) == todo(*old(self)).drop_first()
                    },
                    Err(e) => if !(e is Partial) {
                        &&& r == Err::<Option<String>, Error>(e)
                        &&& final(self).email_counts == counted
                        &&& todo(*final(self)) == todo(*old(self))
                    } else {
                        &&& r matches Ok(Some(w)) && w@ == "folder "@ + text::debug_text(
                            old(self).folders@[old(self).index as int].name@,
                        ) + ": "@ + error::error_text(e)
                        &&& final(self).email_counts == (TypeCounts {
                            failed: (counted.failed + 1) as u64,
                            ..counted
                        })
                        &&& todo(*final(self)) == todo(*old(self)).drop_first()
                    },
                }
            }),
    {
        let ghost start = *self;
        self.email_counts.failed = self.email_counts.failed + io_failures;
        proof {
            messages::lemma_counts_grow(self.email_counts, done@);
        }
        messages::apply_folder(done, &mut self.email_counts);
        let name: String = self.folders[self.index].name.clone();
        match after_folder(name.as_str(), result, &mut self.email_counts) {
            Ok(w) => {
                let n: usize = self.folders.len();
                assert(self.index < n);
                self.index = self.index + 1;
                proof {
                    assert(todo(*self) =~= todo(start).drop_first());
                }
                self.settle();
                Ok(w)
            },
            Err(e) => Err(e),
        }
    }

    /// Reports a run, and says whether blobs that nothing refers to are taken
    /// out. An error from the work on messages leaves what was counted.
    pub fn finish(self, failure: Option<Error>) -> (r: (RunOutcome, bool))
        ensures
            r.0.error == failure,
            r.0.summary.per_type@.len() == 2,
            r.0.summary.per_type@[0].0@ == "mailbox"@ && r.0.summary.per_type@[0].1
                == self.mailbox_counts,
            r.0.summary.per_type@[1].0@ == "email"@ && r.0.summary.per_type@[1].1
                == self.email_counts,
            r.0.summary.retries_observed == 0,
            r.0.summary.retry_after_sleeps == 0,
            r.1 == (failure is None && self.mailbox_counts.failed == 0 && self.email_counts.failed
                == 0),
    {
        let clean: bool = failure.is_none() && collects_garbage(
            &self.mailbox_counts,
            &self.email_counts,
        );
        (outcome(self.mailbox_counts, self.email_counts, failure), clean)
    }
}

} // verus!
