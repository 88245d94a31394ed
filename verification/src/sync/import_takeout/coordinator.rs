//! The run of an import from a provider's export.

use crate::error;
use crate::error::Error;
use crate::json;
use crate::links;
use crate::sync;
use crate::sync::{RunOutcome, Summary, TypeCounts};
use crate::text;
use vstd::prelude::*;

verus! {

/// What an import is told.
#[derive(Debug)]
pub struct TakeoutImportConfig {
    pub takeout_root: String,
    pub allow_source_change: bool,
    pub automap: bool,
}

/// What a file of an export holds.
#[derive(Clone, Copy, PartialEq, Eq, Structural, Debug)]
pub enum FileKind {
    Mbox,
    Ics,
    Vcf,
}

/// The name of a file without its last extension. A name that begins with its
/// only dot has none.
pub open spec fn stem(name: Seq<char>) -> Seq<char> {
    let i = text::last_index(name, '.');
    if i > 0 {
        name.take(i)
    } else {
        name
    }
}

proof fn lemma_last_dot(base: Seq<char>, extension: Seq<char>)
    requires
        !extension.contains('.'),
    ensures
        text::last_index(base + seq!['.'] + extension, '.') == base.len(),
    decreases extension.len(),
{
    let s = base + seq!['.'] + extension;
    if extension.len() == 0 {
        assert(s.last() == '.');
    } else {
        let rest = extension.drop_last();
        assert(extension.contains(extension[extension.len() - 1]));
        assert(s.last() == extension[extension.len() - 1]);
        assert(s.drop_last() =~= base + seq!['.'] + rest);
        assert forall|i: int| 0 <= i < rest.len() implies rest[i] != '.' by {
            assert(extension.contains(extension[i]));
        }
        lemma_last_dot(base, rest);
    }
}

/// A mailbox has the name of its file up to the last dot.
pub proof fn mailboxes_are_named_without_extension(base: Seq<char>, extension: Seq<char>)
    requires
        base.len() > 0,
        !extension.contains('.'),
    ensures
        mailbox_name(Some(base + seq!['.'] + extension)) == base,
{
    lemma_last_dot(base, extension);
    assert((base + seq!['.'] + extension).take(base.len() as int) =~= base);
}

/// The mailbox for the messages of a file: named after the file.
pub open spec fn mailbox_name(file_name: Option<Seq<char>>) -> Seq<char> {
    match file_name {
        Some(n) => stem(n),
        None => "Imported"@,
    }
}

/// The mailbox that is named after a file.
pub fn mailbox_named(file_name: Option<&str>) -> (r: String)
    ensures
        r@ == mailbox_name(json::str_view(file_name)),
{
    match file_name {
        Some(n) => {
            let v: Vec<char> = text::chars_of(n);
            match text::find_last_char(&v, '.') {
                Some(i) => if i > 0 {
                    let s: String = text::string_of(&v, 0, i);
                    assert(s@ =~= stem(n@));
                    s
                } else {
                    n.to_owned()
                },
                None => n.to_owned(),
            }
        },
        None => "Imported".to_owned(),
    }
}

/// The mailbox for the messages of a file.
pub fn mailbox_name_from_filename(path: &str) -> (r: String)
    ensures
        r@ == mailbox_name(links::file_name(path@)),
{
    match links::name_of_file(path) {
        Some(n) => mailbox_named(Some(n.as_str())),
        None => mailbox_named(None),
    }
}

/// The URL of an export.
pub fn file_url_for(path: &str) -> (r: Result<String, Error>)
    ensures
        match r {
            Ok(u) => links::file_url(path@) == Some(u@),
            Err(e) => links::file_url(path@) is None && (e matches Error::Usage(m) && m@
                == "cannot encode takeout path as file:// URL: "@ + text::debug_text(path@)),
        },
{
    links::file_url_for(path, "cannot encode takeout path as file:// URL: ")
}

/// Refuses an import from another export than the one that the archive
/// records, unless the change was allowed.
pub fn source_change(recorded: Option<(String, String)>, allow_source_change: bool) -> (r: Result<
    (),
    Error,
>)
    ensures
        if recorded is Some && !allow_source_change {
            r matches Err(Error::SourceChange(m)) && m@ == sync::other_source(
                "takeout"@,
                (recorded->0).0@,
                (recorded->0).1@,
            )
        } else {
            r is Ok
        },
{
    sync::refuse_other_source("takeout", recorded, allow_source_change)
}

/// What is said of a path without a file to import.
pub fn nothing_found(path: &str) -> (r: Error)
    ensures
        r matches Error::Usage(m) && m@ == text::debug_text(path@)
            + ": no .mbox / .ics / .vcf files found under this path"@,
{
    let mut m: String = text::quoted(path);
    m.append(": no .mbox / .ics / .vcf files found under this path");
    Error::Usage(m)
}

/// What became of the objects of each kind.
#[derive(Debug)]
pub struct TakeoutCounts {
    pub mailbox: TypeCounts,
    pub email: TypeCounts,
    pub calendar: TypeCounts,
    pub event: TypeCounts,
    pub book: TypeCounts,
    pub card: TypeCounts,
}

/// Counts that are all zero.
pub open spec fn nothing_done() -> TakeoutCounts {
    TakeoutCounts {
        mailbox: sync::no_counts(),
        email: sync::no_counts(),
        calendar: sync::no_counts(),
        event: sync::no_counts(),
        book: sync::no_counts(),
        card: sync::no_counts(),
    }
}

impl TakeoutCounts {
    /// Counts that are all zero.
    pub fn new() -> (r: TakeoutCounts)
        ensures
            r == nothing_done(),
    {
        TakeoutCounts {
            mailbox: TypeCounts::default(),
            email: TypeCounts::default(),
            calendar: TypeCounts::default(),
            event: TypeCounts::default(),
            book: TypeCounts::default(),
            card: TypeCounts::default(),
        }
    }
}

/// The counts with one more failure among what a kind of file holds.
pub open spec fn with_failure(c: TakeoutCounts, kind: FileKind) -> TakeoutCounts {
    match kind {
        FileKind::Mbox => TakeoutCounts {
            email: TypeCounts { failed: (c.email.failed + 1) as u64, ..c.email },
            ..c
        },
        FileKind::Ics => TakeoutCounts {
            event: TypeCounts { failed: (c.event.failed + 1) as u64, ..c.event },
            ..c
        },
        FileKind::Vcf => TakeoutCounts {
            card: TypeCounts { failed: (c.card.failed + 1) as u64, ..c.card },
            ..c
        },
    }
}

/// The failures among what a kind of file holds.
pub open spec fn failures(c: TakeoutCounts, kind: FileKind) -> u64 {
    match kind {
        FileKind::Mbox => c.email.failed,
        FileKind::Ics => c.event.failed,
        FileKind::Vcf => c.card.failed,
    }
}

/// How a warning about a kind of file begins.
pub open spec fn kind_label(kind: FileKind) -> Seq<char> {
    match kind {
        FileKind::Mbox => "mbox "@,
        FileKind::Ics => "ics "@,
        FileKind::Vcf => "vcf "@,
    }
}

/// Goes on after the work on a file: an error that ends the run is handed
/// back, any other becomes a failure and a warning.
pub fn after_file(
    counts: &mut TakeoutCounts,
    kind: FileKind,
    path: &str,
    result: Result<(), Error>,
) -> (r: Result<Option<String>, Error>)
    requires
        failures(*old(counts), kind) < u64::MAX,
    ensures
        match result {
            Ok(_) => r == Ok::<Option<String>, Error>(None) && *final(counts) == *old(counts),
            Err(e) => if !(e is Partial) {
                r == Err::<Option<String>, Error>(e) && *final(counts) == *old(counts)
            } else {
                &&& r matches Ok(Some(w)) && w@ == kind_label(kind) + text::debug_text(path@)
                    + ": "@ + error::error_text(e)
                &&& *final(counts) == with_failure(*old(counts), kind)
            },
        },
{
    let e: Error = match result {
        Ok(_) => {
            return Ok(None);
        },
        Err(e) => e,
    };
    if e.aborts_run() {
        return Err(e);
    }
    let label: &str = match kind {
        FileKind::Mbox => "mbox ",
        FileKind::Ics => "ics ",
        FileKind::Vcf => "vcf ",
    };
    match kind {
        FileKind::Mbox => {
            counts.email.failed = counts.email.failed + 1;
        },
        FileKind::Ics => {
            counts.event.failed = counts.event.failed + 1;
        },
        FileKind::Vcf => {
            counts.card.failed = counts.card.failed + 1;
        },
    }
    let mut w: String = text::joined(label, text::quoted(path).as_str());
    w.append(": ");
    w.append(e.message().as_str());
    Ok(Some(w))
}

/// Whether blobs that nothing refers to are taken out after a run: only where
/// it ended well and nothing failed.
pub fn collects_garbage(counts: &TakeoutCounts, aborted: bool) -> (r: bool)
    ensures
        r == (!aborted && counts.mailbox.failed == 0 && counts.email.failed == 0
            && counts.calendar.failed == 0 && counts.event.failed == 0 && counts.book.failed == 0
            && counts.card.failed == 0),
{
    !aborted && counts.mailbox.failed == 0 && counts.email.failed == 0 && counts.calendar.failed
        == 0 && counts.event.failed == 0 && counts.book.failed == 0 && counts.card.failed == 0
}

/// The kinds of objects, as they are reported.
pub open spec fn report_labels() -> Seq<Seq<char>> {
    seq!["mailbox"@, "email"@, "calendar"@, "calendarevent"@, "addressbook"@, "contactcard"@]
}

pub open spec fn report_counts(c: TakeoutCounts) -> Seq<TypeCounts> {
    seq![c.mailbox, c.email, c.calendar, c.event, c.book, c.card]
}

/// Reports a run.
pub fn summarize(c: &TakeoutCounts) -> (r: Summary)
    ensures
        r.per_type@.len() == 6,
        forall|i: int|
            0 <= i < 6 ==> (#[trigger] r.per_type@[i]).0@ == report_labels()[i]
                && r.per_type@[i].1 == report_counts(*c)[i],
        r.retries_observed == 0,
        r.retry_after_sleeps == 0,
{
    let mut per_type: Vec<(&'static str, TypeCounts)> = Vec::new();
    per_type.push(("mailbox", c.mailbox));
    per_type.push(("email", c.email));
    per_type.push(("calendar", c.calendar));
    per_type.push(("calendarevent", c.event));
    per_type.push(("addressbook", c.book));
    per_type.push(("contactcard", c.card));
    Summary { per_type, retries_observed: 0, retry_after_sleeps: 0 }
}

/// How a run ended: what was counted is reported, whatever ended it.
pub fn outcome(c: &TakeoutCounts, aborted: Option<Error>) -> (r: RunOutcome)
    ensures
        r.error == aborted,
        r.summary.per_type@.len() == 6,
        forall|i: int|
            0 <= i < 6 ==> (#[trigger] r.summary.per_type@[i]).0@ == report_labels()[i]
                && r.summary.per_type@[i].1 == report_counts(*c)[i],
        r.summary.retries_observed == 0,
        r.summary.retry_after_sleeps == 0,
{
    RunOutcome { summary: summarize(c), error: aborted }
}

/// A run that only looks reports that nothing was done.
pub fn dry_run_summary() -> (r: Summary)
    ensures
        r.per_type@.len() == 6,
        forall|i: int|
            0 <= i < 6 ==> (#[trigger] r.per_type@[i]).0@ == report_labels()[i]
                && r.per_type@[i].1 == sync::no_counts(),
        r.retries_observed == 0,
        r.retry_after_sleeps == 0,
{
    let c: TakeoutCounts = TakeoutCounts::new();
    summarize(&c)
}

/// A failure that does not end the run keeps the archive from being cleaned
/// up.
pub proof fn failures_keep_blobs(c: TakeoutCounts, kind: FileKind)
    requires
        failures(c, kind) < u64::MAX,
    ensures
        failures(with_failure(c, kind), kind) > 0,
        forall|other: FileKind|
            other != kind ==> failures(with_failure(c, kind), other) == #[trigger] failures(
                c,
                other,
            ),
{
}

/// A run over the files of an export: first the mailboxes, then the
/// calendars, then the contacts.
#[derive(Debug)]
pub struct TakeoutRun {
    pub mbox_files: usize,
    pub ics_files: usize,
    pub vcf_files: usize,
    pub kind: FileKind,
    pub index: usize,
    pub counts: TakeoutCounts,
    pub aborted: Option<Error>,
}

/// How many files of a kind there are.
pub open spec fn files_of(run: TakeoutRun, kind: FileKind) -> nat {
    match kind {
        FileKind::Mbox => run.mbox_files as nat,
        FileKind::Ics => run.ics_files as nat,
        FileKind::Vcf => run.vcf_files as nat,
    }
}

/// The files of a kind from one on.
pub open spec fn from_file(kind: FileKind, index: nat, files: nat) -> Seq<(FileKind, nat)>
    decreases files - index,
{
    if index >= files {
        Seq::empty()
    } else {
        seq![(kind, index)] + from_file(kind, index + 1, files)
    }
}

/// The kinds of files after one.
pub open spec fn later_files(run: TakeoutRun, kind: FileKind) -> Seq<(FileKind, nat)> {
    match kind {
        FileKind::Mbox => from_file(FileKind::Ics, 0, run.ics_files as nat) + from_file(
            FileKind::Vcf,
            0,
            run.vcf_files as nat,
        ),
        FileKind::Ics => from_file(FileKind::Vcf, 0, run.vcf_files as nat),
        FileKind::Vcf => Seq::empty(),
    }
}

/// The files that a run still has to read: none once it was aborted.
pub open spec fn to_read(run: TakeoutRun) -> Seq<(FileKind, nat)> {
    if run.aborted is Some {
        Seq::empty()
    } else {
        from_file(run.kind, run.index as nat, files_of(run, run.kind)) + later_files(run, run.kind)
    }
}

impl TakeoutRun {
    /// Whether the run stands at a file, or at the end of them.
    pub open spec fn wf(self) -> bool {
        self.index <= files_of(self, self.kind) && (self.index == files_of(self, self.kind)
            ==> later_files(self, self.kind).len() == 0)
    }

    /// A run that has read nothing yet.
    pub fn begin(mbox_files: usize, ics_files: usize, vcf_files: usize) -> (r: TakeoutRun)
        ensures
            r.wf(),
            to_read(r) == from_file(FileKind::Mbox, 0, mbox_files as nat) + from_file(
                FileKind::Ics,
                0,
                ics_files as nat,
            ) + from_file(FileKind::Vcf, 0, vcf_files as nat),
            r.counts == nothing_done(),
            r.aborted is None,
    {
        let mut run: TakeoutRun = TakeoutRun {
            mbox_files,
            ics_files,
            vcf_files,
            kind: FileKind::Mbox,
            index: 0,
            counts: TakeoutCounts::new(),
            aborted: None,
        };
        proof {
            assert(to_read(run) =~= from_file(FileKind::Mbox, 0, mbox_files as nat) + from_file(
                FileKind::Ics,
                0,
                ics_files as nat,
            ) + from_file(FileKind::Vcf, 0, vcf_files as nat));
        }
        run.settle();
        run
    }

    fn settle(&mut self)
        requires
            old(self).index <= files_of(*old(self), old(self).kind),
        ensures
            final(self).wf(),
            to_read(*final(self)) == to_read(*old(self)),
            final(self).counts == old(self).counts,
            final(self).aborted == old(self).aborted,
            final(self).mbox_files == old(self).mbox_files,
            final(self).ics_files == old(self).ics_files,
            final(self).vcf_files == old(self).vcf_files,
    {
        let ghost before = to_read(*self);
        if self.kind == FileKind::Mbox && self.index == self.mbox_files {
            self.kind = FileKind::Ics;
            self.index = 0;
            assert(to_read(*self) =~= before);
        }
        if self.kind == FileKind::Ics && self.index == self.ics_files {
            self.kind = FileKind::Vcf;
            self.index = 0;
            assert(to_read(*self) =~= before);
        }
        proof {
            if self.index == files_of(*self, self.kind) && self.kind != FileKind::Vcf {
                assert(false);
            }
        }
    }

    /// The file to read next.
    pub fn next(&self) -> (r: Option<(FileKind, usize)>)
        requires
            self.wf(),
        ensures
            match r {
                Some(f) => to_read(*self).len() > 0 && to_read(*self)[0] == (f.0, f.1 as nat),
                None => to_read(*self).len() == 0,
            },
    {
        if self.aborted.is_some() {
            return None;
        }
        let files: usize = match self.kind {
            FileKind::Mbox => self.mbox_files,
            FileKind::Ics => self.ics_files,
            FileKind::Vcf => self.vcf_files,
        };
        if self.index < files {
            Some((self.kind, self.index))
        } else {
            None
        }
    }

    /// Goes on after the next file was read. What follows from an error is
    /// decided as for any file; one that ends the run leaves nothing to read.
    pub fn after(&mut self, path: &str, result: Result<(), Error>) -> (r: Option<String>)
        requires
            old(self).wf(),
            to_read(*old(self)).len() > 0,
            failures(old(self).counts, old(self).kind) < u64::MAX,
        ensures
            final(self).wf(),
            match result {
                Ok(_) => {
                    &&& r is None
                    &&& to_read(*final(self)) == to_read(*old(self)).drop_first()
                    &&& final(self).counts == old(self).counts
                    &&& final(self).aborted is None
                },
                Err(e) => if !(e is Partial) {
                    &&& r is None
                    &&& to_read(*final(self)).len() == 0
                    &&& final(self).counts == old(self).counts
                    &&& final(self).aborted == Some(e)
                } else {
                    &&& r matches Some(w) && w@ == kind_label(old(self).kind) + text::debug_text(
                        path@,
                    ) + ": "@ + error::error_text(e)
                    &&& to_read(*final(self)) == to_read(*old(self)).drop_first()
                    &&& final(self).counts == with_failure(old(self).counts, old(self).kind)
                    &&& final(self).aborted is None
                },
            },
    {
        let ghost before = to_read(*self);
        let kind: FileKind = self.kind;
        match after_file(&mut self.counts, kind, path, result) {
            Ok(w) => {
                self.index = self.index + 1;
                assert(to_read(*self) =~= before.drop_first());
                self.settle();
                w
            },
            Err(e) => {
                self.aborted = Some(e);
                None
            },
        }
    }

    /// Reports a run, and says whether blobs that nothing refers to are taken
    /// out.
    pub fn finish(self) -> (r: (RunOutcome, bool))
        ensures
            r.0.error == self.aborted,
            r.0.summary.per_type@.len() == 6,
            forall|i: int|
                0 <= i < 6 ==> (#[trigger] r.0.summary.per_type@[i]).0@ == report_labels()[i]
                    && r.0.summary.per_type@[i].1 == report_counts(self.counts)[i],
            r.0.summary.retries_observed == 0,
            r.0.summary.retry_after_sleeps == 0,
            r.1 ==> r.0.error is None,
            r.1 ==> forall|i: int| 0 <= i < 6 ==> (#[trigger] report_counts(self.counts)[i]).failed == 0,
            r.0.error is None && (forall|i: int|
                0 <= i < 6 ==> (#[trigger] report_counts(self.counts)[i]).failed == 0) ==> r.1,
    {
        let clean: bool = collects_garbage(&self.counts, self.aborted.is_some());
        proof {
            let c = report_counts(self.counts);
            assert(c[0] == self.counts.mailbox && c[1] == self.counts.email && c[2]
                == self.counts.calendar && c[3] == self.counts.event && c[4] == self.counts.book
                && c[5] == self.counts.card);
        }
        (outcome(&self.counts, self.aborted), clean)
    }
}

} // verus!
