//! The messages of a Maildir folder: which are new, which are gone, and what
//! the archive keeps of them.

use crate::db::cell;
use crate::db::cell::Cell;
use crate::instant;
use crate::instant::Moment;
use crate::json;
use crate::sync::import_jmap::mapping;
use crate::sync::import_maildir::keywords;
use crate::sync::import_maildir::keywords::{Flag, Translation};
use crate::sync::TypeCounts;
use crate::text;
use vstd::prelude::*;

verus! {

/// A regular file in a folder's `cur` or `new`: its name and when it was last
/// written, in seconds since 1970.
#[derive(Debug)]
pub struct FoundFile {
    pub filename: String,
    pub mtime_unix: u64,
}

/// A message on disk, and which of the found files it is.
#[derive(Debug)]
pub struct DiskEntry {
    pub unique_id: String,
    pub filename: String,
    pub file: usize,
    pub flags: Vec<Flag>,
    pub mtime_unix: u64,
}

/// A message on disk, as mathematical values.
pub struct EntryVal {
    pub unique_id: Seq<char>,
    pub filename: Seq<char>,
    pub file: int,
    pub flags: Seq<Flag>,
    pub mtime_unix: u64,
}

impl View for DiskEntry {
    type V = EntryVal;

    open spec fn view(&self) -> EntryVal {
        EntryVal {
            unique_id: self.unique_id@,
            filename: self.filename@,
            file: self.file as int,
            flags: self.flags@,
            mtime_unix: self.mtime_unix,
        }
    }
}

impl DiskEntry {
    /// The same entry once more.
    pub fn dup(&self) -> (r: DiskEntry)
        ensures
            r@ == self@,
    {
        let mut flags: Vec<Flag> = Vec::new();
        let mut i: usize = 0;
        while i < self.flags.len()
            invariant
                i <= self.flags@.len(),
                flags@ == self.flags@.take(i as int),
            decreases self.flags@.len() - i,
        {
            flags.push(self.flags[i]);
            assert(flags@ =~= self.flags@.take(i as int + 1));
            i = i + 1;
        }
        assert(flags@ =~= self.flags@);
        DiskEntry {
            unique_id: self.unique_id.clone(),
            filename: self.filename.clone(),
            file: self.file,
            flags,
            mtime_unix: self.mtime_unix,
        }
    }
}

pub open spec fn entries_view(v: Seq<DiskEntry>) -> Seq<EntryVal> {
    Seq::new(v.len(), |i: int| v[i]@)
}

/// What a folder holds, and how many of its files could not be looked at.
#[derive(Debug)]
pub struct DiskListing {
    pub entries: Vec<DiskEntry>,
    pub io_failures: u64,
}

/// Whether one of the entries is the message with an id.
pub open spec fn holds(entries: Seq<EntryVal>, id: Seq<char>) -> bool {
    exists|i: int| 0 <= i < entries.len() && (#[trigger] entries[i]).unique_id == id
}

/// The entry of a file.
pub open spec fn entry_of(f: FoundFile, file: int) -> EntryVal {
    EntryVal {
        unique_id: keywords::unique_id(f.filename@),
        filename: f.filename@,
        file,
        flags: keywords::flags_of(keywords::flag_letters(f.filename@)),
        mtime_unix: f.mtime_unix,
    }
}

/// Whether a file is passed over: hidden, without an id, or another file of a
/// message that is there already.
pub open spec fn passed_over(entries: Seq<EntryVal>, f: FoundFile) -> bool {
    text::has_prefix(f.filename@, "."@) || keywords::unique_id(f.filename@).len() == 0 || holds(
        entries,
        keywords::unique_id(f.filename@),
    )
}

/// The messages that files are.
pub open spec fn listed(files: Seq<FoundFile>) -> Seq<EntryVal>
    decreases files.len(),
{
    if files.len() == 0 {
        Seq::empty()
    } else {
        let before = listed(files.drop_last());
        if passed_over(before, files.last()) {
            before
        } else {
            before.push(entry_of(files.last(), files.len() - 1))
        }
    }
}

fn holds_id(entries: &Vec<DiskEntry>, id: &str) -> (r: bool)
    ensures
        r == holds(entries_view(entries@), id@),
{
    let mut i: usize = 0;
    while i < entries.len()
        invariant
            i <= entries@.len(),
            forall|k: int| 0 <= k < i ==> (#[trigger] entries@[k]).unique_id@ != id@,
        decreases entries@.len() - i,
    {
        if text::same(entries[i].unique_id.as_str(), id) {
            assert(entries_view(entries@)[i as int].unique_id == id@);
            return true;
        }
        i = i + 1;
    }
    assert forall|k: int| 0 <= k < entries_view(entries@).len() implies (
    #[trigger] entries_view(entries@)[k]).unique_id != id@ by {
        assert(entries@[k].unique_id@ != id@);
    }
    false
}

/// The messages of a folder, from the regular files of its `cur` and its
/// `new`, in the order in which they were found.
pub fn list_folder(files: &Vec<FoundFile>, io_failures: u64) -> (r: DiskListing)
    ensures
        entries_view(r.entries@) == listed(files@),
        r.io_failures == io_failures,
{
    let mut entries: Vec<DiskEntry> = Vec::new();
    let mut i: usize = 0;
    assert(files@.take(0) =~= Seq::empty());
    assert(entries_view(entries@) =~= Seq::empty());
    while i < files.len()
        invariant
            i <= files@.len(),
            entries_view(entries@) == listed(files@.take(i as int)),
        decreases files@.len() - i,
    {
        let f: &FoundFile = &files[i];
        let ghost before = entries_view(entries@);
        proof {
            assert(files@.take(i as int + 1).drop_last() =~= files@.take(i as int));
            assert(files@.take(i as int + 1).last() == files@[i as int]);
        }
        let hidden: bool = text::starts_with(f.filename.as_str(), ".");
        let unique_id: String = keywords::unique_id_from_filename(f.filename.as_str());
        if !hidden && text::chars_of(unique_id.as_str()).len() > 0 && !holds_id(
            &entries,
            unique_id.as_str(),
        ) {
            let entry: DiskEntry = DiskEntry {
                unique_id,
                filename: f.filename.clone(),
                file: i,
                flags: keywords::flags_from_filename(f.filename.as_str()),
                mtime_unix: f.mtime_unix,
            };
            entries.push(entry);
            assert(entries_view(entries@) =~= before.push(entry_of(*f, i as int)));
        }
        i = i + 1;
    }
    assert(files@.take(i as int) =~= files@);
    DiskListing { entries, io_failures }
}

/// A folder lists each message once, and none without an id.
pub proof fn messages_are_listed_once(files: Seq<FoundFile>, i: int, j: int)
    requires
        0 <= i < listed(files).len(),
        0 <= j < listed(files).len(),
        i != j,
    ensures
        listed(files)[i].unique_id != listed(files)[j].unique_id,
        listed(files)[i].unique_id.len() > 0,
    decreases files.len(),
{
    let before = listed(files.drop_last());
    if !passed_over(before, files.last()) {
        let all = listed(files);
        if i < before.len() && j < before.len() {
            messages_are_listed_once(files.drop_last(), i, j);
        } else if i < before.len() {
            assert(before[i] == all[i]);
            if before.len() > 1 {
                messages_are_listed_once(
                    files.drop_last(),
                    i,
                    if i == 0 {
                        1
                    } else {
                        0
                    },
                );
            } else {
                lemma_listed_ids(files.drop_last(), i);
            }
        } else {
            assert(before[j] == all[j]);
        }
    } else {
        messages_are_listed_once(files.drop_last(), i, j);
    }
}

proof fn lemma_listed_ids(files: Seq<FoundFile>, i: int)
    requires
        0 <= i < listed(files).len(),
    ensures
        listed(files)[i].unique_id.len() > 0,
    decreases files.len(),
{
    let before = listed(files.drop_last());
    if i < before.len() {
        lemma_listed_ids(files.drop_last(), i);
    }
}

/// A message that the archive has of a folder.
#[derive(Debug)]
pub struct LocalMail {
    pub unique_id: String,
    pub local_id: i64,
}

/// The local id of a message.
pub open spec fn local_of(local: Seq<LocalMail>, id: Seq<char>) -> Option<i64>
    decreases local.len(),
{
    if local.len() == 0 {
        None
    } else if local.last().unique_id@ == id {
        Some(local.last().local_id)
    } else {
        local_of(local.drop_last(), id)
    }
}

fn find_local(local: &Vec<LocalMail>, id: &str) -> (r: Option<i64>)
    ensures
        r == local_of(local@, id@),
{
    let mut n: usize = local.len();
    assert(local@.take(n as int) =~= local@);
    while n > 0
        invariant
            n <= local@.len(),
            local_of(local@.take(n as int), id@) == local_of(local@, id@),
        decreases n,
    {
        proof {
            let taken = local@.take(n as int);
            assert(taken.last() == local@[n - 1]);
            assert(taken.drop_last() =~= local@.take(n - 1));
        }
        if text::same(local[n - 1].unique_id.as_str(), id) {
            return Some(local[n - 1].local_id);
        }
        n = n - 1;
    }
    None
}

/// What has to be done for a folder.
#[derive(Debug)]
pub struct FolderDiff {
    pub new: Vec<DiskEntry>,
    pub present: Vec<(DiskEntry, i64)>,
    pub vanished: Vec<(String, i64)>,
}

/// The messages on disk that the archive does not have.
pub open spec fn new_entries(disk: Seq<EntryVal>, local: Seq<LocalMail>) -> Seq<EntryVal>
    decreases disk.len(),
{
    if disk.len() == 0 {
        Seq::empty()
    } else {
        let before = new_entries(disk.drop_last(), local);
        if local_of(local, disk.last().unique_id) is None {
            before.push(disk.last())
        } else {
            before
        }
    }
}

/// The messages on disk that the archive has, and their local ids.
pub open spec fn present_entries(disk: Seq<EntryVal>, local: Seq<LocalMail>) -> Seq<
    (EntryVal, i64),
>
    decreases disk.len(),
{
    if disk.len() == 0 {
        Seq::empty()
    } else {
        let before = present_entries(disk.drop_last(), local);
        match local_of(local, disk.last().unique_id) {
            Some(n) => before.push((disk.last(), n)),
            None => before,
        }
    }
}

/// The ids of the messages that the archive has and the disk does not.
pub open spec fn vanished_ids(disk: Seq<EntryVal>, local: Seq<LocalMail>) -> Seq<Seq<char>>
    decreases local.len(),
{
    if local.len() == 0 {
        Seq::empty()
    } else {
        let before = vanished_ids(disk, local.drop_last());
        if holds(disk, local.last().unique_id@) {
            before
        } else {
            before.push(local.last().unique_id@)
        }
    }
}

pub open spec fn present_view(v: Seq<(DiskEntry, i64)>) -> Seq<(EntryVal, i64)> {
    Seq::new(v.len(), |i: int| (v[i].0@, v[i].1))
}

/// Sets the messages on disk against those of the archive. Those that are
/// gone come in the order of their ids.
pub fn diff(disk: &Vec<DiskEntry>, local: &Vec<LocalMail>) -> (r: FolderDiff)
    ensures
        entries_view(r.new@) == new_entries(entries_view(disk@), local@),
        present_view(r.present@) == present_entries(entries_view(disk@), local@),
        r.vanished@.len() == vanished_ids(entries_view(disk@), local@).len(),
        forall|i: int|
            0 <= i < r.vanished@.len() ==> (#[trigger] r.vanished@[i]).0@ == text::in_order(
                vanished_ids(entries_view(disk@), local@),
            )[i] && local_of(local@, r.vanished@[i].0@) == Some(r.vanished@[i].1),
{
    let ghost all = entries_view(disk@);
    let mut new: Vec<DiskEntry> = Vec::new();
    let mut present: Vec<(DiskEntry, i64)> = Vec::new();
    let mut i: usize = 0;
    assert(all.take(0) =~= Seq::empty());
    assert(entries_view(new@) =~= Seq::empty());
    assert(present_view(present@) =~= Seq::empty());
    while i < disk.len()
        invariant
            i <= disk@.len(),
            all == entries_view(disk@),
            entries_view(new@) == new_entries(all.take(i as int), local@),
            present_view(present@) == present_entries(all.take(i as int), local@),
        decreases disk@.len() - i,
    {
        let ghost new_before = entries_view(new@);
        let ghost present_before = present_view(present@);
        proof {
            assert(all.take(i as int + 1).drop_last() =~= all.take(i as int));
            assert(all.take(i as int + 1).last() == disk@[i as int]@);
        }
        match find_local(local, disk[i].unique_id.as_str()) {
            None => {
                new.push(disk[i].dup());
                assert(entries_view(new@) =~= new_before.push(disk@[i as int]@));
            },
            Some(n) => {
                present.push((disk[i].dup(), n));
                assert(present_view(present@) =~= present_before.push((disk@[i as int]@, n)));
            },
        }
        i = i + 1;
    }
    assert(all.take(i as int) =~= all);
    let mut gone: Vec<String> = Vec::new();
    let mut k: usize = 0;
    assert(local@.take(0) =~= Seq::empty());
    assert(text::texts(gone@) =~= Seq::empty());
    while k < local.len()
        invariant
            k <= local@.len(),
            all == entries_view(disk@),
            text::texts(gone@) == vanished_ids(all, local@.take(k as int)),
        decreases local@.len() - k,
    {
        let ghost before = text::texts(gone@);
        proof {
            assert(local@.take(k as int + 1).drop_last() =~= local@.take(k as int));
            assert(local@.take(k as int + 1).last() == local@[k as int]);
        }
        if !holds_id(disk, local[k].unique_id.as_str()) {
            gone.push(local[k].unique_id.clone());
            assert(text::texts(gone@) =~= before.push(local@[k as int].unique_id@));
        }
        k = k + 1;
    }
    assert(local@.take(k as int) =~= local@);
    let sorted: Vec<String> = text::sort_texts(&gone);
    let ghost ids = vanished_ids(all, local@);
    proof {
        text::ordering_is_ordered_and_loses_nothing(ids);
        assert(text::texts(sorted@) == text::in_order(ids));
        assert(text::texts(sorted@).len() == sorted@.len());
        assert(ids.to_multiset().len() == ids.len()) by {
            broadcast use vstd::seq_lib::group_to_multiset_ensures;

        }
        assert(text::in_order(ids).to_multiset().len() == text::in_order(ids).len()) by {
            broadcast use vstd::seq_lib::group_to_multiset_ensures;

        }
    }
    let mut vanished: Vec<(String, i64)> = Vec::new();
    let mut j: usize = 0;
    while j < sorted.len()
        invariant
            j <= sorted@.len(),
            vanished@.len() == j,
            all == entries_view(disk@),
            ids == vanished_ids(all, local@),
            text::texts(sorted@) == text::in_order(ids),
            text::in_order(ids).to_multiset() == ids.to_multiset(),
            forall|m: int|
                0 <= m < j ==> (#[trigger] vanished@[m]).0@ == text::in_order(ids)[m] && local_of(
                    local@,
                    vanished@[m].0@,
                ) == Some(vanished@[m].1),
        decreases sorted@.len() - j,
    {
        proof {
            let t = text::in_order(ids);
            assert(t[j as int] == sorted@[j as int]@);
            lemma_vanished_are_local(all, local@, t, j as int);
        }
        match find_local(local, sorted[j].as_str()) {
            Some(n) => {
                vanished.push((sorted[j].clone(), n));
            },
            None => {},
        }
        j = j + 1;
    }
    FolderDiff { new, present, vanished }
}

proof fn lemma_vanished_are_local(
    disk: Seq<EntryVal>,
    local: Seq<LocalMail>,
    sorted: Seq<Seq<char>>,
    j: int,
)
    requires
        0 <= j < sorted.len(),
        sorted.to_multiset() == vanished_ids(disk, local).to_multiset(),
    ensures
        local_of(local, sorted[j]) is Some,
        !holds(disk, sorted[j]),
{
    broadcast use vstd::seq_lib::group_to_multiset_ensures;

    assert(sorted.contains(sorted[j]));
    assert(sorted.to_multiset().count(sorted[j]) > 0);
    let ids = vanished_ids(disk, local);
    assert(ids.to_multiset().count(sorted[j]) > 0);
    assert(ids.contains(sorted[j]));
    lemma_vanished(disk, local, sorted[j]);
}

proof fn lemma_vanished(disk: Seq<EntryVal>, local: Seq<LocalMail>, id: Seq<char>)
    ensures
        vanished_ids(disk, local).contains(id) == (local_of(local, id) is Some && !holds(disk, id)),
    decreases local.len(),
{
    if local.len() > 0 {
        let before = vanished_ids(disk, local.drop_last());
        let now = vanished_ids(disk, local);
        lemma_vanished(disk, local.drop_last(), id);
        if holds(disk, local.last().unique_id@) {
        } else {
            assert(now == before.push(local.last().unique_id@));
            if before.contains(id) {
                let k = choose|k: int| 0 <= k < before.len() && before[k] == id;
                assert(now[k] == id);
            }
            if id == local.last().unique_id@ {
                assert(now[now.len() - 1] == id);
            }
            if now.contains(id) && id != local.last().unique_id@ {
                let k = choose|k: int| 0 <= k < now.len() && now[k] == id;
                assert(before[k] == id);
            }
        }
    }
}

/// A message is new if and only if it is on disk and not in the archive,
/// present if and only if it is in both, and gone if and only if it is in the
/// archive and not on disk.
pub proof fn every_message_has_one_fate(disk: Seq<EntryVal>, local: Seq<LocalMail>, id: Seq<char>)
    ensures
        holds(new_entries(disk, local), id) == (holds(disk, id) && local_of(local, id) is None),
        (exists|i: int|
            0 <= i < present_entries(disk, local).len() && (#[trigger] present_entries(
                disk,
                local,
            )[i]).0.unique_id == id) == (holds(disk, id) && local_of(local, id) is Some),
        vanished_ids(disk, local).contains(id) == (!holds(disk, id) && local_of(local, id) is Some),
    decreases disk.len(),
{
    lemma_vanished(disk, local, id);
    if disk.len() > 0 {
        let d = disk.drop_last();
        every_message_has_one_fate(d, local, id);
        lemma_holds_push(d, disk.last(), id);
        assert(disk == d.push(disk.last()));
        let before = present_entries(d, local);
        let now = present_entries(disk, local);
        match local_of(local, disk.last().unique_id) {
            None => {
                lemma_holds_push(new_entries(d, local), disk.last(), id);
            },
            Some(n) => {
                assert(now == before.push((disk.last(), n)));
                if disk.last().unique_id == id {
                    assert(now[now.len() - 1].0.unique_id == id);
                }
                if exists|i: int| 0 <= i < before.len() && (#[trigger] before[i]).0.unique_id == id {
                    let i = choose|i: int|
                        0 <= i < before.len() && (#[trigger] before[i]).0.unique_id == id;
                    assert(now[i].0.unique_id == id);
                }
                if exists|i: int| 0 <= i < now.len() && (#[trigger] now[i]).0.unique_id == id {
                    let i = choose|i: int|
                        0 <= i < now.len() && (#[trigger] now[i]).0.unique_id == id;
                    if i < before.len() {
                        assert(before[i].0.unique_id == id);
                    }
                }
            },
        }
    }
}

proof fn lemma_holds_push(entries: Seq<EntryVal>, e: EntryVal, id: Seq<char>)
    ensures
        holds(entries.push(e), id) == (holds(entries, id) || e.unique_id == id),
{
    let now = entries.push(e);
    if holds(entries, id) {
        let i = choose|i: int| 0 <= i < entries.len() && (#[trigger] entries[i]).unique_id == id;
        assert(now[i].unique_id == id);
    }
    if e.unique_id == id {
        assert(now[entries.len() as int].unique_id == id);
    }
    if holds(now, id) && e.unique_id != id {
        let i = choose|i: int| 0 <= i < now.len() && (#[trigger] now[i]).unique_id == id;
        assert(entries[i].unique_id == id);
    }
}

/// What a message is stored with.
#[derive(Debug)]
pub struct InsertContext<'a> {
    pub source_id: i64,
    pub folder: &'a str,
    pub mailbox_local: i64,
    pub include_deleted: bool,
}

/// The last second of the year 9999, since 1970.
pub const LAST_SECOND: u64 = 253_402_300_799;

/// The digits that a text begins with.
pub open spec fn leading_digits(s: Seq<char>) -> Seq<char>
    decreases s.len(),
{
    if s.len() == 0 || !text::is_digit(s[0]) {
        Seq::empty()
    } else {
        seq![s[0]] + leading_digits(s.drop_first())
    }
}

proof fn lemma_leading_digits(s: Seq<char>, n: int)
    requires
        0 <= n <= s.len(),
        forall|i: int| 0 <= i < n ==> text::is_digit(#[trigger] s[i]),
        n < s.len() ==> !text::is_digit(s[n]),
    ensures
        leading_digits(s) == s.take(n),
    decreases n,
{
    if n > 0 {
        let d = s.drop_first();
        assert forall|i: int| 0 <= i < n - 1 implies text::is_digit(#[trigger] d[i]) by {
            assert(d[i] == s[i + 1]);
        }
        assert(s[0] == s[0 as int] && text::is_digit(s[0]));
        lemma_leading_digits(d, n - 1);
        assert(leading_digits(s) =~= s.take(n));
    } else {
        assert(leading_digits(s) =~= s.take(0));
    }
}

/// When a message was delivered, as its file name begins with it: at most
/// twelve digits, not zero, and no later than a day from now.
pub open spec fn delivery_time(filename: Seq<char>, now_secs: int) -> Option<nat> {
    let digits = leading_digits(filename);
    let secs = text::digits_value(digits);
    if digits.len() == 0 || digits.len() > 12 || secs == 0 || secs > (if now_secs > 0 {
        now_secs
    } else {
        0
    }) + 86400 {
        None
    } else {
        Some(secs)
    }
}

/// Reads when a message was delivered from its file name.
pub fn delivery_time_from_filename(filename: &str, now_secs: i64) -> (r: Option<u64>)
    ensures
        match r {
            Some(n) => delivery_time(filename@, now_secs as int) == Some(n as nat),
            None => delivery_time(filename@, now_secs as int) is None,
        },
{
    let v: Vec<char> = text::chars_of(filename);
    let mut n: usize = 0;
    while n < v.len() && text::digit(v[n])
        invariant
            n <= v@.len(),
            forall|i: int| 0 <= i < n ==> text::is_digit(#[trigger] v@[i]),
        decreases v@.len() - n,
    {
        n = n + 1;
    }
    proof {
        lemma_leading_digits(v@, n as int);
        assert(v@.take(n as int) =~= v@.subrange(0, n as int));
    }
    if n == 0 || n > 12 {
        return None;
    }
    let now: u64 = if now_secs > 0 {
        now_secs as u64
    } else {
        0
    };
    match text::parse_digits(&v, 0, n, now + 86400) {
        Some(secs) => if secs == 0 {
            None
        } else {
            Some(secs)
        },
        None => None,
    }
}

/// A second since 1970, as the archive writes it.
pub open spec fn second_text(secs: int) -> Seq<char> {
    moment_or_epoch(instant::moment_text(Moment { secs: secs as i64, nanos: 0, offset: 0 }))
}

/// What was written, or the beginning of 1970.
pub open spec fn moment_or_epoch(t: Result<Seq<char>, Seq<char>>) -> Seq<char> {
    match t {
        Ok(s) => s,
        Err(_) => "1970-01-01T00:00:00Z"@,
    }
}

fn written_moment(m: Moment) -> (r: String)
    ensures
        r@ == moment_or_epoch(instant::moment_text(m)),
{
    match instant::format_rfc3339(m) {
        Ok(t) => t,
        Err(_) => "1970-01-01T00:00:00Z".to_owned(),
    }
}

/// When a message was received: when it was delivered by its file name, else
/// by its own date, else when its file was last written, else now.
pub open spec fn received_text(
    filename: Seq<char>,
    mtime_unix: u64,
    date_header: Option<Seq<char>>,
    now: Moment,
) -> Seq<char> {
    match delivery_time(filename, now.secs as int) {
        Some(secs) => second_text(secs as int),
        None => match date_header {
            Some(d) => d,
            None => if mtime_unix > 0 {
                second_text(mtime_unix as int)
            } else {
                moment_or_epoch(instant::moment_text(now))
            },
        },
    }
}

/// Finds when a message was received.
pub fn pick_received_at(
    filename: &str,
    mtime_unix: u64,
    date_header: Option<&str>,
    now: Moment,
) -> (r: String)
    requires
        now.secs + 86400 <= LAST_SECOND,
        delivery_time(filename@, now.secs as int) is None && date_header is None ==> mtime_unix
            <= LAST_SECOND,
    ensures
        r@ == received_text(filename@, mtime_unix, json::str_view(date_header), now),
{
    match delivery_time_from_filename(filename, now.secs) {
        Some(secs) => {
            return written_moment(Moment { secs: secs as i64, nanos: 0, offset: 0 });
        },
        None => {},
    }
    match date_header {
        Some(d) => d.to_owned(),
        None => if mtime_unix > 0 {
            written_moment(Moment { secs: mtime_unix as i64, nanos: 0, offset: 0 })
        } else {
            written_moment(now)
        },
    }
}

/// The text of keywords.
pub fn keywords_json(translation: &Translation) -> (r: String)
    ensures
        r@ == json::json_text(mapping::texts_val(text::texts(translation.keywords@))),
{
    mapping::text_array_json(&translation.keywords)
}

/// The keywords of a message on disk, as the archive holds them.
pub open spec fn expected_keywords(flags: Seq<Flag>, include_deleted: bool) -> Seq<char> {
    json::json_text(mapping::texts_val(keywords::keywords_of(flags, include_deleted)))
}

/// Whether a message is left out because it is trashed.
pub open spec fn is_left_out(flags: Seq<Flag>, include_deleted: bool) -> bool {
    flags.contains(Flag::Trashed) && !include_deleted
}

/// The columns of a new message, unless it is left out.
pub fn new_email_row(
    entry: &DiskEntry,
    ctx: &InsertContext,
    blob_id: i64,
    received_at: &str,
    message_match: &str,
) -> (r: Option<Vec<Cell>>)
    ensures
        match r {
            Some(row) => !is_left_out(entry.flags@, ctx.include_deleted) && cell::cells(row@)
                == mapping::stored_email(
                blob_id,
                received_at@,
                seq![ctx.mailbox_local],
                keywords::keywords_of(entry.flags@, ctx.include_deleted),
                message_match@,
            ),
            None => is_left_out(entry.flags@, ctx.include_deleted),
        },
{
    let translation: Translation = keywords::translate_flags(&entry.flags, ctx.include_deleted);
    if translation.has_trashed_flag && !ctx.include_deleted {
        return None;
    }
    let mut mailboxes: Vec<i64> = Vec::new();
    mailboxes.push(ctx.mailbox_local);
    assert(mailboxes@ =~= seq![ctx.mailbox_local]);
    let mut row: Vec<Cell> = Vec::new();
    row.push(Cell::Int(blob_id));
    row.push(Cell::Text(received_at.to_owned()));
    row.push(Cell::Text(mapping::id_array_json(&mailboxes)));
    row.push(Cell::Text(keywords_json(&translation)));
    row.push(Cell::Text(message_match.to_owned()));
    assert(cell::cells(row@) =~= mapping::stored_email(
        blob_id,
        received_at@,
        seq![ctx.mailbox_local],
        keywords::keywords_of(entry.flags@, ctx.include_deleted),
        message_match@,
    ));
    Some(row)
}

/// What becomes of a message that is on disk and in the archive.
#[derive(Clone, Copy, PartialEq, Eq, Structural, Debug)]
pub enum PresentOutcome {
    Unchanged,
    KeywordsUpdated,
    DeleteRequested,
}

/// What becomes of a message with flags, given its stored keywords.
pub open spec fn fate(flags: Seq<Flag>, include_deleted: bool, stored: Seq<char>) -> PresentOutcome {
    if is_left_out(flags, include_deleted) {
        PresentOutcome::DeleteRequested
    } else if stored == expected_keywords(flags, include_deleted) {
        PresentOutcome::Unchanged
    } else {
        PresentOutcome::KeywordsUpdated
    }
}

/// Compares the flags of a message with its stored keywords. Where those are
/// to be updated, the keywords to write come with the answer.
pub fn refresh_flags(entry: &DiskEntry, stored_keywords: &str, include_deleted: bool) -> (r: (
    PresentOutcome,
    Option<String>,
))
    ensures
        r.0 == fate(entry.flags@, include_deleted, stored_keywords@),
        json::text_view(r.1) == (if r.0 == PresentOutcome::KeywordsUpdated {
            Some(expected_keywords(entry.flags@, include_deleted))
        } else {
            None
        }),
{
    let translation: Translation = keywords::translate_flags(&entry.flags, include_deleted);
    if translation.has_trashed_flag && !include_deleted {
        return (PresentOutcome::DeleteRequested, None);
    }
    let expected: String = keywords_json(&translation);
    if text::same(stored_keywords, expected.as_str()) {
        return (PresentOutcome::Unchanged, None);
    }
    (PresentOutcome::KeywordsUpdated, Some(expected))
}

/// A message whose keywords were brought up to date stays unchanged until its
/// flags change.
pub proof fn refreshed_keywords_stay(flags: Seq<Flag>, include_deleted: bool, stored: Seq<char>)
    requires
        fate(flags, include_deleted, stored) == PresentOutcome::KeywordsUpdated,
    ensures
        fate(flags, include_deleted, expected_keywords(flags, include_deleted))
            == PresentOutcome::Unchanged,
{
}

/// How the work on one message of a folder went.
#[derive(Clone, Copy, PartialEq, Eq, Structural, Debug)]
pub enum Done {
    /// A new message was stored.
    Inserted,
    /// A new message was left out.
    LeftOut,
    /// A message needed no work.
    Unchanged,
    /// The keywords of a message were written.
    KeywordsUpdated,
    /// A message was taken out of the archive.
    Deleted,
    /// The work failed.
    Failed,
}

/// The counts after the work on one message.
pub open spec fn counted(c: TypeCounts, done: Done) -> TypeCounts {
    match done {
        Done::Inserted => TypeCounts {
            created: (c.created + 1) as u64,
            fetched: (c.fetched + 1) as u64,
            ..c
        },
        Done::LeftOut => TypeCounts { skipped: (c.skipped + 1) as u64, ..c },
        Done::Unchanged => TypeCounts { skipped: (c.skipped + 1) as u64, ..c },
        Done::KeywordsUpdated => TypeCounts { fetched: (c.fetched + 1) as u64, ..c },
        Done::Deleted => TypeCounts { deleted: (c.deleted + 1) as u64, ..c },
        Done::Failed => TypeCounts { failed: (c.failed + 1) as u64, ..c },
    }
}

/// The counts after the work on several messages.
pub open spec fn counted_all(c: TypeCounts, done: Seq<Done>) -> TypeCounts
    decreases done.len(),
{
    if done.len() == 0 {
        c
    } else {
        counted(counted_all(c, done.drop_last()), done.last())
    }
}

pub proof fn lemma_counts_grow(c: TypeCounts, done: Seq<Done>)
    requires
        c.created + done.len() <= u64::MAX,
        c.fetched + done.len() <= u64::MAX,
        c.deleted + done.len() <= u64::MAX,
        c.skipped + done.len() <= u64::MAX,
        c.failed + done.len() <= u64::MAX,
    ensures
        counted_all(c, done).created <= c.created + done.len(),
        counted_all(c, done).fetched <= c.fetched + done.len(),
        counted_all(c, done).deleted <= c.deleted + done.len(),
        counted_all(c, done).skipped <= c.skipped + done.len(),
        counted_all(c, done).failed <= c.failed + done.len(),
        counted_all(c, done).updated == c.updated,
    decreases done.len(),
{
    if done.len() > 0 {
        lemma_counts_grow(c, done.drop_last());
    }
}

/// Counts what was done for the messages of a folder.
pub fn apply_folder(done: &Vec<Done>, counts: &mut TypeCounts)
    requires
        old(counts).created + done@.len() <= u64::MAX,
        old(counts).fetched + done@.len() <= u64::MAX,
        old(counts).deleted + done@.len() <= u64::MAX,
        old(counts).skipped + done@.len() <= u64::MAX,
        old(counts).failed + done@.len() <= u64::MAX,
    ensures
        *final(counts) == counted_all(*old(counts), done@),
{
    let ghost start = *counts;
    let mut i: usize = 0;
    assert(done@.take(0) =~= Seq::empty());
    while i < done.len()
        invariant
            i <= done@.len(),
            *counts == counted_all(start, done@.take(i as int)),
            start.created + done@.len() <= u64::MAX,
            start.fetched + done@.len() <= u64::MAX,
            start.deleted + done@.len() <= u64::MAX,
            start.skipped + done@.len() <= u64::MAX,
            start.failed + done@.len() <= u64::MAX,
        decreases done@.len() - i,
    {
        proof {
            lemma_counts_grow(start, done@.take(i as int));
            assert(done@.take(i as int + 1).drop_last() =~= done@.take(i as int));
            assert(done@.take(i as int + 1).last() == done@[i as int]);
        }
        match done[i] {
            Done::Inserted => {
                counts.created = counts.created + 1;
                counts.fetched = counts.fetched + 1;
            },
            Done::LeftOut => {
                counts.skipped = counts.skipped + 1;
            },
            Done::Unchanged => {
                counts.skipped = counts.skipped + 1;
            },
            Done::KeywordsUpdated => {
                counts.fetched = counts.fetched + 1;
            },
            Done::Deleted => {
                counts.deleted = counts.deleted + 1;
            },
            Done::Failed => {
                counts.failed = counts.failed + 1;
            },
        }
        i = i + 1;
    }
    assert(done@.take(i as int) =~= done@);
}

/// Why a new message was not stored.
#[derive(Debug)]
pub enum InsertError {
    Io(String),
    Db(String),
}

/// What is said of a message that was not stored.
pub open spec fn insert_text(e: InsertError) -> Seq<char> {
    match e {
        InsertError::Io(m) => "io: "@ + m@,
        InsertError::Db(m) => "db: "@ + m@,
    }
}

impl InsertError {
    /// What the error says.
    pub fn message(&self) -> (r: String)
        ensures
            r@ == insert_text(*self),
    {
        match self {
            InsertError::Io(m) => text::joined("io: ", m.as_str()),
            InsertError::Db(m) => text::joined("db: ", m.as_str()),
        }
    }
}

/// The work on a message of a folder.
#[derive(Clone, Copy, PartialEq, Eq, Structural, Debug)]
pub enum Work {
    Insert,
    FlagUpdate,
    TrashDelete,
    Delete,
}

/// How a warning about the work goes on after the message.
pub open spec fn work_text(work: Work) -> Seq<char> {
    match work {
        Work::Insert => ": "@,
        Work::FlagUpdate => ": flag update failed: "@,
        Work::TrashDelete => ": T-flag delete failed: "@,
        Work::Delete => ": delete failed: "@,
    }
}

/// The warning for work on a message that failed.
pub fn work_warning(folder: &str, name: &str, work: Work, e: &str) -> (r: String)
    ensures
        r@ == "maildir "@ + text::debug_text(folder@) + "/"@ + name@ + work_text(work) + e@,
{
    let mut w: String = text::joined("maildir ", text::quoted(folder).as_str());
    w.append("/");
    w.append(name);
    w.append(
        match work {
            Work::Insert => ": ",
            Work::FlagUpdate => ": flag update failed: ",
            Work::TrashDelete => ": T-flag delete failed: ",
            Work::Delete => ": delete failed: ",
        },
    );
    w.append(e);
    w
}

} // verus!
