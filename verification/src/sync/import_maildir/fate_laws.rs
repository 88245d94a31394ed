//! What becomes of the messages and folders of a Maildir.

use crate::instant;
use crate::instant::Moment;
use crate::json;
use crate::sync::import_jmap::mapping;
use crate::sync::import_maildir::coordinator;
use crate::sync::import_maildir::coordinator::{FolderId, ResolvedFolder, Todo};
use crate::sync::import_maildir::keywords;
use crate::sync::import_maildir::keywords::Flag;
use crate::sync::import_maildir::messages;
use crate::sync::import_maildir::messages::{Done, EntryVal, FoundFile, LocalMail, PresentOutcome};
use crate::sync::TypeCounts;
use crate::text;
use vstd::prelude::*;

verus! {

/// Whether a text gives a moment in whole seconds, as far as such a moment can
/// be given.
pub open spec fn gives_second(t: Seq<char>, secs: int) -> bool {
    instant::moment_text(Moment { secs: secs as i64, nanos: 0, offset: 0 }) matches Ok(s) ==> t == s
}

proof fn lemma_leading(digits: Seq<char>, rest: Seq<char>)
    requires
        text::all_digits(digits),
        rest.len() == 0 || !text::is_digit(rest[0]),
    ensures
        messages::leading_digits(digits + rest) == digits,
    decreases digits.len(),
{
    let s = digits + rest;
    if digits.len() > 0 {
        assert(text::is_digit(digits[0]));
        assert(s[0] == digits[0]);
        assert(s.drop_first() =~= digits.drop_first() + rest);
        assert forall|i: int| 0 <= i < digits.drop_first().len() implies text::is_digit(
            #[trigger] digits.drop_first()[i],
        ) by {
            assert(digits[i + 1] == digits.drop_first()[i]);
        }
        lemma_leading(digits.drop_first(), rest);
        assert(seq![digits[0]] + digits.drop_first() =~= digits);
    } else {
        assert(s =~= rest);
    }
}

/// A message was received at the second that its name begins with, unless that
/// is none, has more than twelve digits, or lies more than a day ahead. Then its
/// header counts, then the time of its file, and at last the present.
pub proof fn messages_are_dated(
    digits: Seq<char>,
    rest: Seq<char>,
    mtime: u64,
    header: Option<Seq<char>>,
    now: Moment,
)
    requires
        text::all_digits(digits),
        rest.len() == 0 || !text::is_digit(rest[0]),
        now.secs >= 0,
    ensures
        ({
            let secs = text::digits_value(digits);
            let in_name = 1 <= digits.len() <= 12 && 0 < secs <= now.secs + 86_400;
            let t = messages::received_text(digits + rest, mtime, header, now);
            &&& in_name ==> gives_second(t, secs as int)
            &&& !in_name && header is Some ==> t == header->0
            &&& !in_name && header is None && mtime > 0 ==> gives_second(t, mtime as int)
            &&& !in_name && header is None && mtime == 0 ==> (instant::moment_text(
                now,
            ) matches Ok(s) ==> t == s)
        }),
{
    lemma_leading(digits, rest);
}

/// How often something was done.
pub open spec fn times(done: Seq<Done>, x: Done) -> nat {
    done.filter(|d: Done| d == x).len()
}

/// Whatever is done with a message is counted once, where it belongs.
pub proof fn what_is_done_is_counted(c: TypeCounts, done: Seq<Done>)
    requires
        c.created + done.len() <= u64::MAX,
        c.fetched + done.len() <= u64::MAX,
        c.skipped + done.len() <= u64::MAX,
        c.deleted + done.len() <= u64::MAX,
        c.failed + done.len() <= u64::MAX,
    ensures
        ({
            let after = messages::counted_all(c, done);
            &&& after.created == c.created + times(done, Done::Inserted)
            &&& after.fetched == c.fetched + times(done, Done::Inserted) + times(
                done,
                Done::KeywordsUpdated,
            )
            &&& after.skipped == c.skipped + times(done, Done::LeftOut) + times(
                done,
                Done::Unchanged,
            )
            &&& after.deleted == c.deleted + times(done, Done::Deleted)
            &&& after.failed == c.failed + times(done, Done::Failed)
            &&& after.updated == c.updated
            &&& times(done, Done::Inserted) + times(done, Done::KeywordsUpdated) + times(
                done,
                Done::LeftOut,
            ) + times(done, Done::Unchanged) + times(done, Done::Deleted) + times(
                done,
                Done::Failed,
            ) == done.len()
        }),
    decreases done.len(),
{
    reveal(Seq::filter);
    if done.len() > 0 {
        what_is_done_is_counted(c, done.drop_last());
    }
}

/// A message that is in the archive already leaves it exactly where it is
/// trashed and deleted messages are not kept. One that stays gets its keywords
/// written exactly where they are not those that its flags mean.
pub proof fn present_messages_follow_their_flags(
    flags: Seq<Flag>,
    include_deleted: bool,
    stored: Seq<char>,
)
    ensures
        messages::fate(flags, include_deleted, stored) == PresentOutcome::DeleteRequested <==> (
        exists|i: int| 0 <= i < flags.len() && #[trigger] flags[i] == Flag::Trashed)
            && !include_deleted,
        messages::fate(flags, include_deleted, stored) == PresentOutcome::KeywordsUpdated ==> stored
            != json::json_text(mapping::texts_val(keywords::keywords_of(flags, include_deleted))),
        messages::fate(flags, include_deleted, stored) == PresentOutcome::Unchanged ==> stored
            == json::json_text(mapping::texts_val(keywords::keywords_of(flags, include_deleted))),
{
}

/// Whether a file is a message with an id: it is not hidden, and its name has
/// one.
pub open spec fn is_message(f: FoundFile, id: Seq<char>) -> bool {
    &&& id.len() > 0
    &&& f.filename@.len() > 0 ==> f.filename@[0] != '.'
    &&& keywords::unique_id(f.filename@) == id
}

/// Whether files have a message with an id.
pub open spec fn have_message(files: Seq<FoundFile>, id: Seq<char>) -> bool {
    exists|i: int| 0 <= i < files.len() && is_message(#[trigger] files[i], id)
}

/// A folder lists a message exactly where one of its files is it.
pub proof fn every_message_is_listed(files: Seq<FoundFile>, id: Seq<char>)
    ensures
        messages::holds(messages::listed(files), id) <==> have_message(files, id),
    decreases files.len(),
{
    reveal_strlit(".");
    assert("."@.len() == 1 && "."@[0] == '.');
    if files.len() > 0 {
        let rest = files.drop_last();
        every_message_is_listed(rest, id);
        let before = messages::listed(rest);
        let after = messages::listed(files);
        let last = files.last();
        assert(files[files.len() - 1] == last);
        assert(forall|i: int| 0 <= i < rest.len() ==> #[trigger] rest[i] == files[i]);
        assert(text::has_prefix(last.filename@, "."@) <==> last.filename@.len() > 0
            && last.filename@[0] == '.') by {
            if last.filename@.len() > 0 {
                assert(last.filename@.subrange(0, 1)[0] == last.filename@[0]);
                if last.filename@[0] == '.' {
                    assert(last.filename@.subrange(0, 1) =~= "."@);
                }
            }
        }
        if messages::holds(before, id) {
            let i = choose|i: int| 0 <= i < before.len() && (#[trigger] before[i]).unique_id == id;
            assert(after[i].unique_id == id);
        }
        if have_message(rest, id) {
            let i = choose|i: int| 0 <= i < rest.len() && is_message(#[trigger] rest[i], id);
            assert(is_message(files[i], id));
        }
        if have_message(files, id) {
            let i = choose|i: int| 0 <= i < files.len() && is_message(#[trigger] files[i], id);
            if i < rest.len() {
                assert(is_message(rest[i], id));
            } else if !messages::passed_over(before, last) {
                assert(after[after.len() - 1].unique_id == id);
            }
        }
        if messages::holds(after, id) && !messages::holds(before, id) {
            let i = choose|i: int| 0 <= i < after.len() && (#[trigger] after[i]).unique_id == id;
            if i < before.len() {
                assert(before[i].unique_id == id);
            }
            assert(is_message(last, id));
        }
    }
}

/// Whether there is a row for a key.
pub open spec fn is_known(local: Seq<LocalMail>, key: Seq<char>) -> bool {
    exists|i: int| 0 <= i < local.len() && (#[trigger] local[i]).unique_id@ == key
}

/// Whether a key stands for a value: of the rows for it, the last counts.
pub open spec fn is_known_as(local: Seq<LocalMail>, key: Seq<char>, value: i64) -> bool {
    exists|i: int|
        0 <= i < local.len() && (#[trigger] local[i]).unique_id@ == key && local[i].local_id == value
            && forall|k: int| i < k < local.len() ==> (#[trigger] local[k]).unique_id@ != key
}

/// A message is known by the local id that the archive has for it.
pub proof fn stored_messages_have_their_local_id(local: Seq<LocalMail>, key: Seq<char>, value: i64)
    ensures
        messages::local_of(local, key) is Some <==> is_known(local, key),
        messages::local_of(local, key) == Some(value) <==> is_known_as(local, key, value),
    decreases local.len(),
{
    if local.len() > 0 {
        let rest = local.drop_last();
        stored_messages_have_their_local_id(rest, key, value);
        assert(local[local.len() - 1] == local.last());
        assert(forall|i: int| 0 <= i < rest.len() ==> #[trigger] rest[i] == local[i]);
        if is_known(rest, key) {
            let i = choose|i: int| 0 <= i < rest.len() && (#[trigger] rest[i]).unique_id@ == key;
            assert(local[i].unique_id@ == key);
        }
        if local.last().unique_id@ != key {
            if is_known(local, key) {
                let i = choose|i: int| 0 <= i < local.len() && (#[trigger] local[i]).unique_id@ == key;
                assert(rest[i].unique_id@ == key);
            }
            if is_known_as(rest, key, value) {
                let i = choose|i: int|
                    0 <= i < rest.len() && (#[trigger] rest[i]).unique_id@ == key && rest[i].local_id == value
                        && forall|k: int| i < k < rest.len() ==> (#[trigger] rest[k]).unique_id@ != key;
                assert(local[i].unique_id@ == key);
                assert forall|k: int| i < k < local.len() implies (#[trigger] local[k]).unique_id@ != key by {
                    if k < rest.len() {
                        assert(rest[k].unique_id@ != key);
                    }
                }
            }
            if is_known_as(local, key, value) {
                let i = choose|i: int|
                    0 <= i < local.len() && (#[trigger] local[i]).unique_id@ == key && local[i].local_id == value
                        && forall|k: int| i < k < local.len() ==> (#[trigger] local[k]).unique_id@ != key;
                assert(rest[i].unique_id@ == key);
                assert forall|k: int| i < k < rest.len() implies (#[trigger] rest[k]).unique_id@ != key by {
                    assert(local[k].unique_id@ != key);
                }
            }
        }
    }
}

/// Whether there is a row for a key.
pub open spec fn has_mailbox(ids: Seq<FolderId>, key: Seq<char>) -> bool {
    exists|i: int| 0 <= i < ids.len() && (#[trigger] ids[i]).name@ == key
}

/// Whether a key stands for a value: of the rows for it, the last counts.
pub open spec fn has_as_mailbox(ids: Seq<FolderId>, key: Seq<char>, value: i64) -> bool {
    exists|i: int|
        0 <= i < ids.len() && (#[trigger] ids[i]).name@ == key && ids[i].local_id == value
            && forall|k: int| i < k < ids.len() ==> (#[trigger] ids[k]).name@ != key
}

/// A folder is known by the mailbox that the archive has for it.
pub proof fn folders_have_their_mailbox(ids: Seq<FolderId>, key: Seq<char>, value: i64)
    ensures
        coordinator::mailbox_of(ids, key) is Some <==> has_mailbox(ids, key),
        coordinator::mailbox_of(ids, key) == Some(value) <==> has_as_mailbox(ids, key, value),
    decreases ids.len(),
{
    if ids.len() > 0 {
        let rest = ids.drop_last();
        folders_have_their_mailbox(rest, key, value);
        assert(ids[ids.len() - 1] == ids.last());
        assert(forall|i: int| 0 <= i < rest.len() ==> #[trigger] rest[i] == ids[i]);
        if has_mailbox(rest, key) {
            let i = choose|i: int| 0 <= i < rest.len() && (#[trigger] rest[i]).name@ == key;
            assert(ids[i].name@ == key);
        }
        if ids.last().name@ != key {
            if has_mailbox(ids, key) {
                let i = choose|i: int| 0 <= i < ids.len() && (#[trigger] ids[i]).name@ == key;
                assert(rest[i].name@ == key);
            }
            if has_as_mailbox(rest, key, value) {
                let i = choose|i: int|
                    0 <= i < rest.len() && (#[trigger] rest[i]).name@ == key && rest[i].local_id == value
                        && forall|k: int| i < k < rest.len() ==> (#[trigger] rest[k]).name@ != key;
                assert(ids[i].name@ == key);
                assert forall|k: int| i < k < ids.len() implies (#[trigger] ids[k]).name@ != key by {
                    if k < rest.len() {
                        assert(rest[k].name@ != key);
                    }
                }
            }
            if has_as_mailbox(ids, key, value) {
                let i = choose|i: int|
                    0 <= i < ids.len() && (#[trigger] ids[i]).name@ == key && ids[i].local_id == value
                        && forall|k: int| i < k < ids.len() ==> (#[trigger] ids[k]).name@ != key;
                assert(rest[i].name@ == key);
                assert forall|k: int| i < k < rest.len() implies (#[trigger] rest[k]).name@ != key by {
                    assert(ids[k].name@ != key);
                }
            }
        }
    }
}

/// A message that is on disk and in the archive is dealt with under the local id
/// that it has there.
pub proof fn present_messages_keep_their_local_id(disk: Seq<EntryVal>, local: Seq<LocalMail>, x: (EntryVal, i64))
    ensures
        messages::present_entries(disk, local).contains(x) <==> exists|i: int| 0 <= i < disk.len() && (#[trigger] disk[i]) == x.0 && is_known_as(local, x.0.unique_id, x.1),
    decreases disk.len(),
{
    if disk.len() > 0 {
        let rest = disk.drop_last();
        present_messages_keep_their_local_id(rest, local, x);
        let before = messages::present_entries(rest, local);
        let after = messages::present_entries(disk, local);
        assert(disk[disk.len() - 1] == disk.last());
        assert(forall|i: int| 0 <= i < rest.len() ==> #[trigger] rest[i] == disk[i]);
        stored_messages_have_their_local_id(local, disk.last().unique_id, x.1);
        if let Some(n) = messages::local_of(local, disk.last().unique_id) {
            stored_messages_have_their_local_id(local, disk.last().unique_id, n);
        }
        if before.contains(x) {
            let k = choose|k: int| 0 <= k < before.len() && before[k] == x;
            assert(after[k] == x);
            let i = choose|i: int| 0 <= i < rest.len() && (#[trigger] rest[i]) == x.0 && is_known_as(local, x.0.unique_id, x.1);
            assert(disk[i] == x.0 && is_known_as(local, x.0.unique_id, x.1));
        }
        if disk.last() == x.0 && is_known_as(local, x.0.unique_id, x.1) {
            assert(after[after.len() - 1] == x);
        }
        if after.contains(x) && !(disk.last() == x.0 && is_known_as(local, x.0.unique_id, x.1)) {
            let k = choose|k: int| 0 <= k < after.len() && after[k] == x;
            assert(before[k] == x);
        }
        if exists|i: int| 0 <= i < disk.len() && (#[trigger] disk[i]) == x.0 && is_known_as(local, x.0.unique_id, x.1) {
            let i = choose|i: int| 0 <= i < disk.len() && (#[trigger] disk[i]) == x.0 && is_known_as(local, x.0.unique_id, x.1);
            if i < rest.len() {
                assert(rest[i] == x.0 && is_known_as(local, x.0.unique_id, x.1));
            }
        }
    }
}

/// Gone are the folders of the archive that are on disk no more.
pub proof fn folders_that_left_are_gone(stored: Seq<FolderId>, folders: Seq<ResolvedFolder>, name: Seq<char>)
    ensures
        coordinator::gone(stored, folders).contains(name) <==> exists|i: int| 0 <= i < stored.len() && (#[trigger] stored[i]).name@ == name && !coordinator::is_listed(folders, name),
    decreases stored.len(),
{
    if stored.len() > 0 {
        let rest = stored.drop_last();
        folders_that_left_are_gone(rest, folders, name);
        let before = coordinator::gone(rest, folders);
        let after = coordinator::gone(stored, folders);
        assert(stored[stored.len() - 1] == stored.last());
        assert(forall|i: int| 0 <= i < rest.len() ==> #[trigger] rest[i] == stored[i]);
        if before.contains(name) {
            let k = choose|k: int| 0 <= k < before.len() && before[k] == name;
            assert(after[k] == name);
            let i = choose|i: int| 0 <= i < rest.len() && (#[trigger] rest[i]).name@ == name && !coordinator::is_listed(folders, name);
            assert(stored[i].name@ == name && !coordinator::is_listed(folders, name));
        }
        if stored.last().name@ == name && !coordinator::is_listed(folders, name) {
            assert(after[after.len() - 1] == name);
        }
        if after.contains(name) && !(stored.last().name@ == name && !coordinator::is_listed(folders, name)) {
            let k = choose|k: int| 0 <= k < after.len() && after[k] == name;
            assert(before[k] == name);
        }
        if exists|i: int| 0 <= i < stored.len() && (#[trigger] stored[i]).name@ == name && !coordinator::is_listed(folders, name) {
            let i = choose|i: int| 0 <= i < stored.len() && (#[trigger] stored[i]).name@ == name && !coordinator::is_listed(folders, name);
            if i < rest.len() {
                assert(rest[i].name@ == name && !coordinator::is_listed(folders, name));
            }
        }
    }
}

/// A mailbox goes below the one of the folder that it lies in: one written in
/// this run, or else one of the archive.
pub proof fn mailboxes_go_below_their_parent(
    parent: Seq<char>,
    written: Seq<FolderId>,
    stored: Seq<FolderId>,
    local: i64,
)
    ensures
        coordinator::parent_mailbox(None, written, stored) is None,
        has_as_mailbox(written, parent, local) ==> coordinator::parent_mailbox(
            Some(parent),
            written,
            stored,
        ) == Some(local),
        !has_mailbox(written, parent) && has_as_mailbox(stored, parent, local)
            ==> coordinator::parent_mailbox(Some(parent), written, stored) == Some(local),
        !has_mailbox(written, parent) && !has_mailbox(stored, parent)
            ==> coordinator::parent_mailbox(Some(parent), written, stored) is None,
{
    folders_have_their_mailbox(written, parent, local);
    folders_have_their_mailbox(stored, parent, local);
}

/// The messages of a folder are read exactly where it is one of its own on
/// disk.
pub proof fn lasting_folders_are_read(folders: Seq<ResolvedFolder>, from: int, k: int)
    requires
        0 <= from,
    ensures
        coordinator::messages_from(folders, from).contains(Todo::Messages(k)) <==> from <= k
            < folders.len() && !folders[k].ephemeral,
    decreases folders.len() - from,
{
    if from < folders.len() {
        lasting_folders_are_read(folders, from + 1, k);
        let rest = coordinator::messages_from(folders, from + 1);
        let all = coordinator::messages_from(folders, from);
        if !folders[from].ephemeral {
            assert(all[0] == Todo::Messages(from));
            if rest.contains(Todo::Messages(k)) {
                let i = choose|i: int| 0 <= i < rest.len() && rest[i] == Todo::Messages(k);
                assert(all[i + 1] == Todo::Messages(k));
            }
            if all.contains(Todo::Messages(k)) {
                let i = choose|i: int| 0 <= i < all.len() && all[i] == Todo::Messages(k);
                if i > 0 {
                    assert(rest[i - 1] == Todo::Messages(k));
                }
            }
        }
    }
}

} // verus!
