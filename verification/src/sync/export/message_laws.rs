//! What a message is exported with.

use crate::json;
use crate::json::{Members, Val};
use crate::sync::export::email;
use crate::sync::export::email::{EmailExport, SingleImport, TargetId};
use crate::text;
use vstd::prelude::*;

verus! {

proof fn lemma_item_names()
    ensures
        "blobId"@ != "mailboxIds"@,
        "blobId"@ != "keywords"@,
        "blobId"@ != "receivedAt"@,
        "mailboxIds"@ != "keywords"@,
        "mailboxIds"@ != "receivedAt"@,
        "keywords"@ != "receivedAt"@,
{
    reveal_strlit("blobId");
    reveal_strlit("mailboxIds");
    reveal_strlit("keywords");
    reveal_strlit("receivedAt");
    assert("blobId"@.len() == 6);
    assert("mailboxIds"@.len() == 10);
    assert("keywords"@.len() == 8);
    assert("receivedAt"@.len() == 10);
    assert("mailboxIds"@[0] == 'm');
    assert("receivedAt"@[0] == 'r');
}

/// Whether a message has a keyword.
pub open spec fn has_keyword(x: EmailExport, k: Seq<char>) -> bool {
    exists|i: int| 0 <= i < x.keywords@.len() && (#[trigger] x.keywords@[i])@ == k
}

/// Whether an object at the server is the one that stands for a local one: of
/// those that are on record, the last.
pub open spec fn stands_for(ids: Seq<TargetId>, local: i64, target: Seq<char>) -> bool {
    exists|j: int|
        0 <= j < ids.len() && (#[trigger] ids[j]).local_id == local && ids[j].target_id@ == target
            && forall|k: int| j < k < ids.len() ==> (#[trigger] ids[k]).local_id != local
}

/// Whether some object at the server stands for a local one.
pub open spec fn is_at_the_server(ids: Seq<TargetId>, local: i64) -> bool {
    exists|j: int| 0 <= j < ids.len() && (#[trigger] ids[j]).local_id == local
}

proof fn lemma_keywords(v: Seq<Seq<char>>, k: Seq<char>)
    ensures
        json::lookup(email::keyword_members(v), k) == (if v.contains(k) {
            Some(Val::Bool(true))
        } else {
            None
        }),
    decreases v.len(),
{
    if v.len() > 0 {
        let rest = v.drop_last();
        lemma_keywords(rest, k);
        json::lemma_with_member(email::keyword_members(rest), v.last(), Val::Bool(true), k);
        if rest.contains(k) {
            let i = choose|i: int| 0 <= i < rest.len() && rest[i] == k;
            assert(v[i] == k);
        }
        if v.contains(k) {
            let i = choose|i: int| 0 <= i < v.len() && v[i] == k;
            if i < rest.len() {
                assert(rest[i] == k);
            }
        }
        assert(v[v.len() - 1] == v.last());
    }
}

/// A message is sent with each of its keywords set to true, and with no other.
pub proof fn messages_keep_their_keywords(
    x: EmailExport,
    blob: Seq<char>,
    mailboxes: Members,
    k: Seq<char>,
)
    ensures
        email::sent_item(x, blob, mailboxes).get("keywords"@) matches Some(set) && set.get(k) == (
        if has_keyword(x, k) {
            Some(Val::Bool(true))
        } else {
            None
        }),
{
    lemma_item_names();
    lemma_item(x, blob, mailboxes, "keywords"@);
    let v = text::texts(x.keywords@);
    lemma_keywords(v, k);
    if has_keyword(x, k) {
        let i = choose|i: int| 0 <= i < x.keywords@.len() && (#[trigger] x.keywords@[i])@ == k;
        assert(v[i] == k);
    }
    if v.contains(k) {
        let i = choose|i: int| 0 <= i < v.len() && v[i] == k;
        assert(x.keywords@[i]@ == k);
    }
}

/// The set of a message's keywords has each of them, set to true, and no other.
pub proof fn keyword_sets_hold_the_keywords(keywords: Seq<Seq<char>>, k: Seq<char>)
    ensures
        json::lookup(email::keyword_members(keywords), k) == (if exists|i: int|
            0 <= i < keywords.len() && #[trigger] keywords[i] == k {
            Some(Val::Bool(true))
        } else {
            None
        }),
{
    lemma_keywords(keywords, k);
}

proof fn lemma_item(x: EmailExport, blob: Seq<char>, mailboxes: Members, key: Seq<char>)
    ensures
        email::sent_item(x, blob, mailboxes).get(key) == (if key == "blobId"@ {
            Some(Val::Text(blob))
        } else if key == "mailboxIds"@ {
            Some(Val::Object(mailboxes))
        } else if key == "keywords"@ {
            Some(Val::Object(email::keyword_members(text::texts(x.keywords@))))
        } else if key == "receivedAt"@ {
            Some(Val::Text(x.received_at@))
        } else {
            None
        }),
{
    lemma_item_names();
    json::lemma_find4(
        "blobId"@,
        Val::Text(blob),
        "mailboxIds"@,
        Val::Object(mailboxes),
        "keywords"@,
        Val::Object(email::keyword_members(text::texts(x.keywords@))),
        "receivedAt"@,
        Val::Text(x.received_at@),
        key,
    );
}

proof fn lemma_target(ids: Seq<TargetId>, local: i64, t: Seq<char>)
    ensures
        email::target_of(ids, local) == Some(t) <==> stands_for(ids, local, t),
    decreases ids.len(),
{
    if ids.len() > 0 {
        let rest = ids.drop_last();
        lemma_target(rest, local, t);
        if ids.last().local_id == local {
            assert(ids[ids.len() - 1] == ids.last());
            if email::target_of(ids, local) == Some(t) {
                assert(stands_for(ids, local, t));
            }
        } else {
            if stands_for(rest, local, t) {
                let j = choose|j: int|
                    0 <= j < rest.len() && (#[trigger] rest[j]).local_id == local
                        && rest[j].target_id@ == t && forall|k: int|
                        j < k < rest.len() ==> (#[trigger] rest[k]).local_id != local;
                assert(ids[j] == rest[j]);
                assert forall|k: int| j < k < ids.len() implies (#[trigger] ids[k]).local_id
                    != local by {
                    if k < rest.len() {
                        assert(rest[k] == ids[k]);
                    }
                }
            }
            if stands_for(ids, local, t) {
                let j = choose|j: int|
                    0 <= j < ids.len() && (#[trigger] ids[j]).local_id == local
                        && ids[j].target_id@ == t && forall|k: int|
                        j < k < ids.len() ==> (#[trigger] ids[k]).local_id != local;
                assert(rest[j] == ids[j]);
                assert forall|k: int| j < k < rest.len() implies (#[trigger] rest[k]).local_id
                    != local by {
                    assert(rest[k] == ids[k]);
                }
            }
        }
    }
}

proof fn lemma_some_target(ids: Seq<TargetId>, local: i64)
    ensures
        email::target_of(ids, local) is Some <==> is_at_the_server(ids, local),
    decreases ids.len(),
{
    if ids.len() > 0 {
        let rest = ids.drop_last();
        lemma_some_target(rest, local);
        assert(ids[ids.len() - 1] == ids.last());
        assert(forall|j: int| 0 <= j < rest.len() ==> #[trigger] rest[j] == ids[j]);
        if is_at_the_server(rest, local) {
            let j = choose|j: int| 0 <= j < rest.len() && (#[trigger] rest[j]).local_id == local;
            assert(ids[j].local_id == local);
        }
        if is_at_the_server(ids, local) && ids.last().local_id != local {
            let j = choose|j: int| 0 <= j < ids.len() && (#[trigger] ids[j]).local_id == local;
            assert(rest[j].local_id == local);
        }
    }
}

proof fn lemma_mailboxes(locals: Seq<i64>, ids: Seq<TargetId>, t: Seq<char>)
    ensures
        email::mailbox_members(locals, ids) is Some <==> forall|i: int|
            0 <= i < locals.len() ==> email::target_of(ids, #[trigger] locals[i]) is Some,
        email::mailbox_members(locals, ids) is Some ==> json::lookup(
            email::mailbox_members(locals, ids)->0,
            t,
        ) == (if exists|i: int|
            0 <= i < locals.len() && email::target_of(ids, #[trigger] locals[i]) == Some(t) {
            Some(Val::Bool(true))
        } else {
            None
        }),
    decreases locals.len(),
{
    if locals.len() > 0 {
        let rest = locals.drop_last();
        lemma_mailboxes(rest, ids, t);
        assert(locals[locals.len() - 1] == locals.last());
        assert(forall|i: int| 0 <= i < rest.len() ==> #[trigger] rest[i] == locals[i]);
        if forall|i: int|
            0 <= i < locals.len() ==> email::target_of(ids, #[trigger] locals[i]) is Some {
            assert forall|i: int| 0 <= i < rest.len() implies email::target_of(
                ids,
                #[trigger] rest[i],
            ) is Some by {
                assert(email::target_of(ids, locals[i]) is Some);
            }
        }
        if email::mailbox_members(locals, ids) is Some {
            let m = email::mailbox_members(rest, ids)->0;
            let own = email::target_of(ids, locals.last())->0;
            json::lemma_with_member(m, own, Val::Bool(true), t);
            assert forall|i: int| 0 <= i < locals.len() implies email::target_of(
                ids,
                #[trigger] locals[i],
            ) is Some by {
                if i < rest.len() {
                    assert(email::target_of(ids, rest[i]) is Some);
                }
            }
            if exists|i: int|
                0 <= i < rest.len() && email::target_of(ids, #[trigger] rest[i]) == Some(t) {
                let i = choose|i: int|
                    0 <= i < rest.len() && email::target_of(ids, #[trigger] rest[i]) == Some(t);
                assert(email::target_of(ids, locals[i]) == Some(t));
            }
            if exists|i: int|
                0 <= i < locals.len() && email::target_of(ids, #[trigger] locals[i]) == Some(t) {
                let i = choose|i: int|
                    0 <= i < locals.len() && email::target_of(ids, #[trigger] locals[i]) == Some(t);
                if i < rest.len() {
                    assert(email::target_of(ids, rest[i]) == Some(t));
                }
            }
        }
    }
}

/// A message goes to the mailboxes at the server that stand for its own, each
/// set to true, and to no other; one of whose mailboxes none stands for has no
/// set.
pub proof fn messages_go_to_their_mailboxes(locals: Seq<i64>, ids: Seq<TargetId>, t: Seq<char>)
    ensures
        email::mailbox_members(locals, ids) is Some <==> forall|i: int|
            0 <= i < locals.len() ==> is_at_the_server(ids, #[trigger] locals[i]),
        email::mailbox_members(locals, ids) matches Some(m) ==> json::lookup(m, t) == (
        if exists|i: int| 0 <= i < locals.len() && stands_for(ids, #[trigger] locals[i], t) {
            Some(Val::Bool(true))
        } else {
            None
        }),
{
    lemma_mailboxes(locals, ids, t);
    assert forall|i: int| 0 <= i < locals.len() implies (email::target_of(ids, #[trigger] locals[i])
        is Some <==> is_at_the_server(ids, locals[i])) && (email::target_of(ids, locals[i]) == Some(t)
        <==> stands_for(ids, locals[i], t)) by {
        lemma_target(ids, locals[i], t);
        lemma_some_target(ids, locals[i]);
    }
    if forall|i: int| 0 <= i < locals.len() ==> is_at_the_server(ids, #[trigger] locals[i]) {
        assert forall|i: int| 0 <= i < locals.len() implies email::target_of(
            ids,
            #[trigger] locals[i],
        ) is Some by {
            assert(is_at_the_server(ids, locals[i]));
        }
    }
    if exists|i: int|
        0 <= i < locals.len() && email::target_of(ids, #[trigger] locals[i]) == Some(t) {
        let i = choose|i: int|
            0 <= i < locals.len() && email::target_of(ids, #[trigger] locals[i]) == Some(t);
        assert(stands_for(ids, locals[i], t));
    }
    if exists|i: int| 0 <= i < locals.len() && stands_for(ids, #[trigger] locals[i], t) {
        let i = choose|i: int| 0 <= i < locals.len() && stands_for(ids, #[trigger] locals[i], t);
        assert(email::target_of(ids, locals[i]) == Some(t));
    }
}

/// A message is sent with the blob that was uploaded, the moment of its receipt
/// and its mailboxes.
pub proof fn messages_are_sent_with_their_blob(x: EmailExport, blob: Seq<char>, mailboxes: Members)
    ensures
        email::sent_item(x, blob, mailboxes).get("blobId"@) == Some(Val::Text(blob)),
        email::sent_item(x, blob, mailboxes).get("receivedAt"@) == Some(Val::Text(x.received_at@)),
        email::sent_item(x, blob, mailboxes).get("mailboxIds"@) == Some(Val::Object(mailboxes)),
{
    lemma_item_names();
    lemma_item(x, blob, mailboxes, "blobId"@);
    lemma_item(x, blob, mailboxes, "receivedAt"@);
    lemma_item(x, blob, mailboxes, "mailboxIds"@);
}

/// What a server says of a message that it did not create.
pub open spec fn refusal(args: Val, cid: Seq<char>) -> Option<Val> {
    match args.get("notCreated"@) {
        Some(o) => o.get(cid),
        None => None,
    }
}

/// A message that the server refuses as one that it has is skipped, one that it
/// refuses for another reason has failed for that reason, and one that it does
/// not refuse is created where the server says that it created something.
pub proof fn answers_decide_what_became_of_a_message(args: Val, cid: Seq<char>, r: SingleImport)
    requires
        email::is_import_result(args, cid, r),
    ensures
        r is Skipped <==> (refusal(args, cid) matches Some(e) && e.text_at("type"@) == Some(
            "alreadyExists"@,
        )),
        r is Created <==> refusal(args, cid) is None && (args.get("created"@) matches Some(
            Val::Object(c),
        ) && c.len() > 0),
        refusal(args, cid) matches Some(e) && e.text_at("type"@) is Some ==> (
        r matches SingleImport::NotCreated { error_type, detail } ==> Some(error_type@)
            == refusal(args, cid)->0.text_at("type"@)),
{
    reveal_strlit("alreadyExists");
    reveal_strlit("");
    assert("alreadyExists"@.len() != ""@.len());
}

/// Whether a list has a text.
pub open spec fn lists_text(v: Val, key: Seq<char>, t: Seq<char>) -> bool {
    v.list_at(key) matches Some(l) && exists|i: int|
        0 <= i < l.len() && (#[trigger] l[i]).as_text() == Some(t)
}

/// Whether a list has someone with an address.
pub open spec fn lists_address(v: Val, key: Seq<char>, t: Seq<char>) -> bool {
    v.list_at(key) matches Some(l) && exists|i: int|
        0 <= i < l.len() && (#[trigger] l[i]).text_at("email"@) == Some(t)
}

proof fn lemma_texts(l: Seq<Val>, t: Seq<char>)
    ensures
        email::texts_in(l).contains(t) <==> exists|i: int|
            0 <= i < l.len() && (#[trigger] l[i]).as_text() == Some(t),
    decreases l.len(),
{
    if l.len() > 0 {
        let rest = l.drop_last();
        lemma_texts(rest, t);
        let a = email::texts_in(rest);
        let b = email::texts_in(l);
        assert(l[l.len() - 1] == l.last());
        assert(forall|i: int| 0 <= i < rest.len() ==> #[trigger] rest[i] == l[i]);
        if a.contains(t) {
            let k = choose|k: int| 0 <= k < a.len() && a[k] == t;
            assert(b[k] == t);
            let i = choose|i: int| 0 <= i < rest.len() && (#[trigger] rest[i]).as_text() == Some(t);
            assert(l[i].as_text() == Some(t));
        }
        if l.last().as_text() == Some(t) {
            assert(b[b.len() - 1] == t);
        }
        if b.contains(t) && l.last().as_text() != Some(t) {
            let k = choose|k: int| 0 <= k < b.len() && b[k] == t;
            assert(a[k] == t);
        }
        if exists|i: int| 0 <= i < l.len() && (#[trigger] l[i]).as_text() == Some(t) {
            let i = choose|i: int| 0 <= i < l.len() && (#[trigger] l[i]).as_text() == Some(t);
            if i < rest.len() {
                assert(rest[i].as_text() == Some(t));
            }
        }
    }
}

proof fn lemma_addresses(l: Seq<Val>, t: Seq<char>)
    ensures
        email::addresses(l).contains(t) <==> exists|i: int|
            0 <= i < l.len() && (#[trigger] l[i]).text_at("email"@) == Some(t),
    decreases l.len(),
{
    if l.len() > 0 {
        let rest = l.drop_last();
        lemma_addresses(rest, t);
        let a = email::addresses(rest);
        let b = email::addresses(l);
        assert(l[l.len() - 1] == l.last());
        assert(forall|i: int| 0 <= i < rest.len() ==> #[trigger] rest[i] == l[i]);
        if a.contains(t) {
            let k = choose|k: int| 0 <= k < a.len() && a[k] == t;
            assert(b[k] == t);
            let i = choose|i: int|
                0 <= i < rest.len() && (#[trigger] rest[i]).text_at("email"@) == Some(t);
            assert(l[i].text_at("email"@) == Some(t));
        }
        if l.last().text_at("email"@) == Some(t) {
            assert(b[b.len() - 1] == t);
        }
        if b.contains(t) && l.last().text_at("email"@) != Some(t) {
            let k = choose|k: int| 0 <= k < b.len() && b[k] == t;
            assert(a[k] == t);
        }
        if exists|i: int| 0 <= i < l.len() && (#[trigger] l[i]).text_at("email"@) == Some(t) {
            let i = choose|i: int|
                0 <= i < l.len() && (#[trigger] l[i]).text_at("email"@) == Some(t);
            if i < rest.len() {
                assert(rest[i].text_at("email"@) == Some(t));
            }
        }
    }
}

/// A message at the server is recognized by its message ids, its senders, its
/// recipients, its subject and the moment of its sending, each as the server
/// gives it.
pub proof fn messages_are_recognized_by_their_heads(v: Val, t: Seq<char>)
    ensures
        email::index_of(v).mids.contains(t) <==> lists_text(v, "messageId"@, t),
        email::index_of(v).from.contains(t) <==> lists_address(v, "from"@, t),
        email::index_of(v).to.contains(t) <==> lists_address(v, "to"@, t),
        v.text_at("subject"@) is Some ==> email::index_of(v).subject == v.text_at("subject"@)->0,
        v.text_at("subject"@) is None ==> email::index_of(v).subject == ""@,
        v.text_at("sentAt"@) is Some ==> email::index_of(v).sent_at == v.text_at("sentAt"@)->0,
        v.text_at("sentAt"@) is None ==> email::index_of(v).sent_at == ""@,
{
    if let Some(l) = v.list_at("messageId"@) {
        lemma_texts(l, t);
    }
    if let Some(l) = v.list_at("from"@) {
        lemma_addresses(l, t);
    }
    if let Some(l) = v.list_at("to"@) {
        lemma_addresses(l, t);
    }
}

/// More is asked about exactly the messages without a message id.
pub proof fn more_is_asked_where_no_message_id_is(targets: Seq<Val>, id: Seq<char>)
    ensures
        email::ids_to_ask(targets).contains(id) <==> exists|i: int|
            0 <= i < targets.len() && (#[trigger] targets[i]).text_at("id"@) == Some(id) && (
            forall|t: Seq<char>| !lists_text(targets[i], "messageId"@, t)),
    decreases targets.len(),
{
    if targets.len() > 0 {
        let rest = targets.drop_last();
        more_is_asked_where_no_message_id_is(rest, id);
        let last = targets.last();
        let a = email::ids_to_ask(rest);
        let b = email::ids_to_ask(targets);
        let v = email::texts_at(last, "messageId"@);
        assert(targets[targets.len() - 1] == last);
        assert(forall|i: int| 0 <= i < rest.len() ==> #[trigger] rest[i] == targets[i]);
        if v.len() == 0 {
            assert forall|t: Seq<char>| !lists_text(last, "messageId"@, t) by {
                if let Some(l) = last.list_at("messageId"@) {
                    lemma_texts(l, t);
                }
            }
        } else {
            let l = last.list_at("messageId"@)->0;
            lemma_texts(l, v[0]);
            assert(v.contains(v[0]));
            assert(lists_text(last, "messageId"@, v[0]));
        }
        if a.contains(id) {
            let k = choose|k: int| 0 <= k < a.len() && a[k] == id;
            assert(b[k] == id);
            let i = choose|i: int|
                0 <= i < rest.len() && (#[trigger] rest[i]).text_at("id"@) == Some(id) && (
                forall|t: Seq<char>| !lists_text(rest[i], "messageId"@, t));
            assert(targets[i].text_at("id"@) == Some(id));
        }
        if last.text_at("id"@) == Some(id) && v.len() == 0 {
            assert(b[b.len() - 1] == id);
        }
        if b.contains(id) && !a.contains(id) {
            let k = choose|k: int| 0 <= k < b.len() && b[k] == id;
            if k < a.len() {
                assert(a[k] == id);
            }
        }
        if exists|i: int|
            0 <= i < targets.len() && (#[trigger] targets[i]).text_at("id"@) == Some(id) && (
            forall|t: Seq<char>| !lists_text(targets[i], "messageId"@, t)) {
            let i = choose|i: int|
                0 <= i < targets.len() && (#[trigger] targets[i]).text_at("id"@) == Some(id) && (
                forall|t: Seq<char>| !lists_text(targets[i], "messageId"@, t));
            if i < rest.len() {
                assert(rest[i].text_at("id"@) == Some(id));
            }
        }
    }
}

} // verus!
