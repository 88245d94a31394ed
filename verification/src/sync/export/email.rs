//! Messages are imported at a server that does not have them yet.

use crate::jmap::error;
use crate::jmap::error::JmapError;
use crate::json;
use crate::json::{Json, Members, Val};
use crate::sync::import_jmap::mapping::EmailRow;
use crate::sync::TypeCounts;
use crate::text;
use vstd::prelude::*;

verus! {

/// What a message is recognized by.
#[derive(Debug)]
pub struct IndexParts {
    pub mids: Vec<String>,
    pub from: Vec<String>,
    pub subject: String,
    pub sent_at: String,
    pub to: Vec<String>,
}

/// What a message is recognized by, as texts.
pub struct PartsVal {
    pub mids: Seq<Seq<char>>,
    pub from: Seq<Seq<char>>,
    pub subject: Seq<char>,
    pub sent_at: Seq<char>,
    pub to: Seq<Seq<char>>,
}

impl View for IndexParts {
    type V = PartsVal;

    open spec fn view(&self) -> PartsVal {
        PartsVal {
            mids: text::texts(self.mids@),
            from: text::texts(self.from@),
            subject: self.subject@,
            sent_at: self.sent_at@,
            to: text::texts(self.to@),
        }
    }
}

/// The addresses of a list.
pub open spec fn addresses(list: Seq<Val>) -> Seq<Seq<char>>
    decreases list.len(),
{
    if list.len() == 0 {
        Seq::empty()
    } else {
        match list.last().text_at("email"@) {
            Some(t) => addresses(list.drop_last()).push(t),
            None => addresses(list.drop_last()),
        }
    }
}

/// The texts of a list.
pub open spec fn texts_in(list: Seq<Val>) -> Seq<Seq<char>>
    decreases list.len(),
{
    if list.len() == 0 {
        Seq::empty()
    } else {
        match list.last().as_text() {
            Some(t) => texts_in(list.drop_last()).push(t),
            None => texts_in(list.drop_last()),
        }
    }
}

/// The addresses of a member.
pub open spec fn addresses_at(v: Val, key: Seq<char>) -> Seq<Seq<char>> {
    match v.list_at(key) {
        Some(l) => addresses(l),
        None => Seq::empty(),
    }
}

/// The texts of a member.
pub open spec fn texts_at(v: Val, key: Seq<char>) -> Seq<Seq<char>> {
    match v.list_at(key) {
        Some(l) => texts_in(l),
        None => Seq::empty(),
    }
}

/// A text member, empty where there is none.
pub open spec fn text_or_empty(v: Val, key: Seq<char>) -> Seq<char> {
    match v.text_at(key) {
        Some(t) => t,
        None => ""@,
    }
}

/// What a message is recognized by, as a server describes it.
pub open spec fn index_of(v: Val) -> PartsVal {
    PartsVal {
        mids: texts_at(v, "messageId"@),
        from: addresses_at(v, "from"@),
        subject: text_or_empty(v, "subject"@),
        sent_at: text_or_empty(v, "sentAt"@),
        to: addresses_at(v, "to"@),
    }
}

fn read_addresses(v: &Json, key: &str) -> (r: Vec<String>)
    ensures
        text::texts(r@) == addresses_at(v@, key@),
{
    let mut r: Vec<String> = Vec::new();
    assert(text::texts(r@) =~= Seq::empty());
    let list: &Vec<Json> = match v.list_at(key) {
        Some(l) => l,
        None => {
            return r;
        },
    };
    let ghost all = json::list_view(list@);
    let mut i: usize = 0;
    assert(all.take(0) =~= Seq::empty());
    while i < list.len()
        invariant
            i <= list@.len(),
            all == json::list_view(list@),
            all.len() == list@.len(),
            text::texts(r@) == addresses(all.take(i as int)),
        decreases list@.len() - i,
    {
        assert(all.take(i as int + 1).drop_last() =~= all.take(i as int));
        assert(all.take(i as int + 1).last() == list@[i as int]@);
        if let Some(t) = list[i].text_at("email") {
            let ghost before = text::texts(r@);
            r.push(t.to_owned());
            assert(text::texts(r@) =~= before.push(t@));
        }
        i = i + 1;
    }
    assert(all.take(i as int) =~= all);
    r
}

fn read_texts(v: &Json, key: &str) -> (r: Vec<String>)
    ensures
        text::texts(r@) == texts_at(v@, key@),
{
    let mut r: Vec<String> = Vec::new();
    assert(text::texts(r@) =~= Seq::empty());
    let list: &Vec<Json> = match v.list_at(key) {
        Some(l) => l,
        None => {
            return r;
        },
    };
    let ghost all = json::list_view(list@);
    let mut i: usize = 0;
    assert(all.take(0) =~= Seq::empty());
    while i < list.len()
        invariant
            i <= list@.len(),
            all == json::list_view(list@),
            all.len() == list@.len(),
            text::texts(r@) == texts_in(all.take(i as int)),
        decreases list@.len() - i,
    {
        assert(all.take(i as int + 1).drop_last() =~= all.take(i as int));
        assert(all.take(i as int + 1).last() == list@[i as int]@);
        if let Some(t) = list[i].as_text() {
            let ghost before = text::texts(r@);
            r.push(t.to_owned());
            assert(text::texts(r@) =~= before.push(t@));
        }
        i = i + 1;
    }
    assert(all.take(i as int) =~= all);
    r
}

fn text_at_or_empty(v: &Json, key: &str) -> (r: String)
    ensures
        r@ == text_or_empty(v@, key@),
{
    match v.text_at(key) {
        Some(t) => t.to_owned(),
        None => "".to_owned(),
    }
}

/// Reads what a message is recognized by, as a server describes it.
pub fn server_index(v: &Json) -> (r: IndexParts)
    ensures
        r@ == index_of(v@),
{
    IndexParts {
        mids: read_texts(v, "messageId"),
        from: read_addresses(v, "from"),
        subject: text_at_or_empty(v, "subject"),
        sent_at: text_at_or_empty(v, "sentAt"),
        to: read_addresses(v, "to"),
    }
}

/// Reads what the messages of a server are recognized by.
pub fn server_indices(targets: &Vec<Json>) -> (r: Vec<IndexParts>)
    ensures
        r@.len() == targets@.len(),
        forall|i: int| 0 <= i < r@.len() ==> (#[trigger] r@[i])@ == index_of(targets@[i]@),
{
    let mut r: Vec<IndexParts> = Vec::new();
    let mut i: usize = 0;
    while i < targets.len()
        invariant
            i <= targets@.len(),
            r@.len() == i,
            forall|k: int| 0 <= k < i ==> (#[trigger] r@[k])@ == index_of(targets@[k]@),
        decreases targets@.len() - i,
    {
        r.push(server_index(&targets[i]));
        i = i + 1;
    }
    r
}

/// The ids of the messages without a message id, about which more has to be
/// asked.
pub open spec fn ids_to_ask(targets: Seq<Val>) -> Seq<Seq<char>>
    decreases targets.len(),
{
    if targets.len() == 0 {
        Seq::empty()
    } else {
        let before = ids_to_ask(targets.drop_last());
        match targets.last().text_at("id"@) {
            Some(id) => if texts_at(targets.last(), "messageId"@).len() == 0 {
                before.push(id)
            } else {
                before
            },
            None => before,
        }
    }
}

/// Finds the messages about which more has to be asked.
pub fn fallback_ids(targets: &Vec<Json>) -> (r: Vec<String>)
    ensures
        text::texts(r@) == ids_to_ask(json::list_view(targets@)),
{
    let ghost all = json::list_view(targets@);
    let mut r: Vec<String> = Vec::new();
    let mut i: usize = 0;
    assert(all.take(0) =~= Seq::empty());
    assert(text::texts(r@) =~= Seq::empty());
    while i < targets.len()
        invariant
            i <= targets@.len(),
            all == json::list_view(targets@),
            all.len() == targets@.len(),
            text::texts(r@) == ids_to_ask(all.take(i as int)),
        decreases targets@.len() - i,
    {
        assert(all.take(i as int + 1).drop_last() =~= all.take(i as int));
        assert(all.take(i as int + 1).last() == targets@[i as int]@);
        let mids: Vec<String> = read_texts(&targets[i], "messageId");
        assert(text::texts(mids@).len() == mids@.len());
        if let Some(id) = targets[i].text_at("id") {
            if mids.len() == 0 {
                let ghost before = text::texts(r@);
                r.push(id.to_owned());
                assert(text::texts(r@) =~= before.push(id@));
            }
        }
        i = i + 1;
    }
    assert(all.take(i as int) =~= all);
    r
}

/// The last of several objects with an id.
pub open spec fn object_with_id(list: Seq<Val>, id: Seq<char>) -> Option<Val>
    decreases list.len(),
{
    if list.len() == 0 {
        None
    } else if list.last().text_at("id"@) == Some(id) {
        Some(list.last())
    } else {
        object_with_id(list.drop_last(), id)
    }
}

fn find_object<'a>(list: &'a Vec<Json>, id: &str) -> (r: Option<&'a Json>)
    ensures
        json::ref_view(r) == object_with_id(json::list_view(list@), id@),
{
    let ghost all = json::list_view(list@);
    let mut n: usize = list.len();
    assert(all.take(n as int) =~= all);
    while n > 0
        invariant
            n <= list@.len(),
            all == json::list_view(list@),
            all.len() == list@.len(),
            object_with_id(all.take(n as int), id@) == object_with_id(all, id@),
        decreases n,
    {
        assert(all.take(n as int).drop_last() =~= all.take(n - 1));
        assert(all.take(n as int).last() == list@[n - 1]@);
        if let Some(t) = list[n - 1].text_at("id") {
            if text::same(t, id) {
                return Some(&list[n - 1]);
            }
        }
        n = n - 1;
    }
    None
}

/// What a message is recognized by, once more was asked.
pub open spec fn refined_index(target: Val, known: PartsVal, asked: Seq<Val>) -> PartsVal {
    match target.text_at("id"@) {
        Some(id) => match object_with_id(asked, id) {
            Some(full) => index_of(full),
            None => known,
        },
        None => known,
    }
}

/// Takes over what was learned about messages by asking more.
pub fn refine_indices(targets: &Vec<Json>, known: Vec<IndexParts>, asked: &Vec<Json>) -> (r: Vec<
    IndexParts,
>)
    requires
        known@.len() == targets@.len(),
    ensures
        r@.len() == targets@.len(),
        forall|i: int|
            0 <= i < r@.len() ==> (#[trigger] r@[i])@ == refined_index(
                targets@[i]@,
                known@[i]@,
                json::list_view(asked@),
            ),
{
    let mut r: Vec<IndexParts> = known;
    let mut i: usize = 0;
    while i < targets.len()
        invariant
            i <= targets@.len(),
            r@.len() == targets@.len(),
            known@.len() == targets@.len(),
            forall|k: int|
                0 <= k < i ==> (#[trigger] r@[k])@ == refined_index(
                    targets@[k]@,
                    known@[k]@,
                    json::list_view(asked@),
                ),
            forall|k: int| i <= k < r@.len() ==> #[trigger] r@[k] == known@[k],
        decreases targets@.len() - i,
    {
        if let Some(id) = targets[i].text_at("id") {
            if let Some(full) = find_object(asked, id) {
                r.set(i, server_index(full));
            }
        }
        i = i + 1;
    }
    r
}

/// The keys that are not among others, by where they stand.
pub open spec fn missing_of(keys: Seq<Seq<char>>, others: Seq<Seq<char>>) -> Seq<int>
    decreases keys.len(),
{
    if keys.len() == 0 {
        Seq::empty()
    } else if others.contains(keys.last()) {
        missing_of(keys.drop_last(), others)
    } else {
        missing_of(keys.drop_last(), others).push(keys.len() - 1)
    }
}

/// Finds the local messages that the server does not have, and counts those
/// that it has.
pub fn missing_messages(
    local_keys: &Vec<String>,
    target_keys: &Vec<String>,
    counts: &mut TypeCounts,
) -> (r: Vec<usize>)
    requires
        old(counts).skipped + local_keys@.len() <= u64::MAX,
    ensures
        r@.len() + (final(counts).skipped - old(counts).skipped) == local_keys@.len(),
        *final(counts) == (TypeCounts { skipped: final(counts).skipped, ..*old(counts) }),
        r@.map_values(|i: usize| i as int) == missing_of(
            text::texts(local_keys@),
            text::texts(target_keys@),
        ),
{
    let ghost all = text::texts(local_keys@);
    let ghost others = text::texts(target_keys@);
    let mut r: Vec<usize> = Vec::new();
    let mut i: usize = 0;
    assert(all.take(0) =~= Seq::empty());
    assert(r@.map_values(|i: usize| i as int) =~= Seq::empty());
    while i < local_keys.len()
        invariant
            i <= local_keys@.len(),
            all == text::texts(local_keys@),
            others == text::texts(target_keys@),
            old(counts).skipped + local_keys@.len() <= u64::MAX,
            r@.len() <= i,
            counts.skipped == old(counts).skipped + i - r@.len(),
            *counts == (TypeCounts { skipped: counts.skipped, ..*old(counts) }),
            r@.map_values(|i: usize| i as int) == missing_of(all.take(i as int), others),
        decreases local_keys@.len() - i,
    {
        assert(all.take(i as int + 1).drop_last() =~= all.take(i as int));
        assert(all.take(i as int + 1).last() == local_keys@[i as int]@);
        if text::has_text(target_keys, local_keys[i].as_str()) {
            counts.skipped = counts.skipped + 1;
        } else {
            let ghost before = r@;
            r.push(i);
            assert(r@.map_values(|i: usize| i as int) =~= before.map_values(
                |i: usize| i as int,
            ).push(i as int));
        }
        i = i + 1;
    }
    assert(all.take(i as int) =~= all);
    r
}

proof fn lemma_missing(keys: Seq<Seq<char>>, others: Seq<Seq<char>>)
    ensures
        missing_of(keys, others).len() <= keys.len(),
        forall|j: int|
            0 <= j < missing_of(keys, others).len() ==> 0 <= #[trigger] missing_of(keys, others)[j]
                < keys.len() && !others.contains(keys[missing_of(keys, others)[j]]),
        forall|a: int, b: int|
            0 <= a < b < missing_of(keys, others).len() ==> #[trigger] missing_of(keys, others)[a]
                < #[trigger] missing_of(keys, others)[b],
        forall|i: int|
            0 <= i < keys.len() && !others.contains(#[trigger] keys[i]) ==> missing_of(
                keys,
                others,
            ).contains(i),
    decreases keys.len(),
{
    if keys.len() > 0 {
        let d = keys.drop_last();
        lemma_missing(d, others);
        let m = missing_of(d, others);
        let all = missing_of(keys, others);
        assert forall|j: int| 0 <= j < all.len() implies 0 <= #[trigger] all[j] < keys.len()
            && !others.contains(keys[all[j]]) by {
            if j < m.len() {
                assert(all[j] == m[j]);
                assert(d[m[j]] == keys[m[j]]);
            }
        }
        assert forall|i: int|
            0 <= i < keys.len() && !others.contains(#[trigger] keys[i]) implies all.contains(i) by {
            if i < d.len() {
                assert(d[i] == keys[i]);
                assert(m.contains(i));
                let j = choose|j: int| 0 <= j < m.len() && m[j] == i;
                assert(all[j] == i);
            } else {
                assert(all[all.len() - 1] == i);
            }
        }
        assert forall|a: int, b: int| 0 <= a < b < all.len() implies #[trigger] all[a]
            < #[trigger] all[b] by {
            assert(all[a] == m[a]);
            if b < m.len() {
                assert(all[b] == m[b]);
            }
        }
    }
}

/// A message is exported exactly when its key is not among those of the
/// server, and no message twice.
pub proof fn exactly_the_missing_messages_are_exported(
    keys: Seq<Seq<char>>,
    others: Seq<Seq<char>>,
    i: int,
)
    requires
        0 <= i < keys.len(),
    ensures
        missing_of(keys, others).contains(i) <==> !others.contains(keys[i]),
        missing_of(keys, others).no_duplicates(),
{
    lemma_missing(keys, others);
    let all = missing_of(keys, others);
    if all.contains(i) {
        let j = choose|j: int| 0 <= j < all.len() && all[j] == i;
        assert(!others.contains(keys[all[j]]));
    }
}

/// A mailbox of the archive and the one at the server that stands for it.
#[derive(Debug)]
pub struct TargetId {
    pub local_id: i64,
    pub target_id: String,
}

/// The object at the server that stands for a local one.
pub open spec fn target_of(ids: Seq<TargetId>, local: i64) -> Option<Seq<char>>
    decreases ids.len(),
{
    if ids.len() == 0 {
        None
    } else if ids.last().local_id == local {
        Some(ids.last().target_id@)
    } else {
        target_of(ids.drop_last(), local)
    }
}

/// Finds the object at the server that stands for a local one.
pub fn find_target(ids: &Vec<TargetId>, local: i64) -> (r: Option<String>)
    ensures
        json::text_view(r) == target_of(ids@, local),
{
    let mut n: usize = ids.len();
    assert(ids@.take(n as int) =~= ids@);
    while n > 0
        invariant
            n <= ids@.len(),
            target_of(ids@.take(n as int), local) == target_of(ids@, local),
        decreases n,
    {
        assert(ids@.take(n as int).drop_last() =~= ids@.take(n - 1));
        if ids[n - 1].local_id == local {
            return Some(ids[n - 1].target_id.clone());
        }
        n = n - 1;
    }
    None
}

/// The mailboxes at the server that a message goes to, unless one is not
/// there.
pub open spec fn mailbox_members(locals: Seq<i64>, ids: Seq<TargetId>) -> Option<Members>
    decreases locals.len(),
{
    if locals.len() == 0 {
        Some(Seq::empty())
    } else {
        match (mailbox_members(locals.drop_last(), ids), target_of(ids, locals.last())) {
            (Some(m), Some(t)) => Some(json::with_member(m, t, Val::Bool(true))),
            _ => None,
        }
    }
}

proof fn lemma_mailbox_missing(locals: Seq<i64>, ids: Seq<TargetId>, i: int)
    requires
        0 <= i <= locals.len(),
        mailbox_members(locals.take(i), ids) is None,
    ensures
        mailbox_members(locals, ids) is None,
    decreases locals.len() - i,
{
    if i < locals.len() {
        assert(locals.take(i + 1).drop_last() =~= locals.take(i));
        lemma_mailbox_missing(locals, ids, i + 1);
    } else {
        assert(locals.take(i) =~= locals);
    }
}

/// Builds the set of mailboxes that a message goes to.
pub fn build_mailbox_ids(locals: &Vec<i64>, ids: &Vec<TargetId>) -> (r: Option<
    Vec<(String, Json)>,
>)
    ensures
        match r {
            Some(e) => mailbox_members(locals@, ids@) == Some(json::members_view(e@)),
            None => mailbox_members(locals@, ids@) is None,
        },
{
    let mut e: Vec<(String, Json)> = Vec::new();
    let mut i: usize = 0;
    assert(locals@.take(0) =~= Seq::empty());
    assert(json::members_view(e@) =~= Seq::empty());
    while i < locals.len()
        invariant
            i <= locals@.len(),
            mailbox_members(locals@.take(i as int), ids@) == Some(json::members_view(e@)),
        decreases locals@.len() - i,
    {
        assert(locals@.take(i as int + 1).drop_last() =~= locals@.take(i as int));
        match find_target(ids, locals[i]) {
            Some(t) => {
                json::set_member(&mut e, t.as_str(), Json::Bool(true));
            },
            None => {
                proof {
                    lemma_mailbox_missing(locals@, ids@, i as int + 1);
                }
                return None;
            },
        }
        i = i + 1;
    }
    assert(locals@.take(i as int) =~= locals@);
    Some(e)
}

/// The keywords of a message, as a set.
pub open spec fn keyword_members(keywords: Seq<Seq<char>>) -> Members
    decreases keywords.len(),
{
    if keywords.len() == 0 {
        Seq::empty()
    } else {
        json::with_member(keyword_members(keywords.drop_last()), keywords.last(), Val::Bool(true))
    }
}

/// Builds the set of a message's keywords.
pub fn build_keywords(keywords: &Vec<String>) -> (r: Vec<(String, Json)>)
    ensures
        json::members_view(r@) == keyword_members(text::texts(keywords@)),
{
    let ghost all = text::texts(keywords@);
    let mut e: Vec<(String, Json)> = Vec::new();
    let mut i: usize = 0;
    assert(all.take(0) =~= Seq::empty());
    assert(json::members_view(e@) =~= Seq::empty());
    while i < keywords.len()
        invariant
            i <= keywords@.len(),
            all == text::texts(keywords@),
            json::members_view(e@) == keyword_members(all.take(i as int)),
        decreases keywords@.len() - i,
    {
        assert(all.take(i as int + 1).drop_last() =~= all.take(i as int));
        assert(all.take(i as int + 1).last() == keywords@[i as int]@);
        json::set_member(&mut e, keywords[i].as_str(), Json::Bool(true));
        i = i + 1;
    }
    assert(all.take(i as int) =~= all);
    e
}

/// How a message is named in a warning.
pub open spec fn hint_text(message_id: Option<Seq<char>>, size: Option<Seq<char>>) -> Seq<char> {
    (match message_id {
        Some(mid) => "message-id <"@ + mid + ">"@,
        None => "no message-id"@,
    }) + (match size {
        Some(t) => ", "@ + t,
        None => ""@,
    })
}

/// Names a message in a warning.
pub fn blob_hint(message_id: Option<&str>, size: Option<&str>) -> (r: String)
    ensures
        r@ == hint_text(json::str_view(message_id), json::str_view(size)),
{
    let mut s: String = match message_id {
        Some(mid) => {
            let head: String = text::joined("message-id <", mid);
            text::joined(head.as_str(), ">")
        },
        None => "no message-id".to_owned(),
    };
    match size {
        Some(t) => {
            let tail: String = text::joined(", ", t);
            s.append(tail.as_str());
        },
        None => {
            s.append("");
        },
    }
    s
}

/// What is added to a warning about a message that is too large.
pub open spec fn size_note_of(e: JmapError) -> Seq<char> {
    if e is RequestTooLarge || e is SingleObjectTooLarge {
        "; exceeds the target server size limit, so this message is skipped and re-running will not migrate it"@
    } else {
        ""@
    }
}

/// Adds to a warning about a message that is too large.
pub fn size_note(e: &JmapError) -> (r: &'static str)
    ensures
        r@ == size_note_of(*e),
{
    match e {
        JmapError::RequestTooLarge =>
            "; exceeds the target server size limit, so this message is skipped and re-running will not migrate it",
        JmapError::SingleObjectTooLarge(_) =>
            "; exceeds the target server size limit, so this message is skipped and re-running will not migrate it",
        _ => "",
    }
}

/// What a message is imported from.
pub open spec fn item_members(
    blob: Seq<char>,
    mailboxes: Members,
    keywords: Members,
    received_at: Seq<char>,
) -> Members {
    seq![
        ("blobId"@, Val::Text(blob)),
        ("mailboxIds"@, Val::Object(mailboxes)),
        ("keywords"@, Val::Object(keywords)),
        ("receivedAt"@, Val::Text(received_at)),
    ]
}

/// Describes what a message is imported from.
pub fn import_item(
    blob: &str,
    mailboxes: Vec<(String, Json)>,
    keywords: Vec<(String, Json)>,
    received_at: &str,
) -> (r: Json)
    ensures
        r@ == Val::Object(
            item_members(
                blob@,
                json::members_view(mailboxes@),
                json::members_view(keywords@),
                received_at@,
            ),
        ),
{
    let ghost m = json::members_view(mailboxes@);
    let ghost k = json::members_view(keywords@);
    let mut e: Vec<(String, Json)> = Vec::new();
    json::push_member(&mut e, "blobId", json::text_json(blob));
    json::push_member(&mut e, "mailboxIds", Json::Object(mailboxes));
    json::push_member(&mut e, "keywords", Json::Object(keywords));
    json::push_member(&mut e, "receivedAt", json::text_json(received_at));
    assert(json::members_view(e@) =~= item_members(blob@, m, k, received_at@));
    Json::Object(e)
}

/// What an `Email/import` call came to.
#[derive(Debug)]
pub enum SingleImport {
    Created,
    Skipped,
    /// The detail is what the server says of it, as it says it.
    NotCreated { error_type: String, detail: String },
}

/// The entry for a message within a member of an answer.
pub open spec fn entry_at(args: Val, member: Seq<char>, cid: Seq<char>) -> Option<Val> {
    match args.get(member) {
        Some(Val::Object(e)) => json::lookup(e, cid),
        _ => None,
    }
}

/// What is said where an answer says nothing of a message.
pub open spec fn neither(cid: Seq<char>) -> Seq<char> {
    "Email/import returned neither created nor notCreated for "@ + cid
}

/// Whether an answer to an `Email/import` call means this.
pub open spec fn is_import_result(args: Val, cid: Seq<char>, r: SingleImport) -> bool {
    match entry_at(args, "notCreated"@, cid) {
        Some(e) => if text_or_empty(e, "type"@) == "alreadyExists"@ {
            r is Skipped
        } else {
            &&& r matches SingleImport::NotCreated { error_type, detail }
            &&& error_type@ == text_or_empty(e, "type"@)
            &&& detail@ == json::written(e)
        },
        None => if (args.get("created"@) matches Some(Val::Object(c)) && c.len() > 0) {
            r is Created
        } else {
            &&& r matches SingleImport::NotCreated { error_type, detail }
            &&& error_type@ == ""@
            &&& detail@ == neither(cid)
        },
    }
}

/// Reads the answer to an `Email/import` call.
pub fn interpret_import(args: &Json, cid: &str) -> (r: SingleImport)
    ensures
        is_import_result(args@, cid@, r),
{
    if let Some(Json::Object(e)) = args.get("notCreated") {
        let i: usize = json::find_member(e, cid);
        if i < e.len() {
            let error_type: String = text_at_or_empty(&e[i].1, "type");
            if text::same(error_type.as_str(), "alreadyExists") {
                return SingleImport::Skipped;
            }
            return SingleImport::NotCreated { error_type, detail: json::write(&e[i].1) };
        }
    }
    if let Some(Json::Object(c)) = args.get("created") {
        assert(json::members_view(c@).len() == c@.len());
        if c.len() > 0 {
            return SingleImport::Created;
        }
    }
    SingleImport::NotCreated { error_type: "".to_owned(), detail: neither_text(cid) }
}

fn neither_text(cid: &str) -> (r: String)
    ensures
        r@ == neither(cid@),
{
    text::joined("Email/import returned neither created nor notCreated for ", cid)
}

/// What became of a message.
#[derive(Clone, Copy, PartialEq, Eq, Structural, Debug)]
pub enum Tally {
    Created,
    Skipped,
    Failed,
}

/// How the export of a message goes on.
#[derive(Debug)]
pub enum Step {
    /// The blob is uploaded; the second time, after the server lost it, it is
    /// no longer taken to be there.
    Upload { again: bool },
    /// The message is imported.
    Send(Json),
    /// The export is over. The warning is for the user.
    Done { tally: Tally, warning: Option<String> },
}

/// A message on its way to the server.
#[derive(Debug)]
pub struct EmailExport {
    pub cid: String,
    pub hint: String,
    pub mailboxes: Vec<i64>,
    pub keywords: Vec<String>,
    pub received_at: String,
    /// Whether the server lost the blob once.
    pub again: bool,
}

/// The id of a message within a request.
pub fn client_id(local_id: i64) -> (r: String)
    ensures
        r@ == "e"@ + text::signed_dec(local_id as int),
{
    text::joined("e", text::signed_decimal(local_id).as_str())
}

/// Whether a step ends an export with a failure.
pub open spec fn fails_with(s: Step, warning: Seq<char>) -> bool {
    &&& s matches Step::Done { tally, warning: w }
    &&& tally == Tally::Failed
    &&& json::text_view(w) == Some(warning)
}

/// Whether a step ends an export without a failure.
pub open spec fn ends_as(s: Step, tally: Tally) -> bool {
    s matches Step::Done { tally: t, warning } && t == tally && warning is None
}

/// The beginning of a warning about a message.
pub open spec fn warning_head(x: EmailExport) -> Seq<char> {
    "Email/import "@ + x.cid@ + " ("@ + x.hint@ + ")"@
}

/// The message as it is sent.
pub open spec fn sent_item(x: EmailExport, blob: Seq<char>, mailboxes: Members) -> Val {
    Val::Object(
        item_members(
            blob,
            mailboxes,
            keyword_members(text::texts(x.keywords@)),
            x.received_at@,
        ),
    )
}

/// Whether the parts of a message that do not change are the same.
pub open spec fn same_message(a: EmailExport, b: EmailExport) -> bool {
    &&& a.cid == b.cid
    &&& a.hint == b.hint
    &&& a.mailboxes == b.mailboxes
    &&& a.keywords == b.keywords
    &&& a.received_at == b.received_at
}

impl EmailExport {
    /// A message of the archive, with how it is named in a warning.
    pub fn of_row(local_id: i64, row: EmailRow, hint: String) -> (r: EmailExport)
        ensures
            r.cid@ == "e"@ + text::signed_dec(local_id as int),
            r.hint == hint,
            r.mailboxes == row.mailbox_locals,
            r.keywords == row.keywords,
            r.received_at == row.received_at,
            !r.again,
    {
        EmailExport {
            cid: client_id(local_id),
            hint,
            mailboxes: row.mailbox_locals,
            keywords: row.keywords,
            received_at: row.received_at,
            again: false,
        }
    }

    fn head(&self) -> (r: String)
        ensures
            r@ == warning_head(*self),
    {
        let mut s: String = text::joined("Email/import ", self.cid.as_str());
        s.append(" (");
        s.append(self.hint.as_str());
        s.append(")");
        s
    }

    fn failed(&self, complaint: &str, e: &str, note: &str) -> (r: Step)
        ensures
            fails_with(r, warning_head(*self) + complaint@ + e@ + note@),
    {
        let mut s: String = self.head();
        s.append(complaint);
        s.append(e);
        s.append(note);
        Step::Done { tally: Tally::Failed, warning: Some(s) }
    }

    /// Begins: a message is only uploaded where the server has its mailboxes.
    pub fn begin(&self, ids: &Vec<TargetId>) -> (r: Step)
        ensures
            if mailbox_members(self.mailboxes@, ids@) is Some {
                r == (Step::Upload { again: false })
            } else {
                fails_with(r, warning_head(*self) + " skipped: mailbox not on target"@)
            },
    {
        match build_mailbox_ids(&self.mailboxes, ids) {
            Some(_) => Step::Upload { again: false },
            None => {
                let mut s: String = self.head();
                s.append(" skipped: mailbox not on target");
                Step::Done { tally: Tally::Failed, warning: Some(s) }
            },
        }
    }

    /// Goes on after the blob was uploaded, or was not.
    pub fn after_upload(
        &self,
        upload: Result<String, JmapError>,
        ids: &Vec<TargetId>,
        dry_run: bool,
    ) -> (r: Step)
        ensures
            match upload {
                Err(e) => fails_with(
                    r,
                    warning_head(*self) + (if self.again {
                        " blob re-upload failed: "@
                    } else {
                        " blob upload failed: "@
                    }) + error::jmap_text(e) + size_note_of(e),
                ),
                Ok(blob) => if dry_run && !self.again {
                    ends_as(r, Tally::Created)
                } else {
                    match mailbox_members(self.mailboxes@, ids@) {
                        Some(m) => r matches Step::Send(item) && item@ == sent_item(
                            *self,
                            blob@,
                            m,
                        ),
                        None => fails_with(
                            r,
                            warning_head(*self) + " skipped: mailbox not on target"@,
                        ),
                    }
                },
            },
    {
        match upload {
            Err(e) => {
                let told: String = e.message();
                let note: &'static str = size_note(&e);
                if self.again {
                    self.failed(" blob re-upload failed: ", told.as_str(), note)
                } else {
                    self.failed(" blob upload failed: ", told.as_str(), note)
                }
            },
            Ok(blob) => {
                if dry_run && !self.again {
                    return Step::Done { tally: Tally::Created, warning: None };
                }
                match build_mailbox_ids(&self.mailboxes, ids) {
                    Some(m) => Step::Send(
                        import_item(
                            blob.as_str(),
                            m,
                            build_keywords(&self.keywords),
                            self.received_at.as_str(),
                        ),
                    ),
                    None => {
                        let mut s: String = self.head();
                        s.append(" skipped: mailbox not on target");
                        Step::Done { tally: Tally::Failed, warning: Some(s) }
                    },
                }
            },
        }
    }

    /// Goes on after the message was sent. A server that lost the blob gets it
    /// once more.
    pub fn after_send(&mut self, sent: Result<SingleImport, JmapError>) -> (r: Step)
        ensures
            same_message(*old(self), *final(self)),
            match sent {
                Ok(SingleImport::Created) => ends_as(r, Tally::Created) && final(self).again == old(self).again,
                Ok(SingleImport::Skipped) => ends_as(r, Tally::Skipped) && final(self).again == old(self).again,
                Ok(SingleImport::NotCreated { error_type, detail }) => if error_type@ == "blobNotFound"@
                    && !old(self).again {
                    r == (Step::Upload { again: true }) && final(self).again
                } else {
                    &&& final(self).again == old(self).again
                    &&& fails_with(
                        r,
                        warning_head(*old(self)) + (if old(self).again {
                            " failed after blob re-upload: "@
                        } else {
                            " failed: "@
                        }) + detail@,
                    )
                },
                Err(e) => {
                    &&& final(self).again == old(self).again
                    &&& fails_with(
                        r,
                        warning_head(*old(self)) + (if old(self).again {
                            " send failed after blob re-upload: "@
                        } else {
                            " send failed: "@
                        }) + error::jmap_text(e) + size_note_of(e),
                    )
                },
            },
    {
        match sent {
            Ok(SingleImport::Created) => Step::Done { tally: Tally::Created, warning: None },
            Ok(SingleImport::Skipped) => Step::Done { tally: Tally::Skipped, warning: None },
            Ok(SingleImport::NotCreated { error_type, detail }) => {
                if text::same(error_type.as_str(), "blobNotFound") && !self.again {
                    self.again = true;
                    return Step::Upload { again: true };
                }
                let mut s: String = self.head();
                if self.again {
                    s.append(" failed after blob re-upload: ");
                } else {
                    s.append(" failed: ");
                }
                s.append(detail.as_str());
                Step::Done { tally: Tally::Failed, warning: Some(s) }
            },
            Err(e) => {
                let told: String = e.message();
                let note: &'static str = size_note(&e);
                if self.again {
                    self.failed(" send failed after blob re-upload: ", told.as_str(), note)
                } else {
                    self.failed(" send failed: ", told.as_str(), note)
                }
            },
        }
    }
}

/// Counts what became of a message.
pub fn count_tally(counts: &mut TypeCounts, tally: Tally)
    requires
        old(counts).created < u64::MAX,
        old(counts).skipped < u64::MAX,
        old(counts).failed < u64::MAX,
    ensures
        *final(counts) == (match tally {
            Tally::Created => TypeCounts {
                created: (old(counts).created + 1) as u64,
                ..*old(counts)
            },
            Tally::Skipped => TypeCounts {
                skipped: (old(counts).skipped + 1) as u64,
                ..*old(counts)
            },
            Tally::Failed => TypeCounts {
                failed: (old(counts).failed + 1) as u64,
                ..*old(counts)
            },
        }),
{
    match tally {
        Tally::Created => {
            counts.created = counts.created + 1;
        },
        Tally::Skipped => {
            counts.skipped = counts.skipped + 1;
        },
        Tally::Failed => {
            counts.failed = counts.failed + 1;
        },
    }
}

} // verus!
