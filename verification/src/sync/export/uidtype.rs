//! Contact cards and calendar events are created where the server has none
//! with their uid.

use crate::error;
use crate::error::Error;
use crate::jmap::blob;
use crate::jmap::blob::{BlobBytes, InlineShape};
use crate::jmap::error as jmap_error;
use crate::jmap::error::JmapError;
use crate::json;
use crate::json::{Json, Members, Val};
use crate::sync::import_jmap::cards;
use crate::sync::import_jmap::mapping;
use crate::sync::import_jmap::mapping::TargetResolver;
use crate::sync::TypeCounts;
use crate::text;
use crate::types;
use crate::types::ObjectType;
use vstd::prelude::*;

verus! {

/// An object of the archive and its uid.
#[derive(Debug)]
pub struct LocalObject {
    pub local_id: i64,
    pub uid: String,
}

/// The uid in the stored text of an event: none where there is none, or where
/// the text is no JSON.
pub open spec fn uid_in(data: Seq<char>) -> Seq<char> {
    match json::json_of(vstd::utf8::encode_utf8(data)) {
        Ok(v) => match v.text_at("uid"@) {
            Some(t) => t,
            None => ""@,
        },
        Err(_) => ""@,
    }
}

/// Reads the uid in the stored text of an event.
pub fn stored_uid(data: &str) -> (r: String)
    ensures
        r@ == uid_in(data@),
{
    match json::parse(data.as_bytes()) {
        Ok(v) => match v.text_at("uid") {
            Some(t) => t.to_owned(),
            None => "".to_owned(),
        },
        Err(_) => "".to_owned(),
    }
}

/// Reads an object of the archive from its number and a column: that of the uid
/// for a contact card, that of the stored text for an event.
pub fn local_object(ty: ObjectType, local_id: i64, column: &str) -> (r: LocalObject)
    ensures
        r.local_id == local_id,
        r.uid@ == (if ty == ObjectType::ContactCard {
            column@
        } else {
            uid_in(column@)
        }),
{
    let uid: String = if ty == ObjectType::ContactCard {
        column.to_owned()
    } else {
        stored_uid(column)
    };
    LocalObject { local_id, uid }
}

/// The first object at the server with a uid, among those that have an id.
pub open spec fn target_with_uid(targets: Seq<Val>, uid: Seq<char>) -> Option<Seq<char>>
    decreases targets.len(),
{
    if targets.len() == 0 {
        None
    } else if targets[0].text_at("uid"@) == Some(uid) && targets[0].text_at("id"@) is Some {
        targets[0].text_at("id"@)
    } else {
        target_with_uid(targets.skip(1), uid)
    }
}

/// The uid of an object at the server.
pub fn target_uid(v: &Json) -> (r: Option<String>)
    ensures
        json::text_view(r) == v@.text_at("uid"@),
{
    match v.text_at("uid") {
        Some(t) => Some(t.to_owned()),
        None => None,
    }
}

/// The id of an object at the server.
pub fn jid(v: &Json) -> (r: Option<String>)
    ensures
        json::text_view(r) == v@.text_at("id"@),
{
    match v.text_at("id") {
        Some(t) => Some(t.to_owned()),
        None => None,
    }
}

/// Finds the object at the server with a uid.
pub fn find_by_uid(targets: &Vec<Json>, uid: &str) -> (r: Option<String>)
    ensures
        json::text_view(r) == target_with_uid(json::list_view(targets@), uid@),
{
    let ghost all = json::list_view(targets@);
    let mut i: usize = 0;
    assert(all.skip(0) =~= all);
    while i < targets.len()
        invariant
            i <= targets@.len(),
            all == json::list_view(targets@),
            all.len() == targets@.len(),
            target_with_uid(all.skip(i as int), uid@) == target_with_uid(all, uid@),
        decreases targets@.len() - i,
    {
        assert(all.skip(i as int).skip(1) =~= all.skip(i as int + 1));
        assert(all.skip(i as int)[0] == targets@[i as int]@);
        if let Some(t) = targets[i].text_at("uid") {
            if text::same(t, uid) {
                if let Some(id) = targets[i].text_at("id") {
                    return Some(id.to_owned());
                }
            }
        }
        i = i + 1;
    }
    None
}

/// The object of the archive that an id within a request stands for.
pub open spec fn local_of_client_id(cid: Seq<char>) -> Option<int> {
    if text::has_prefix(cid, "c"@) {
        text::parsed_i64(cid.subrange("c"@.len() as int, cid.len() as int))
    } else {
        None
    }
}

/// Reads which object of the archive was created, and which id the server gave
/// it.
pub fn created_object(cid: &str, v: &Json) -> (r: Option<(i64, String)>)
    ensures
        match (local_of_client_id(cid@), v@.text_at("id"@)) {
            (Some(n), Some(id)) => r matches Some(p) && p.0 == n && p.1@ == id,
            _ => r is None,
        },
{
    match text::after_prefix(cid, "c") {
        Some(rest) => match (text::parse_i64(rest.as_str()), v.text_at("id")) {
            (Some(n), Some(id)) => Some((n, id.to_owned())),
            _ => None,
        },
        None => None,
    }
}

/// The id within a request under which an object is created stands for that
/// object.
pub proof fn client_ids_name_their_objects(local_id: i64)
    ensures
        local_of_client_id("c"@ + text::signed_dec(local_id as int)) == Some(local_id as int),
{
    let cid = "c"@ + text::signed_dec(local_id as int);
    assert(cid.subrange(0, "c"@.len() as int) =~= "c"@);
    assert(cid.subrange("c"@.len() as int, cid.len() as int) =~= text::signed_dec(local_id as int));
    text::decimals_read_back(local_id as int);
}

/// How an object is named in a warning.
pub open spec fn description(ty: ObjectType, local: i64, uid: Seq<char>) -> Seq<char> {
    types::name_of(ty) + " local "@ + text::signed_dec(local as int) + (if uid.len() == 0 {
        ""@
    } else {
        " (uid "@ + uid + ")"@
    })
}

/// Names an object in a warning.
pub fn describe(ty: ObjectType, local: i64, uid: &str) -> (r: String)
    ensures
        r@ == description(ty, local, uid@),
{
    let mut out: String = text::joined(ty.jmap_name(), " local ");
    out.append(text::signed_decimal(local).as_str());
    let chars: Vec<char> = text::chars_of(uid);
    if chars.len() == 0 {
        out.append("");
    } else {
        let mut tail: String = text::joined(" (uid ", uid);
        tail.append(")");
        out.append(tail.as_str());
    }
    out
}

/// Whether an object that could not be built, or not be created, ends the run
/// with its error, or leaves this warning.
pub open spec fn is_failure(
    ty: ObjectType,
    local: i64,
    uid: Seq<char>,
    while_building: bool,
    e: Error,
    r: Result<String, Error>,
) -> bool {
    if e is Partial {
        r matches Ok(w) && w@ == description(ty, local, uid) + (if while_building {
            " skipped: "@
        } else {
            " not created: "@
        }) + error::error_text(e)
    } else {
        r == Err::<String, Error>(e)
    }
}

/// Goes on after an object could not be built, or not be created: the error
/// ends the run, or it is counted and there is a warning.
pub fn after_failure(
    ty: ObjectType,
    local: i64,
    uid: &str,
    while_building: bool,
    e: Error,
    counts: &mut TypeCounts,
) -> (r: Result<String, Error>)
    requires
        old(counts).failed < u64::MAX,
    ensures
        is_failure(ty, local, uid@, while_building, e, r),
        *final(counts) == (if e is Partial {
            TypeCounts { failed: (old(counts).failed + 1) as u64, ..*old(counts) }
        } else {
            *old(counts)
        }),
{
    if e.aborts_run() {
        return Err(e);
    }
    let mut w: String = describe(ty, local, uid);
    if while_building {
        w.append(" skipped: ");
    } else {
        w.append(" not created: ");
    }
    w.append(e.message().as_str());
    counts.failed = counts.failed + 1;
    Ok(w)
}

/// The objects that an answer says were created, with the ids that the server
/// gave them.
pub open spec fn created_ids(created: Members) -> Seq<(i64, Seq<char>)>
    decreases created.len(),
{
    if created.len() == 0 {
        Seq::empty()
    } else {
        let rest = created_ids(created.drop_last());
        match (local_of_client_id(created.last().0), created.last().1.text_at("id"@)) {
            (Some(n), Some(id)) => rest.push((n as i64, id)),
            _ => rest,
        }
    }
}

/// What is said of an object that the server did not create.
pub open spec fn refusal(ty: ObjectType, cid: Seq<char>, error: Val) -> Seq<char> {
    types::name_of(ty) + " "@ + cid + " not created: "@ + json::written(error)
}

/// What is said of the objects that the server did not create.
pub open spec fn refusals(ty: ObjectType, not_created: Members) -> Seq<Seq<char>> {
    Seq::new(not_created.len(), |i: int| refusal(ty, not_created[i].0, not_created[i].1))
}

/// Pairs of an object of the archive and an id at the server.
pub open spec fn pairs(v: Seq<(i64, String)>) -> Seq<(i64, Seq<char>)> {
    Seq::new(v.len(), |i: int| (v[i].0, v[i].1@))
}

proof fn lemma_created_few(created: Members)
    ensures
        created_ids(created).len() <= created.len(),
    decreases created.len(),
{
    if created.len() > 0 {
        lemma_created_few(created.drop_last());
    }
}

/// Goes on after the server answered: which objects it created under which ids,
/// and a warning for each that it did not.
pub fn after_create(
    ty: ObjectType,
    created: &Vec<(String, Json)>,
    not_created: &Vec<(String, Json)>,
    counts: &mut TypeCounts,
) -> (r: (Vec<(i64, String)>, Vec<String>))
    requires
        old(counts).created + created@.len() <= u64::MAX,
        old(counts).failed + not_created@.len() <= u64::MAX,
    ensures
        pairs(r.0@) == created_ids(json::members_view(created@)),
        text::texts(r.1@) == refusals(ty, json::members_view(not_created@)),
        *final(counts) == (TypeCounts {
            created: (old(counts).created + r.0@.len()) as u64,
            failed: (old(counts).failed + r.1@.len()) as u64,
            ..*old(counts)
        }),
{
    let ghost made = json::members_view(created@);
    let mut ids: Vec<(i64, String)> = Vec::new();
    let mut i: usize = 0;
    assert(made.take(0) =~= Seq::empty());
    assert(pairs(ids@) =~= Seq::empty());
    while i < created.len()
        invariant
            i <= created@.len(),
            made == json::members_view(created@),
            made.len() == created@.len(),
            pairs(ids@) == created_ids(made.take(i as int)),
            ids@.len() <= i,
        decreases created@.len() - i,
    {
        let ghost before = ids@;
        assert(made.take(i as int + 1).drop_last() =~= made.take(i as int));
        assert(made.take(i as int + 1).last() == (created@[i as int].0@, created@[i as int].1@));
        if let Some(p) = created_object(created[i].0.as_str(), &created[i].1) {
            ids.push(p);
            assert(pairs(ids@) =~= pairs(before).push((p.0, p.1@)));
        }
        i = i + 1;
    }
    assert(made.take(i as int) =~= made);
    let ghost refused = json::members_view(not_created@);
    let mut warnings: Vec<String> = Vec::new();
    let mut k: usize = 0;
    while k < not_created.len()
        invariant
            k <= not_created@.len(),
            refused == json::members_view(not_created@),
            refused.len() == not_created@.len(),
            warnings@.len() == k,
            forall|j: int|
                0 <= j < k ==> (#[trigger] warnings@[j])@ == refusals(ty, refused)[j],
        decreases not_created@.len() - k,
    {
        assert(refused[k as int] == (not_created@[k as int].0@, not_created@[k as int].1@));
        let mut w: String = text::joined(ty.jmap_name(), " ");
        w.append(not_created[k].0.as_str());
        w.append(" not created: ");
        w.append(json::write(&not_created[k].1).as_str());
        warnings.push(w);
        k = k + 1;
    }
    assert(text::texts(warnings@) =~= refusals(ty, refused));
    counts.created = counts.created + ids.len() as u64;
    counts.failed = counts.failed + warnings.len() as u64;
    (ids, warnings)
}

/// The columns of a stored card or event.
#[derive(Debug)]
pub enum StoredObject {
    Card { uid: String, address_book_ids: String, data: String },
    Event { calendar_ids: String, is_draft: i64, use_default_alerts: i64, data: String },
}

/// The stored text of a card or an event.
pub open spec fn data_of(row: StoredObject) -> Seq<char> {
    match row {
        StoredObject::Card { uid, address_book_ids, data } => data@,
        StoredObject::Event { calendar_ids, is_draft, use_default_alerts, data } => data@,
    }
}

/// The column that says which collections a card or an event is in.
pub open spec fn collections_of(row: StoredObject) -> Seq<char> {
    match row {
        StoredObject::Card { uid, address_book_ids, data } => address_book_ids@,
        StoredObject::Event { calendar_ids, is_draft, use_default_alerts, data } => calendar_ids@,
    }
}

/// How blobs are written out in a card or an event.
pub open spec fn shape_of(row: StoredObject) -> InlineShape {
    if row is Card {
        InlineShape::JsContactResource
    } else {
        InlineShape::JsCalendarLink
    }
}

/// What a card or an event is in.
pub open spec fn container_of(row: StoredObject) -> ObjectType {
    if row is Card {
        ObjectType::AddressBook
    } else {
        ObjectType::Calendar
    }
}

/// A card or an event as it is sent, given its text with the blobs written out
/// and the collections that it is in.
pub open spec fn dressed(row: StoredObject, inlined: Val, members: Members) -> Val {
    match row {
        StoredObject::Card { uid, address_book_ids, data } => cards::dressed_card(
            inlined,
            uid@,
            members,
        ),
        StoredObject::Event { calendar_ids, is_draft, use_default_alerts, data } =>
            cards::dressed_event(inlined, members, is_draft != 0, use_default_alerts != 0),
    }
}

/// Whether a stored card or event is sent as this.
pub open spec fn is_wire<R: TargetResolver, B: BlobBytes>(
    row: StoredObject,
    resolver: &R,
    blobs: &B,
    wire: Val,
) -> bool {
    &&& json::json_of(vstd::utf8::encode_utf8(data_of(row))) matches Ok(v)
    &&& cards::inlinable(v, shape_of(row), blobs)
    &&& mapping::column_ids(collections_of(row)) matches Ok(ids)
    &&& mapping::memberships(ids, container_of(row), resolver) matches Ok(members)
    &&& wire == dressed(row, blob::inlined(v, shape_of(row), blobs), members)
}

/// Builds what is sent of a stored card or event.
pub fn build_wire<R: TargetResolver, B: BlobBytes>(
    row: &StoredObject,
    resolver: &R,
    blobs: &B,
) -> (r: Result<Json, Error>)
    ensures
        match r {
            Ok(j) => is_wire(*row, resolver, blobs, j@),
            Err(e) => exists|fault: JmapError| #[trigger]
                cards::is_export_failure(
                    fault,
                    data_of(*row),
                    collections_of(*row),
                    shape_of(*row),
                    container_of(*row),
                    resolver,
                    blobs,
                ) && jmap_error::is_run_error(fault, e),
        },
{
    let built: Result<Json, JmapError> = match row {
        StoredObject::Card { uid, address_book_ids, data } => cards::contact_card_to_wire(
            uid.as_str(),
            address_book_ids.as_str(),
            data.as_str(),
            resolver,
            blobs,
        ),
        StoredObject::Event { calendar_ids, is_draft, use_default_alerts, data } =>
            cards::calendar_event_to_wire(
                calendar_ids.as_str(),
                *is_draft != 0,
                *use_default_alerts != 0,
                data.as_str(),
                resolver,
                blobs,
            ),
    };
    match built {
        Ok(j) => Ok(j),
        Err(fault) => Err(jmap_error::run_error(fault)),
    }
}

/// Cards, or events, on their way to the server, one after the other.
#[derive(Debug)]
pub struct UidExport {
    pub ty: ObjectType,
    /// What the server has.
    pub targets: Vec<Json>,
    /// What the archive has.
    pub rows: Vec<LocalObject>,
    /// The object whose turn it is.
    pub index: usize,
    pub counts: TypeCounts,
    /// Which object of the archive is which at the server.
    pub map: Vec<(i64, String)>,
    pub warnings: Vec<String>,
}

/// The first object, from a given one on, that the server has not; or the
/// number of objects.
pub open spec fn first_missing(targets: Seq<Val>, rows: Seq<LocalObject>, i: int) -> int
    decreases rows.len() - i,
{
    if 0 <= i < rows.len() && target_with_uid(targets, rows[i].uid@) is Some {
        first_missing(targets, rows, i + 1)
    } else {
        i
    }
}

/// The pairs of the objects from one up to another, all of which the server has.
pub open spec fn matched_pairs(targets: Seq<Val>, rows: Seq<LocalObject>, from: int, to: int) -> Seq<
    (i64, Seq<char>),
> {
    Seq::new(
        (to - from) as nat,
        |k: int|
            (rows[from + k].local_id, target_with_uid(targets, rows[from + k].uid@)->0),
    )
}

/// The next object that is created is one that the server has not, and the
/// server has each of those that are passed over on the way.
pub proof fn only_missing_objects_are_created(
    targets: Seq<Val>,
    rows: Seq<LocalObject>,
    from: int,
)
    requires
        0 <= from <= rows.len(),
    ensures
        ({
            let k = first_missing(targets, rows, from);
            &&& from <= k <= rows.len()
            &&& k < rows.len() ==> target_with_uid(targets, rows[k].uid@) is None
            &&& forall|j: int|
                from <= j < k ==> target_with_uid(targets, (#[trigger] rows[j]).uid@) is Some
        }),
    decreases rows.len() - from,
{
    if from < rows.len() && target_with_uid(targets, rows[from].uid@) is Some {
        only_missing_objects_are_created(targets, rows, from + 1);
    }
}

/// Begins to bring objects of one kind to the server: nothing is counted yet.
pub fn reconcile(ty: ObjectType, targets: Vec<Json>, rows: Vec<LocalObject>, counts: TypeCounts) -> (r:
    UidExport)
    ensures
        r.wf(),
        r.ty == ty,
        r.targets == targets,
        r.rows == rows,
        r.index == 0,
        r.counts == counts,
        r.map@.len() == 0,
        r.warnings@.len() == 0,
{
    UidExport { ty, targets, rows, index: 0, counts, map: Vec::new(), warnings: Vec::new() }
}

impl UidExport {
    pub open spec fn wf(self) -> bool {
        self.index <= self.rows@.len()
    }

    /// What does not change while objects are brought to the server.
    pub open spec fn same_task(self, other: UidExport) -> bool {
        &&& self.ty == other.ty
        &&& self.targets == other.targets
        &&& self.rows == other.rows
    }

    /// Goes on to the next object that the server has not: its number, and the
    /// id within a request under which it is created. Those on the way, which
    /// the server has, are counted and put on the map.
    pub fn next(&mut self) -> (r: Option<(i64, String)>)
        requires
            old(self).wf(),
            old(self).counts.skipped + (old(self).rows@.len() - old(self).index) <= u64::MAX,
        ensures
            final(self).wf(),
            final(self).same_task(*old(self)),
            final(self).warnings == old(self).warnings,
            ({
                let all = json::list_view(old(self).targets@);
                let rows = old(self).rows@;
                let at = old(self).index as int;
                let k = first_missing(all, rows, at);
                &&& final(self).index == k
                &&& final(self).counts == (TypeCounts {
                    skipped: (old(self).counts.skipped + (k - at)) as u64,
                    ..old(self).counts
                })
                &&& pairs(final(self).map@) == pairs(old(self).map@) + matched_pairs(
                    all,
                    rows,
                    at,
                    k,
                )
                &&& match r {
                    Some(p) => k < rows.len() && p.0 == rows[k].local_id && p.1@ == "c"@
                        + text::signed_dec(rows[k].local_id as int),
                    None => k == rows.len(),
                }
            }),
    {
        let ghost all = json::list_view(self.targets@);
        let ghost rows = self.rows@;
        let ghost at = self.index as int;
        proof {
            only_missing_objects_are_created(all, rows, at);
        }
        assert(matched_pairs(all, rows, at, at) =~= Seq::empty());
        assert(pairs(self.map@) =~= pairs(self.map@) + matched_pairs(all, rows, at, at));
        while self.index < self.rows.len()
            invariant
                self.same_task(*old(self)),
                self.warnings == old(self).warnings,
                all == json::list_view(self.targets@),
                rows == self.rows@,
                at == old(self).index,
                at <= self.index <= rows.len(),
                first_missing(all, rows, self.index as int) == first_missing(all, rows, at),
                old(self).counts.skipped + (rows.len() - at) <= u64::MAX,
                self.counts == (TypeCounts {
                    skipped: (old(self).counts.skipped + (self.index - at)) as u64,
                    ..old(self).counts
                }),
                pairs(self.map@) == pairs(old(self).map@) + matched_pairs(
                    all,
                    rows,
                    at,
                    self.index as int,
                ),
            decreases rows.len() - self.index,
        {
            let i: usize = self.index;
            match find_by_uid(&self.targets, self.rows[i].uid.as_str()) {
                Some(id) => {
                    let ghost before = pairs(self.map@);
                    let ghost given = id@;
                    let local: i64 = self.rows[i].local_id;
                    self.map.push((local, id));
                    assert(pairs(self.map@) =~= before.push((local, given)));
                    assert(matched_pairs(all, rows, at, i as int + 1) =~= matched_pairs(
                        all,
                        rows,
                        at,
                        i as int,
                    ).push((local, given)));
                    assert(pairs(self.map@) =~= pairs(old(self).map@) + matched_pairs(
                        all,
                        rows,
                        at,
                        i as int + 1,
                    ));
                    self.counts.skipped = self.counts.skipped + 1;
                    self.index = i + 1;
                },
                None => {
                    let number: String = text::signed_decimal(self.rows[i].local_id);
                    return Some((self.rows[i].local_id, text::joined("c", number.as_str())));
                },
            }
        }
        None
    }

    /// Goes on after the object whose turn it is could not be built, or not be
    /// created. An error that ends the run leaves everything as it is.
    pub fn after_failure(&mut self, while_building: bool, e: Error) -> (r: Result<(), Error>)
        requires
            old(self).wf(),
            old(self).index < old(self).rows@.len(),
            old(self).counts.failed < u64::MAX,
        ensures
            final(self).wf(),
            final(self).same_task(*old(self)),
            final(self).map == old(self).map,
            if e is Partial {
                let row = old(self).rows@[old(self).index as int];
                &&& r is Ok
                &&& final(self).index == old(self).index + 1
                &&& final(self).counts == (TypeCounts {
                    failed: (old(self).counts.failed + 1) as u64,
                    ..old(self).counts
                })
                &&& text::texts(final(self).warnings@) == text::texts(old(self).warnings@).push(
                    description(old(self).ty, row.local_id, row.uid@) + (if while_building {
                        " skipped: "@
                    } else {
                        " not created: "@
                    }) + error::error_text(e),
                )
            } else {
                &&& r == Err::<(), Error>(e)
                &&& *final(self) == *old(self)
            },
    {
        let i: usize = self.index;
        let n: usize = self.rows.len();
        assert(i < n);
        let ghost before = self.warnings@;
        let local: i64 = self.rows[i].local_id;
        match after_failure(
            self.ty,
            local,
            self.rows[i].uid.as_str(),
            while_building,
            e,
            &mut self.counts,
        ) {
            Ok(w) => {
                let ghost said = w@;
                self.warnings.push(w);
                assert(text::texts(self.warnings@) =~= text::texts(before).push(said));
                self.index = i + 1;
                Ok(())
            },
            Err(e) => Err(e),
        }
    }

    /// Goes on after the server answered about the object whose turn it is.
    pub fn after_create(
        &mut self,
        created: &Vec<(String, Json)>,
        not_created: &Vec<(String, Json)>,
    )
        requires
            old(self).wf(),
            old(self).index < old(self).rows@.len(),
            old(self).counts.created + created@.len() <= u64::MAX,
            old(self).counts.failed + not_created@.len() <= u64::MAX,
        ensures
            final(self).wf(),
            final(self).same_task(*old(self)),
            final(self).index == old(self).index + 1,
            pairs(final(self).map@) == pairs(old(self).map@) + created_ids(
                json::members_view(created@),
            ),
            text::texts(final(self).warnings@) == text::texts(old(self).warnings@) + refusals(
                old(self).ty,
                json::members_view(not_created@),
            ),
            final(self).counts == (TypeCounts {
                created: (old(self).counts.created + created_ids(
                    json::members_view(created@),
                ).len()) as u64,
                failed: (old(self).counts.failed + not_created@.len()) as u64,
                ..old(self).counts
            }),
    {
        let i: usize = self.index;
        let n: usize = self.rows.len();
        assert(i < n);
        let ghost map = self.map@;
        let ghost told = self.warnings@;
        proof {
            lemma_created_few(json::members_view(created@));
        }
        let (ids, warnings) = after_create(self.ty, created, not_created, &mut self.counts);
        let ghost ids_before = ids@;
        let ghost warnings_before = warnings@;
        assert(pairs(ids@).len() == ids@.len());
        assert(text::texts(warnings@).len() == warnings@.len());
        let mut more: Vec<(i64, String)> = ids;
        let mut said: Vec<String> = warnings;
        self.map.append(&mut more);
        self.warnings.append(&mut said);
        assert(pairs(self.map@) =~= pairs(map) + pairs(ids_before));
        assert(text::texts(self.warnings@) =~= text::texts(told) + text::texts(warnings_before));
        self.index = i + 1;
    }
}

/// An object at the server that may be deleted there.
#[derive(Debug)]
pub struct TargetObj {
    pub id: String,
    pub matched: bool,
    pub protected: bool,
    pub may_delete: bool,
}

/// Whether some object of the archive was matched by a uid.
pub open spec fn is_matched_uid(targets: Seq<Val>, rows: Seq<LocalObject>, uid: Seq<char>) -> bool {
    exists|i: int|
        0 <= i < rows.len() && (#[trigger] rows[i]).uid@ == uid && target_with_uid(
            targets,
            uid,
        ) is Some
}

fn matched_uid(targets: &Vec<Json>, rows: &Vec<LocalObject>, uid: &str) -> (r: bool)
    ensures
        r == is_matched_uid(json::list_view(targets@), rows@, uid@),
{
    if find_by_uid(targets, uid).is_none() {
        return false;
    }
    let mut i: usize = 0;
    while i < rows.len()
        invariant
            i <= rows@.len(),
            target_with_uid(json::list_view(targets@), uid@) is Some,
            forall|k: int| 0 <= k < i ==> (#[trigger] rows@[k]).uid@ != uid@,
        decreases rows@.len() - i,
    {
        if text::same(rows[i].uid.as_str(), uid) {
            assert(rows@[i as int].uid@ == uid@);
            return true;
        }
        i = i + 1;
    }
    false
}

/// The objects at the server that have an id, by where they stand.
pub open spec fn with_ids(targets: Seq<Val>) -> Seq<Val>
    decreases targets.len(),
{
    if targets.len() == 0 {
        Seq::empty()
    } else if targets.last().text_at("id"@) is Some {
        with_ids(targets.drop_last()).push(targets.last())
    } else {
        with_ids(targets.drop_last())
    }
}

/// Whether this is an object at the server, and says whether the archive has
/// it.
pub open spec fn is_target_obj(
    v: Val,
    targets: Seq<Val>,
    rows: Seq<LocalObject>,
    o: TargetObj,
) -> bool {
    &&& v.text_at("id"@) == Some(o.id@)
    &&& o.matched == (match v.text_at("uid"@) {
        Some(uid) => is_matched_uid(targets, rows, uid),
        None => false,
    })
    &&& !o.protected
    &&& o.may_delete
}

/// Lists the objects at the server, and which of them the archive has.
pub fn target_objects(targets: &Vec<Json>, rows: &Vec<LocalObject>) -> (r: Vec<TargetObj>)
    ensures
        ({
            let all = json::list_view(targets@);
            &&& r@.len() == with_ids(all).len()
            &&& forall|i: int|
                0 <= i < r@.len() ==> is_target_obj(with_ids(all)[i], all, rows@, #[trigger] r@[i])
        }),
{
    let ghost all = json::list_view(targets@);
    let mut r: Vec<TargetObj> = Vec::new();
    let mut i: usize = 0;
    assert(all.take(0) =~= Seq::empty());
    while i < targets.len()
        invariant
            i <= targets@.len(),
            all == json::list_view(targets@),
            all.len() == targets@.len(),
            r@.len() == with_ids(all.take(i as int)).len(),
            forall|k: int|
                0 <= k < r@.len() ==> is_target_obj(
                    with_ids(all.take(i as int))[k],
                    all,
                    rows@,
                    #[trigger] r@[k],
                ),
        decreases targets@.len() - i,
    {
        assert(all.take(i as int + 1).drop_last() =~= all.take(i as int));
        assert(all.take(i as int + 1).last() == targets@[i as int]@);
        if let Some(id) = targets[i].text_at("id") {
            let matched: bool = match targets[i].text_at("uid") {
                Some(uid) => matched_uid(targets, rows, uid),
                None => false,
            };
            r.push(
                TargetObj { id: id.to_owned(), matched, protected: false, may_delete: true },
            );
        }
        i = i + 1;
    }
    assert(all.take(i as int) =~= all);
    r
}

} // verus!
