//! JMAP objects as rows of the archive, and back: the ids of other objects
//! become local ids when an object is stored, and the target's ids when it is
//! written out.

use crate::db::cell;
use crate::db::cell::{Cell, CellVal};
use crate::db::roles;
use crate::db::roles::RoleRow;
use crate::instant;
use crate::instant::Moment;
use crate::jmap::error::JmapError;
use crate::jmap::objects::{Email, Mailbox};
use crate::jmap::wire::JmapId;
use crate::json;
use crate::json::{Json, Members, Val};
use crate::text;
use crate::types;
use crate::types::ObjectType;
use vstd::prelude::*;

verus! {

/// Finds the local objects that stand for a server's.
pub trait LocalResolver {
    /// The local id of a server's object, where it has one.
    spec fn local_of(&self, ty: ObjectType, jmap_id: Seq<char>) -> Option<i64>;

    fn local(&self, ty: ObjectType, jmap_id: &str) -> (r: Option<i64>)
        ensures
            r == self.local_of(ty, jmap_id@),
    ;
}

/// Finds the target's objects that stand for local ones.
pub trait TargetResolver {
    /// The target's id of a local object, where it has one.
    spec fn target_of(&self, ty: ObjectType, local_id: i64) -> Option<Seq<char>>;

    fn target(&self, ty: ObjectType, local_id: i64) -> (r: Option<JmapId>)
        ensures
            id_view(r) == self.target_of(ty, local_id),
    ;
}

pub open spec fn id_view(id: Option<JmapId>) -> Option<Seq<char>> {
    match id {
        Some(i) => Some(i.0@),
        None => None,
    }
}

pub open spec fn ids_view(ids: Seq<JmapId>) -> Seq<Seq<char>> {
    Seq::new(ids.len(), |i: int| ids[i].0@)
}

/// Why an object could not be stored or read.
pub enum Fault {
    /// A column does not hold what it should; with what is said of it.
    Column(Seq<char>),
    /// A text or a value is not the JSON that it should be; with the reader's
    /// words.
    Unreadable(Seq<char>),
    /// The object makes no sense; with the reason.
    Malformed(Seq<char>),
}

/// Whether an error is the one for a fault.
pub open spec fn is_fault(e: JmapError, f: Fault) -> bool {
    match f {
        Fault::Column(t) => e matches JmapError::Sqlite(m) && m@ == t,
        Fault::Unreadable(t) => e matches JmapError::Json(m) && m@ == t,
        Fault::Malformed(t) => e matches JmapError::Malformed(m) && m@ == t,
    }
}

/// The fault of a column, given its place and name.
pub open spec fn column_fault(row: Seq<CellVal>, i: int, name: Seq<char>) -> Option<Fault> {
    Some(Fault::Column(cell::column_text(row, i, name)))
}

/// An object and its local id.
#[derive(Debug)]
pub struct IdLink {
    pub ty: ObjectType,
    pub jmap_id: String,
    pub local_id: i64,
}

/// Objects and their local ids, the later ones first in rank.
#[derive(Debug)]
pub struct IdTable {
    pub links: Vec<IdLink>,
}

/// The local id that the last link for an object gives.
pub open spec fn linked_local(links: Seq<IdLink>, ty: ObjectType, id: Seq<char>) -> Option<i64>
    decreases links.len(),
{
    if links.len() == 0 {
        None
    } else if links.last().ty == ty && links.last().jmap_id@ == id {
        Some(links.last().local_id)
    } else {
        linked_local(links.drop_last(), ty, id)
    }
}

/// The object that the last link for a local id gives.
pub open spec fn linked_target(links: Seq<IdLink>, ty: ObjectType, local_id: i64) -> Option<
    Seq<char>,
>
    decreases links.len(),
{
    if links.len() == 0 {
        None
    } else if links.last().ty == ty && links.last().local_id == local_id {
        Some(links.last().jmap_id@)
    } else {
        linked_target(links.drop_last(), ty, local_id)
    }
}

impl LocalResolver for IdTable {
    open spec fn local_of(&self, ty: ObjectType, jmap_id: Seq<char>) -> Option<i64> {
        linked_local(self.links@, ty, jmap_id)
    }

    fn local(&self, ty: ObjectType, jmap_id: &str) -> (r: Option<i64>) {
        let mut n: usize = self.links.len();
        assert(self.links@.take(n as int) =~= self.links@);
        while n > 0
            invariant
                n <= self.links@.len(),
                linked_local(self.links@.take(n as int), ty, jmap_id@) == self.local_of(
                    ty,
                    jmap_id@,
                ),
            decreases n,
        {
            let link: &IdLink = &self.links[n - 1];
            proof {
                let taken = self.links@.take(n as int);
                assert(taken.last() == self.links@[n - 1]);
                assert(taken.drop_last() =~= self.links@.take(n - 1));
            }
            if link.ty == ty && text::same(link.jmap_id.as_str(), jmap_id) {
                return Some(link.local_id);
            }
            n = n - 1;
        }
        None
    }
}

impl TargetResolver for IdTable {
    open spec fn target_of(&self, ty: ObjectType, local_id: i64) -> Option<Seq<char>> {
        linked_target(self.links@, ty, local_id)
    }

    fn target(&self, ty: ObjectType, local_id: i64) -> (r: Option<JmapId>) {
        let mut n: usize = self.links.len();
        assert(self.links@.take(n as int) =~= self.links@);
        while n > 0
            invariant
                n <= self.links@.len(),
                linked_target(self.links@.take(n as int), ty, local_id) == self.target_of(
                    ty,
                    local_id,
                ),
            decreases n,
        {
            let link: &IdLink = &self.links[n - 1];
            proof {
                let taken = self.links@.take(n as int);
                assert(taken.last() == self.links@[n - 1]);
                assert(taken.drop_last() =~= self.links@.take(n - 1));
            }
            if link.ty == ty && link.local_id == local_id {
                return Some(JmapId::of(link.jmap_id.as_str()));
            }
            n = n - 1;
        }
        None
    }
}

/// What is said of an id without a local object.
pub open spec fn unresolved_text(ty: ObjectType, id: Seq<char>) -> Seq<char> {
    "unresolved "@ + types::name_of(ty) + " reference "@ + id + " on insert"@
}

/// The local ids of a server's objects, or the first that has none.
pub open spec fn locals<R: LocalResolver>(
    ids: Seq<Seq<char>>,
    ty: ObjectType,
    resolver: &R,
) -> Result<Seq<i64>, Seq<char>>
    decreases ids.len(),
{
    if ids.len() == 0 {
        Ok(Seq::empty())
    } else {
        match locals(ids.drop_last(), ty, resolver) {
            Ok(v) => match resolver.local_of(ty, ids.last()) {
                Some(n) => Ok(v.push(n)),
                None => Err(unresolved_text(ty, ids.last())),
            },
            Err(t) => Err(t),
        }
    }
}

proof fn lemma_locals_fault<R: LocalResolver>(
    ids: Seq<Seq<char>>,
    n: int,
    ty: ObjectType,
    resolver: &R,
)
    requires
        0 <= n <= ids.len(),
        locals(ids.take(n), ty, resolver) is Err,
    ensures
        locals(ids, ty, resolver) == locals(ids.take(n), ty, resolver),
    decreases ids.len() - n,
{
    if n < ids.len() {
        assert(ids.take(n + 1).drop_last() =~= ids.take(n));
        lemma_locals_fault(ids, n + 1, ty, resolver);
    } else {
        assert(ids.take(n) =~= ids);
    }
}

/// Finds the local ids of a server's objects.
pub fn translate_in<R: LocalResolver>(ids: &Vec<JmapId>, ty: ObjectType, resolver: &R) -> (r:
    Result<Vec<i64>, JmapError>)
    ensures
        match r {
            Ok(v) => locals(ids_view(ids@), ty, resolver) == Ok::<Seq<i64>, Seq<char>>(v@),
            Err(e) => locals(ids_view(ids@), ty, resolver) matches Err(t) && is_fault(
                e,
                Fault::Malformed(t),
            ),
        },
{
    let ghost all = ids_view(ids@);
    let mut out: Vec<i64> = Vec::new();
    let mut i: usize = 0;
    assert(all.take(0) =~= Seq::empty());
    while i < ids.len()
        invariant
            i <= ids@.len(),
            all == ids_view(ids@),
            locals(all.take(i as int), ty, resolver) == Ok::<Seq<i64>, Seq<char>>(out@),
        decreases ids@.len() - i,
    {
        proof {
            assert(all.take(i as int + 1).drop_last() =~= all.take(i as int));
            assert(all.take(i as int + 1).last() == ids@[i as int].0@);
        }
        match resolver.local(ty, ids[i].as_str()) {
            Some(n) => {
                out.push(n);
            },
            None => {
                let mut m: String = text::joined("unresolved ", ty.jmap_name());
                m.append(" reference ");
                m.append(ids[i].as_str());
                m.append(" on insert");
                proof {
                    lemma_locals_fault(all, i as int + 1, ty, resolver);
                }
                return Err(JmapError::Malformed(m));
            },
        }
        i = i + 1;
    }
    assert(all.take(i as int) =~= all);
    Ok(out)
}

/// What is said of a local object that the target does not have.
pub open spec fn untranslated_text(ty: ObjectType, local_id: i64) -> Seq<char> {
    "unresolved local "@ + types::name_of(ty) + " id "@ + text::signed_dec(local_id as int)
        + " on export"@
}

/// The members that name the target's objects for local ones, or the first
/// that it does not have.
pub open spec fn memberships<R: TargetResolver>(
    ids: Seq<i64>,
    ty: ObjectType,
    resolver: &R,
) -> Result<Members, Seq<char>>
    decreases ids.len(),
{
    if ids.len() == 0 {
        Ok(Seq::empty())
    } else {
        match memberships(ids.drop_last(), ty, resolver) {
            Ok(e) => match resolver.target_of(ty, ids.last()) {
                Some(t) => Ok(json::with_member(e, t, Val::Bool(true))),
                None => Err(untranslated_text(ty, ids.last())),
            },
            Err(t) => Err(t),
        }
    }
}

proof fn lemma_memberships_fault<R: TargetResolver>(
    ids: Seq<i64>,
    n: int,
    ty: ObjectType,
    resolver: &R,
)
    requires
        0 <= n <= ids.len(),
        memberships(ids.take(n), ty, resolver) is Err,
    ensures
        memberships(ids, ty, resolver) == memberships(ids.take(n), ty, resolver),
    decreases ids.len() - n,
{
    if n < ids.len() {
        assert(ids.take(n + 1).drop_last() =~= ids.take(n));
        lemma_memberships_fault(ids, n + 1, ty, resolver);
    } else {
        assert(ids.take(n) =~= ids);
    }
}

/// Names the target's objects for local ones, as an object of true members.
pub fn translate_out<R: TargetResolver>(ids: &Vec<i64>, ty: ObjectType, resolver: &R) -> (r:
    Result<Json, JmapError>)
    ensures
        match r {
            Ok(j) => memberships(ids@, ty, resolver) matches Ok(e) && j@ == Val::Object(e),
            Err(e) => memberships(ids@, ty, resolver) matches Err(t) && is_fault(
                e,
                Fault::Malformed(t),
            ),
        },
{
    let mut out: Vec<(String, Json)> = Vec::new();
    let mut i: usize = 0;
    assert(ids@.take(0) =~= Seq::empty());
    assert(json::members_view(out@) =~= Seq::empty());
    while i < ids.len()
        invariant
            i <= ids@.len(),
            memberships(ids@.take(i as int), ty, resolver) == Ok::<Members, Seq<char>>(
                json::members_view(out@),
            ),
        decreases ids@.len() - i,
    {
        proof {
            assert(ids@.take(i as int + 1).drop_last() =~= ids@.take(i as int));
            assert(ids@.take(i as int + 1).last() == ids@[i as int]);
        }
        match resolver.target(ty, ids[i]) {
            Some(t) => {
                json::set_member(&mut out, t.as_str(), Json::Bool(true));
            },
            None => {
                let mut m: String = text::joined("unresolved local ", ty.jmap_name());
                m.append(" id ");
                m.append(text::signed_decimal(ids[i]).as_str());
                m.append(" on export");
                proof {
                    lemma_memberships_fault(ids@, i as int + 1, ty, resolver);
                }
                return Err(JmapError::Malformed(m));
            },
        }
        i = i + 1;
    }
    assert(ids@.take(i as int) =~= ids@);
    Ok(Json::Object(out))
}

/// Local ids as a JSON value.
pub open spec fn ids_val(ids: Seq<i64>) -> Val {
    Val::List(Seq::new(ids.len(), |i: int| json::int_val(ids[i])))
}

/// Lists of local ids come back from their text.
pub proof fn local_ids_read_back(ids: Seq<i64>)
    ensures
        json::reads_back(ids_val(ids)),
        local_ids(ids_val(ids)) == Ok::<Seq<i64>, Seq<char>>(ids),
{
    let l = ids_val(ids)->List_0;
    assert forall|i: int| #![trigger l[i]] 0 <= i < l.len() implies json::is_plain(l[i])
        && json::is_nested_within(l[i], 126) && l[i].as_i64() == Some(ids[i]) by {}
    assert(all_ints(l));
    assert(Seq::new(l.len(), |i: int| l[i].as_i64()->0) =~= ids);
}

/// The text of a list of local ids.
pub fn id_array_json(ids: &Vec<i64>) -> (r: String)
    ensures
        r@ == json::json_text(ids_val(ids@)),
{
    let mut out: Vec<Json> = Vec::new();
    let mut i: usize = 0;
    while i < ids.len()
        invariant
            i <= ids@.len(),
            out@.len() == i,
            forall|k: int| 0 <= k < i ==> (#[trigger] out@[k])@ == json::int_val(ids@[k]),
        decreases ids@.len() - i,
    {
        out.push(json::int_json(ids[i]));
        i = i + 1;
    }
    let list: Json = Json::List(out);
    proof {
        assert(json::list_view(out@) =~= ids_val(ids@)->List_0);
        local_ids_read_back(ids@);
        json::plain_values_are_held_as_they_are(ids_val(ids@));
    }
    json::write(&list)
}

pub open spec fn all_ints(l: Seq<Val>) -> bool {
    forall|i: int| 0 <= i < l.len() ==> (#[trigger] l[i]).as_i64() is Some
}

/// The local ids that a JSON value lists.
pub open spec fn local_ids(v: Val) -> Result<Seq<i64>, Seq<char>> {
    match v.as_list() {
        Some(l) => if all_ints(l) {
            Ok(Seq::new(l.len(), |i: int| l[i].as_i64()->0))
        } else {
            Err("id array element is not an integer"@)
        },
        None => Err("id column is not a JSON array"@),
    }
}

/// Reads local ids from a JSON value.
pub fn ids_from(v: &Json) -> (r: Result<Vec<i64>, JmapError>)
    ensures
        match r {
            Ok(ids) => local_ids(v@) == Ok::<Seq<i64>, Seq<char>>(ids@),
            Err(e) => local_ids(v@) matches Err(t) && is_fault(e, Fault::Malformed(t)),
        },
{
    let list: &Vec<Json> = match v.as_list() {
        Some(l) => l,
        None => {
            return Err(JmapError::malformed("id column is not a JSON array"));
        },
    };
    let ghost l = json::list_view(list@);
    let mut out: Vec<i64> = Vec::new();
    let mut i: usize = 0;
    while i < list.len()
        invariant
            i <= list@.len(),
            l == json::list_view(list@),
            v@.as_list() == Some(l),
            out@.len() == i,
            forall|k: int| 0 <= k < i ==> (#[trigger] l[k]).as_i64() == Some(out@[k]),
        decreases list@.len() - i,
    {
        assert(l[i as int] == list@[i as int]@);
        match list[i].as_i64() {
            Some(n) => {
                out.push(n);
            },
            None => {
                assert(!all_ints(l));
                return Err(JmapError::malformed("id array element is not an integer"));
            },
        }
        i = i + 1;
    }
    assert(all_ints(l));
    assert(Seq::new(l.len(), |k: int| l[k].as_i64()->0) =~= out@);
    Ok(out)
}

/// The local ids that a column's text lists.
pub open spec fn column_ids(column: Seq<char>) -> Result<Seq<i64>, Fault> {
    match json::json_of(vstd::utf8::encode_utf8(column)) {
        Ok(v) => match local_ids(v) {
            Ok(ids) => Ok(ids),
            Err(t) => Err(Fault::Malformed(t)),
        },
        Err(t) => Err(Fault::Unreadable(t)),
    }
}

/// Reads the local ids that a column's text lists. The text of a list of
/// local ids gives that list.
pub fn parse_local_id_array(column: &str) -> (r: Result<Vec<i64>, JmapError>)
    ensures
        match r {
            Ok(ids) => column_ids(column@) == Ok::<Seq<i64>, Fault>(ids@),
            Err(e) => column_ids(column@) matches Err(f) && is_fault(e, f),
        },
        forall|ids: Seq<i64>|
            column@ == json::json_text(#[trigger] ids_val(ids)) ==> (r matches Ok(v) && v@ == ids),
{
    let parsed: Result<Json, String> = json::parse(column.as_bytes());
    proof {
        assert forall|ids: Seq<i64>|
            column@ == json::json_text(#[trigger] ids_val(ids)) implies (parsed matches Ok(v)
            && v@ == ids_val(ids) && local_ids(v@) == Ok::<Seq<i64>, Seq<char>>(ids)) by {
            local_ids_read_back(ids);
        }
    }
    match parsed {
        Ok(v) => ids_from(&v),
        Err(e) => Err(JmapError::Json(e)),
    }
}

/// The local id of an object's parent, where it has a parent and that is
/// known.
pub open spec fn parent_local<R: LocalResolver>(
    parent: Option<Seq<char>>,
    ty: ObjectType,
    resolver: &R,
) -> Option<i64> {
    match parent {
        Some(p) => resolver.local_of(ty, p),
        None => None,
    }
}

/// Finds the local id of an object's parent.
pub fn opt_parent<R: LocalResolver>(resolver: &R, ty: ObjectType, parent: &Option<JmapId>) -> (r:
    Option<i64>)
    ensures
        r == parent_local(id_view(*parent), ty, resolver),
{
    match parent {
        Some(p) => resolver.local(ty, p.as_str()),
        None => None,
    }
}

/// The role that a mailbox gets.
pub open spec fn role_given(
    rows: Seq<RoleRow>,
    role: Option<Seq<char>>,
    exclude_id: Option<i64>,
) -> Option<Seq<char>> {
    match role {
        Some(t) => if roles::is_taken(rows, t, exclude_id) {
            None
        } else {
            Some(t)
        },
        None => None,
    }
}

/// The columns of a mailbox: name, parent, role, sort order, subscription.
pub open spec fn mailbox_cells<R: LocalResolver>(
    wire: Mailbox,
    rows: Seq<RoleRow>,
    exclude_id: Option<i64>,
    resolver: &R,
) -> Seq<CellVal> {
    seq![
        CellVal::Text(wire.name@),
        cell::opt_int(parent_local(id_view(wire.parent_id), ObjectType::Mailbox, resolver)),
        cell::opt_text(role_given(rows, json::text_view(wire.role), exclude_id)),
        CellVal::Int(wire.sort_order as i64),
        cell::flag(wire.is_subscribed),
    ]
}

fn mailbox_row<R: LocalResolver>(
    wire: &Mailbox,
    rows: &Vec<RoleRow>,
    exclude_id: Option<i64>,
    resolver: &R,
) -> (r: Vec<Cell>)
    ensures
        cell::cells(r@) == mailbox_cells(*wire, rows@, exclude_id, resolver),
{
    let parent: Option<i64> = opt_parent(resolver, ObjectType::Mailbox, &wire.parent_id);
    let role: Option<String> = roles::unique_role(rows, json::str_of(&wire.role), exclude_id);
    let mut row: Vec<Cell> = Vec::new();
    row.push(Cell::Text(wire.name.clone()));
    row.push(cell::int_cell(parent));
    row.push(cell::text_cell(json::str_of(&role)));
    row.push(Cell::Int(wire.sort_order as i64));
    row.push(cell::flag_cell(wire.is_subscribed));
    assert(cell::cells(row@) =~= mailbox_cells(*wire, rows@, exclude_id, resolver));
    row
}

/// The columns of a new mailbox.
pub fn insert_mailbox<R: LocalResolver>(rows: &Vec<RoleRow>, wire: &Mailbox, resolver: &R) -> (r:
    Vec<Cell>)
    ensures
        cell::cells(r@) == mailbox_cells(*wire, rows@, None, resolver),
{
    mailbox_row(wire, rows, None, resolver)
}

/// The columns of a mailbox that changed; nothing where it did not.
pub fn update_mailbox<R: LocalResolver>(
    stored: Option<&Vec<Cell>>,
    rows: &Vec<RoleRow>,
    local_id: i64,
    wire: &Mailbox,
    resolver: &R,
) -> (r: Option<Vec<Cell>>)
    ensures
        cell::written_cells(r) == cell::rewritten(
            cell::opt_cells(stored),
            mailbox_cells(*wire, rows@, Some(local_id), resolver),
        ),
{
    cell::rewrite(stored, mailbox_row(wire, rows, Some(local_id), resolver))
}

/// The target's id of a row's parent.
pub open spec fn parent_target<R: TargetResolver>(c: CellVal, ty: ObjectType, resolver: &R) -> Option<
    Seq<char>,
> {
    match cell::int_of(c) {
        Some(n) => resolver.target_of(ty, n),
        None => None,
    }
}

/// Whether a row has a parent that the target does not have.
pub open spec fn lacks_parent<R: TargetResolver>(c: CellVal, ty: ObjectType, resolver: &R) -> bool {
    cell::int_of(c) is Some && parent_target(c, ty, resolver) is None
}

/// Why a row is no mailbox.
pub open spec fn mailbox_fault<R: TargetResolver>(row: Seq<CellVal>, resolver: &R) -> Option<Fault> {
    if !cell::is_opt_int(cell::cell(row, 2)) {
        column_fault(row, 2, "parent_id"@)
    } else if lacks_parent(cell::cell(row, 2), ObjectType::Mailbox, resolver) {
        Some(Fault::Malformed("unresolved mailbox parent on export"@))
    } else if !cell::is_text(cell::cell(row, 1)) {
        column_fault(row, 1, "name"@)
    } else if !cell::is_opt_text(cell::cell(row, 3)) {
        column_fault(row, 3, "role"@)
    } else if !cell::is_int(cell::cell(row, 4)) {
        column_fault(row, 4, "sort_order"@)
    } else if !cell::is_int(cell::cell(row, 5)) {
        column_fault(row, 5, "is_subscribed"@)
    } else {
        None
    }
}

/// Whether a row, led by its id, is a mailbox as the target is to have it.
pub open spec fn is_mailbox_of<R: TargetResolver>(
    m: Mailbox,
    row: Seq<CellVal>,
    resolver: &R,
) -> bool {
    &&& m.id is None
    &&& cell::cell(row, 1) == CellVal::Text(m.name@)
    &&& id_view(m.parent_id) == parent_target(cell::cell(row, 2), ObjectType::Mailbox, resolver)
    &&& json::text_view(m.role) == cell::text_of(cell::cell(row, 3))
    &&& m.sort_order == (cell::int_of(cell::cell(row, 4))->0) as u32
    &&& m.is_subscribed == (cell::int_of(cell::cell(row, 5))->0 != 0)
}

/// What selects the rows of mailboxes.
pub const MAILBOX_SELECT: &'static str =
    "SELECT id, name, parent_id, role, sort_order, is_subscribed FROM mailboxes";

/// Reads a mailbox from its row.
pub fn row_to_mailbox<R: TargetResolver>(row: &Vec<Cell>, resolver: &R) -> (r: Result<
    Mailbox,
    JmapError,
>)
    ensures
        match r {
            Ok(m) => mailbox_fault(cell::cells(row@), resolver) is None && is_mailbox_of(
                m,
                cell::cells(row@),
                resolver,
            ),
            Err(e) => mailbox_fault(cell::cells(row@), resolver) matches Some(f) && is_fault(e, f),
        },
{
    let parent: Option<i64> = match cell::opt_int_at(row, 2, "parent_id") {
        Ok(p) => p,
        Err(e) => {
            return Err(e);
        },
    };
    let parent_id: Option<JmapId> = match parent {
        Some(p) => match resolver.target(ObjectType::Mailbox, p) {
            Some(t) => Some(t),
            None => {
                return Err(JmapError::malformed("unresolved mailbox parent on export"));
            },
        },
        None => None,
    };
    let name: String = match cell::text_at(row, 1, "name") {
        Ok(t) => t,
        Err(e) => {
            return Err(e);
        },
    };
    let role: Option<String> = match cell::opt_text_at(row, 3, "role") {
        Ok(t) => t,
        Err(e) => {
            return Err(e);
        },
    };
    let sort_order: i64 = match cell::int_at(row, 4, "sort_order") {
        Ok(n) => n,
        Err(e) => {
            return Err(e);
        },
    };
    let is_subscribed: i64 = match cell::int_at(row, 5, "is_subscribed") {
        Ok(n) => n,
        Err(e) => {
            return Err(e);
        },
    };
    Ok(
        Mailbox {
            id: None,
            name,
            parent_id,
            role,
            sort_order: #[verifier::truncate]
            (sort_order as u32),
            is_subscribed: is_subscribed != 0,
        },
    )
}

proof fn lemma_order_back(n: u32)
    ensures
        (n as i64) as u32 == n,
{
}

/// A stored mailbox reads back: with its name, its sort order, its
/// subscription, the role that it was given and the parent that the target has
/// for its own.
pub proof fn stored_mailboxes_read_back<R: LocalResolver, T: TargetResolver>(
    wire: Mailbox,
    id: i64,
    rows: Seq<RoleRow>,
    exclude_id: Option<i64>,
    resolver: &R,
    targets: &T,
    m: Mailbox,
)
    requires
        !lacks_parent(
            cell::opt_int(parent_local(id_view(wire.parent_id), ObjectType::Mailbox, resolver)),
            ObjectType::Mailbox,
            targets,
        ),
        is_mailbox_of(
            m,
            cell::stored(id, mailbox_cells(wire, rows, exclude_id, resolver)),
            targets,
        ),
    ensures
        mailbox_fault(
            cell::stored(id, mailbox_cells(wire, rows, exclude_id, resolver)),
            targets,
        ) is None,
        m.name@ == wire.name@,
        m.sort_order == wire.sort_order,
        m.is_subscribed == wire.is_subscribed,
        json::text_view(m.role) == role_given(rows, json::text_view(wire.role), exclude_id),
        id_view(m.parent_id) == (match parent_local(
            id_view(wire.parent_id),
            ObjectType::Mailbox,
            resolver,
        ) {
            Some(n) => targets.target_of(ObjectType::Mailbox, n),
            None => None,
        }),
{
    lemma_order_back(wire.sort_order);
}

/// A stored message.
#[derive(Debug)]
pub struct EmailRow {
    pub blob_local_id: i64,
    pub received_at: String,
    pub mailbox_locals: Vec<i64>,
    pub keywords: Vec<String>,
    pub message_match: String,
}

/// What is said of a moment that cannot be written.
pub open spec fn unwritten_text(reason: Seq<char>) -> Seq<char> {
    "cannot format date: "@ + reason
}

/// A moment as a column holds it.
pub open spec fn date_column(m: Moment) -> Result<Seq<char>, Fault> {
    match instant::moment_text(m) {
        Ok(t) => Ok(t),
        Err(t) => Err(Fault::Malformed(unwritten_text(t))),
    }
}

/// Writes a moment as a column holds it. It reads back.
pub fn format_utc(m: Moment) -> (r: Result<String, JmapError>)
    ensures
        match r {
            Ok(t) => date_column(m) == Ok::<Seq<char>, Fault>(t@) && instant::rfc3339_moment(t@)
                == Ok::<Moment, Seq<char>>(m),
            Err(e) => date_column(m) matches Err(f) && is_fault(e, f),
        },
{
    match instant::format_rfc3339(m) {
        Ok(t) => Ok(t),
        Err(e) => Err(JmapError::Malformed(text::joined("cannot format date: ", e.as_str()))),
    }
}

/// The moment that a column holds.
pub open spec fn column_date(t: Seq<char>) -> Result<Moment, Fault> {
    match instant::rfc3339_moment(t) {
        Ok(m) => Ok(m),
        Err(e) => Err(Fault::Malformed("cannot parse date "@ + t + ": "@ + e)),
    }
}

/// Reads the moment that a column holds.
pub fn parse_utc(t: &str) -> (r: Result<Moment, JmapError>)
    ensures
        match r {
            Ok(m) => column_date(t@) == Ok::<Moment, Fault>(m),
            Err(e) => column_date(t@) matches Err(f) && is_fault(e, f),
        },
{
    match instant::parse_rfc3339(t) {
        Ok(m) => Ok(m),
        Err(e) => {
            let mut s: String = text::joined("cannot parse date ", t);
            s.append(": ");
            s.append(e.as_str());
            Err(JmapError::Malformed(s))
        },
    }
}

/// Texts as a JSON value.
pub open spec fn texts_val(v: Seq<Seq<char>>) -> Val {
    Val::List(json::text_vals(v))
}

/// Lists of texts come back from their text.
pub proof fn text_lists_read_back(v: Seq<Seq<char>>)
    ensures
        json::reads_back(texts_val(v)),
        listed_texts(texts_val(v)) == Some(v),
{
    let l = texts_val(v)->List_0;
    assert forall|i: int| #![trigger l[i]] 0 <= i < l.len() implies json::is_plain(l[i])
        && json::is_nested_within(l[i], 126) && l[i].as_text() == Some(v[i]) by {}
    assert(all_texts(l));
    assert(Seq::new(l.len(), |i: int| l[i].as_text()->0) =~= v);
}

/// The text of a list of texts.
pub fn text_array_json(v: &Vec<String>) -> (r: String)
    ensures
        r@ == json::json_text(texts_val(text::texts(v@))),
{
    proof {
        text_lists_read_back(text::texts(v@));
        json::plain_values_are_held_as_they_are(texts_val(text::texts(v@)));
    }
    json::write(&json::texts_json(v))
}

pub open spec fn all_texts(l: Seq<Val>) -> bool {
    forall|i: int| 0 <= i < l.len() ==> (#[trigger] l[i]).as_text() is Some
}

/// The texts that a JSON value lists.
pub open spec fn listed_texts(v: Val) -> Option<Seq<Seq<char>>> {
    match v.as_list() {
        Some(l) => if all_texts(l) {
            Some(Seq::new(l.len(), |i: int| l[i].as_text()->0))
        } else {
            None
        },
        None => None,
    }
}

/// The text of the error with which `serde_json::from_str` refuses a text that
/// is to list texts.
pub uninterp spec fn text_list_fault(column: Seq<char>) -> Seq<char>;

/// Whether a text is read as a JSON value that lists texts.
pub open spec fn lists_texts(column: Seq<char>) -> bool {
    json::json_of(vstd::utf8::encode_utf8(column)) matches Ok(v) && listed_texts(v) is Some
}

/// The texts that a column's text lists.
pub open spec fn column_texts(column: Seq<char>) -> Result<Seq<Seq<char>>, Fault> {
    match json::json_of(vstd::utf8::encode_utf8(column)) {
        Ok(v) => match listed_texts(v) {
            Some(t) => Ok(t),
            None => Err(Fault::Unreadable(text_list_fault(column))),
        },
        Err(_) => Err(Fault::Unreadable(text_list_fault(column))),
    }
}

/// `serde_json::from_str` to a `Vec<String>`. It reads what is read as a JSON
/// value that lists texts, and those texts; the text of its error depends on
/// the text alone. From the text that `serde_json` wrote for a list of texts it
/// reads that list.
#[verifier::external_body]
fn read_text_list(column: &str) -> (r: Result<Vec<String>, String>)
    ensures
        match r {
            Ok(v) => json::json_of(vstd::utf8::encode_utf8(column@)) matches Ok(x) && listed_texts(x)
                == Some(text::texts(v@)),
            Err(e) => e@ == text_list_fault(column@) && !lists_texts(column@),
        },
        match r {
            Ok(v) => forall|t: Seq<Seq<char>>|
                column@ == json::json_text(#[trigger] texts_val(t)) ==> text::texts(v@) == t,
            Err(_) => forall|t: Seq<Seq<char>>|
                column@ != json::json_text(#[trigger] texts_val(t)),
        },
{
    serde_json::from_str::<Vec<String>>(column).map_err(|e| e.to_string())
}

/// Reads the texts that a column's text lists. The text of a list of texts
/// gives that list.
pub fn parse_text_array(column: &str) -> (r: Result<Vec<String>, JmapError>)
    ensures
        match r {
            Ok(v) => column_texts(column@) == Ok::<Seq<Seq<char>>, Fault>(text::texts(v@)),
            Err(e) => column_texts(column@) matches Err(f) && is_fault(e, f),
        },
        forall|t: Seq<Seq<char>>|
            column@ == json::json_text(#[trigger] texts_val(t)) ==> (r matches Ok(v)
                && text::texts(v@) == t),
{
    match read_text_list(column) {
        Ok(v) => Ok(v),
        Err(e) => Err(JmapError::Json(e)),
    }
}

/// The moment that a message without one is given.
pub open spec fn received(wire: Email) -> Moment {
    match wire.received_at {
        Some(m) => m,
        None => Moment { secs: 0, nanos: 0, offset: 0 },
    }
}

/// The columns of a message: blob, moment of receipt, mailboxes, keywords and
/// what it is found by.
pub open spec fn email_cells<R: LocalResolver>(
    wire: Email,
    blob_local_id: i64,
    message_match: Seq<char>,
    resolver: &R,
) -> Result<Seq<CellVal>, Fault> {
    match locals(ids_view(wire.mailbox_ids@), ObjectType::Mailbox, resolver) {
        Err(t) => Err(Fault::Malformed(t)),
        Ok(mailboxes) => if mailboxes.len() == 0 {
            Err(Fault::Malformed("email has no resolvable mailbox"@))
        } else {
            match date_column(received(wire)) {
                Err(f) => Err(f),
                Ok(date) => Ok(
                    seq![
                        CellVal::Int(blob_local_id),
                        CellVal::Text(date),
                        CellVal::Text(json::json_text(ids_val(mailboxes))),
                        CellVal::Text(json::json_text(texts_val(text::texts(wire.keywords@)))),
                        CellVal::Text(message_match),
                    ],
                ),
            }
        },
    }
}

/// The columns of a new message. The moment of its receipt reads back.
pub fn insert_email<R: LocalResolver>(
    wire: &Email,
    blob_local_id: i64,
    message_match: &str,
    resolver: &R,
) -> (r: Result<Vec<Cell>, JmapError>)
    ensures
        match r {
            Ok(row) => {
                &&& email_cells(*wire, blob_local_id, message_match@, resolver) == Ok::<
                    Seq<CellVal>,
                    Fault,
                >(cell::cells(row@))
                &&& column_date(cell::text_of(cell::cells(row@)[1])->0) == Ok::<Moment, Fault>(
                    received(*wire),
                )
            },
            Err(e) => email_cells(*wire, blob_local_id, message_match@, resolver) matches Err(f)
                && is_fault(e, f),
        },
{
    let mailboxes: Vec<i64> = match translate_in(
        &wire.mailbox_ids,
        ObjectType::Mailbox,
        resolver,
    ) {
        Ok(v) => v,
        Err(e) => {
            return Err(e);
        },
    };
    if mailboxes.len() == 0 {
        return Err(JmapError::malformed("email has no resolvable mailbox"));
    }
    let moment: Moment = match wire.received_at {
        Some(m) => m,
        None => Moment { secs: 0, nanos: 0, offset: 0 },
    };
    let date: String = match format_utc(moment) {
        Ok(t) => t,
        Err(e) => {
            return Err(e);
        },
    };
    let mut row: Vec<Cell> = Vec::new();
    row.push(Cell::Int(blob_local_id));
    row.push(Cell::Text(date));
    row.push(Cell::Text(id_array_json(&mailboxes)));
    row.push(Cell::Text(text_array_json(&wire.keywords)));
    row.push(Cell::Text(message_match.to_owned()));
    assert(Ok::<Seq<CellVal>, Fault>(cell::cells(row@)) =~= email_cells(
        *wire,
        blob_local_id,
        message_match@,
        resolver,
    )) by {
        assert(cell::cells(row@) =~= email_cells(*wire, blob_local_id, message_match@, resolver)->Ok_0);
    }
    Ok(row)
}

/// Why a row is no message.
pub open spec fn email_fault(row: Seq<CellVal>) -> Option<Fault> {
    if !cell::is_text(cell::cell(row, 3)) {
        column_fault(row, 3, "mailbox_ids"@)
    } else if !cell::is_text(cell::cell(row, 4)) {
        column_fault(row, 4, "keywords"@)
    } else {
        match column_texts(cell::text_of(cell::cell(row, 4))->0) {
            Err(f) => Some(f),
            Ok(_) => if !cell::is_int(cell::cell(row, 1)) {
                column_fault(row, 1, "blob_id"@)
            } else if !cell::is_text(cell::cell(row, 2)) {
                column_fault(row, 2, "received_at"@)
            } else {
                match column_ids(cell::text_of(cell::cell(row, 3))->0) {
                    Err(f) => Some(f),
                    Ok(_) => if cell::is_text(cell::cell(row, 5)) {
                        None
                    } else {
                        column_fault(row, 5, "message_match"@)
                    },
                }
            },
        }
    }
}

/// What selects the rows of messages.
pub const EMAIL_SELECT: &'static str =
    "SELECT id, blob_id, received_at, mailbox_ids, keywords, message_match FROM emails";

/// Reads a message from its row, led by its id. Mailboxes and keywords that
/// were written read back.
pub fn row_to_email(row: &Vec<Cell>) -> (r: Result<EmailRow, JmapError>)
    ensures
        match r {
            Ok(m) => {
                let cells = cell::cells(row@);
                &&& email_fault(cells) is None
                &&& cell::cell(cells, 1) == CellVal::Int(m.blob_local_id)
                &&& cell::cell(cells, 2) == CellVal::Text(m.received_at@)
                &&& column_ids(cell::text_of(cell::cell(cells, 3))->0) == Ok::<Seq<i64>, Fault>(
                    m.mailbox_locals@,
                )
                &&& column_texts(cell::text_of(cell::cell(cells, 4))->0) == Ok::<
                    Seq<Seq<char>>,
                    Fault,
                >(text::texts(m.keywords@))
                &&& cell::cell(cells, 5) == CellVal::Text(m.message_match@)
            },
            Err(e) => email_fault(cell::cells(row@)) matches Some(f) && is_fault(e, f),
        },
        forall|id: i64, ids: Seq<i64>, words: Seq<Seq<char>>, blob_id: i64, date: Seq<char>, found_by:
            Seq<char>|
            cell::cells(row@) == #[trigger] cell::stored(
                id,
                stored_email(blob_id, date, ids, words, found_by),
            ) ==> (r matches Ok(m) && m.blob_local_id == blob_id && m.received_at@ == date
                && m.mailbox_locals@ == ids && text::texts(m.keywords@) == words
                && m.message_match@ == found_by),
{
    let mailboxes: String = match cell::text_at(row, 3, "mailbox_ids") {
        Ok(t) => t,
        Err(e) => {
            return Err(e);
        },
    };
    let words: String = match cell::text_at(row, 4, "keywords") {
        Ok(t) => t,
        Err(e) => {
            return Err(e);
        },
    };
    let keywords: Vec<String> = match parse_text_array(words.as_str()) {
        Ok(v) => v,
        Err(e) => {
            return Err(e);
        },
    };
    let blob_local_id: i64 = match cell::int_at(row, 1, "blob_id") {
        Ok(n) => n,
        Err(e) => {
            return Err(e);
        },
    };
    let received_at: String = match cell::text_at(row, 2, "received_at") {
        Ok(t) => t,
        Err(e) => {
            return Err(e);
        },
    };
    let mailbox_locals: Vec<i64> = match parse_local_id_array(mailboxes.as_str()) {
        Ok(v) => v,
        Err(e) => {
            return Err(e);
        },
    };
    let message_match: String = match cell::text_at(row, 5, "message_match") {
        Ok(t) => t,
        Err(e) => {
            return Err(e);
        },
    };
    Ok(EmailRow { blob_local_id, received_at, mailbox_locals, keywords, message_match })
}

/// The columns of a message with given mailboxes and keywords.
pub open spec fn stored_email(
    blob_id: i64,
    date: Seq<char>,
    ids: Seq<i64>,
    words: Seq<Seq<char>>,
    found_by: Seq<char>,
) -> Seq<CellVal> {
    seq![
        CellVal::Int(blob_id),
        CellVal::Text(date),
        CellVal::Text(json::json_text(ids_val(ids))),
        CellVal::Text(json::json_text(texts_val(words))),
        CellVal::Text(found_by),
    ]
}

/// The names of an object whose members are true or false; none where there
/// is no value.
pub open spec fn flag_names(v: Option<Val>) -> Result<Seq<Seq<char>>, Fault> {
    match v {
        None => Ok(Seq::empty()),
        Some(o) => match o.as_object() {
            Some(e) => if all_flags(e) {
                Ok(Seq::new(e.len(), |i: int| e[i].0))
            } else {
                Err(Fault::Unreadable(json::flags_fault(json::held(o))))
            },
            None => Err(Fault::Unreadable(json::flags_fault(json::held(o)))),
        },
    }
}

pub open spec fn all_flags(e: Members) -> bool {
    forall|i: int| 0 <= i < e.len() ==> (#[trigger] e[i]).1 is Bool
}

fn names_of_flags(v: Option<&Json>) -> (r: Result<Vec<String>, JmapError>)
    ensures
        match r {
            Ok(names) => flag_names(json::ref_view(v)) == Ok::<Seq<Seq<char>>, Fault>(
                text::texts(names@),
            ),
            Err(e) => flag_names(json::ref_view(v)) matches Err(f) && is_fault(e, f),
        },
{
    let mut names: Vec<String> = Vec::new();
    let object: &Json = match v {
        Some(o) => o,
        None => {
            assert(text::texts(names@) =~= Seq::empty());
            return Ok(names);
        },
    };
    let e: &Vec<(String, Json)> = match object.as_object() {
        Some(e) => e,
        None => {
            return Err(JmapError::Json(json::not_flags(object)));
        },
    };
    let ghost members = json::members_view(e@);
    let mut i: usize = 0;
    while i < e.len()
        invariant
            i <= e@.len(),
            members == json::members_view(e@),
            v == Some(object),
            object@ == Val::Object(members),
            names@.len() == i,
            forall|k: int|
                0 <= k < i ==> (#[trigger] members[k]).1 is Bool && names@[k]@ == members[k].0,
        decreases e@.len() - i,
    {
        assert(members[i as int] == (e@[i as int].0@, e@[i as int].1@));
        if e[i].1.as_bool().is_none() {
            assert(!all_flags(members));
            return Err(JmapError::Json(json::not_flags(object)));
        }
        names.push(e[i].0.clone());
        i = i + 1;
    }
    assert(all_flags(members));
    assert(Seq::new(members.len(), |k: int| members[k].0) =~= text::texts(names@));
    Ok(names)
}

/// The columns of a message that an update names: mailboxes and keywords.
pub open spec fn email_update<R: LocalResolver>(obj: Val, resolver: &R) -> Result<
    Seq<CellVal>,
    Fault,
> {
    match flag_names(obj.get("mailboxIds"@)) {
        Err(f) => Err(f),
        Ok(ids) => match locals(ids, ObjectType::Mailbox, resolver) {
            Err(t) => Err(Fault::Malformed(t)),
            Ok(mailboxes) => if mailboxes.len() == 0 {
                Err(Fault::Malformed("email update has no resolvable mailbox"@))
            } else {
                match flag_names(obj.get("keywords"@)) {
                    Err(f) => Err(f),
                    Ok(words) => Ok(
                        seq![
                            CellVal::Text(json::json_text(ids_val(mailboxes))),
                            CellVal::Text(json::json_text(texts_val(words))),
                        ],
                    ),
                }
            },
        },
    }
}

/// The mailboxes and keywords of a message that changed, given those that it
/// has; nothing where it did not.
pub fn update_email<R: LocalResolver>(
    stored: Option<&Vec<Cell>>,
    obj: &Json,
    resolver: &R,
) -> (r: Result<Option<Vec<Cell>>, JmapError>)
    ensures
        match r {
            Ok(row) => email_update(obj@, resolver) matches Ok(columns) && cell::written_cells(row)
                == cell::rewritten(cell::opt_cells(stored), columns),
            Err(e) => email_update(obj@, resolver) matches Err(f) && is_fault(e, f),
        },
{
    let named: Vec<String> = match names_of_flags(obj.get("mailboxIds")) {
        Ok(v) => v,
        Err(e) => {
            return Err(e);
        },
    };
    let mut ids: Vec<JmapId> = Vec::new();
    let mut i: usize = 0;
    while i < named.len()
        invariant
            i <= named@.len(),
            ids@.len() == i,
            forall|k: int| 0 <= k < i ==> (#[trigger] ids@[k]).0@ == named@[k]@,
        decreases named@.len() - i,
    {
        ids.push(JmapId::of(named[i].as_str()));
        i = i + 1;
    }
    assert(ids_view(ids@) =~= text::texts(named@));
    let mailboxes: Vec<i64> = match translate_in(&ids, ObjectType::Mailbox, resolver) {
        Ok(v) => v,
        Err(e) => {
            return Err(e);
        },
    };
    if mailboxes.len() == 0 {
        return Err(JmapError::malformed("email update has no resolvable mailbox"));
    }
    let words: Vec<String> = match names_of_flags(obj.get("keywords")) {
        Ok(v) => v,
        Err(e) => {
            return Err(e);
        },
    };
    let mut row: Vec<Cell> = Vec::new();
    row.push(Cell::Text(id_array_json(&mailboxes)));
    row.push(Cell::Text(text_array_json(&words)));
    assert(cell::cells(row@) =~= email_update(obj@, resolver)->Ok_0);
    Ok(cell::rewrite(stored, row))
}

} // verus!
