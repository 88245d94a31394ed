//! At most one object of a kind is the default one.

use crate::types::ObjectType;
use vstd::prelude::*;

verus! {

/// A row of a table with a default.
#[derive(Clone, Copy, PartialEq, Eq, Structural, Debug)]
pub struct DefaultRow {
    pub id: i64,
    pub is_default: bool,
}

/// Whether objects of a kind can be the default one.
pub open spec fn has_default(ty: ObjectType) -> bool {
    ty == ObjectType::AddressBook || ty == ObjectType::Calendar || ty
        == ObjectType::ParticipantIdentity
}

/// The table of the kind, where it has a default.
pub fn table_for(ty: ObjectType) -> (r: Option<&'static str>)
    ensures
        r is Some <==> has_default(ty),
        ty == ObjectType::AddressBook ==> (r matches Some(t) && t@ == "address_books"@),
        ty == ObjectType::Calendar ==> (r matches Some(t) && t@ == "calendars"@),
        ty == ObjectType::ParticipantIdentity ==> (r matches Some(t) && t@
            == "participant_identities"@),
{
    match ty {
        ObjectType::AddressBook => Some("address_books"),
        ObjectType::Calendar => Some("calendars"),
        ObjectType::ParticipantIdentity => Some("participant_identities"),
        _ => None,
    }
}

/// Whether a row other than the excluded one is the default.
pub open spec fn is_taken(rows: Seq<DefaultRow>, exclude_id: Option<i64>) -> bool {
    exists|i: int|
        0 <= i < rows.len() && (#[trigger] rows[i]).is_default && exclude_id != Some(rows[i].id)
}

/// Whether an object that claims to be the default one may be: its kind has a
/// default, and no other row of its table is it.
pub fn unique_default(
    rows: &Vec<DefaultRow>,
    ty: ObjectType,
    is_default: bool,
    exclude_id: Option<i64>,
) -> (r: bool)
    ensures
        r == (is_default && has_default(ty) && !is_taken(rows@, exclude_id)),
{
    if !is_default {
        return false;
    }
    if table_for(ty).is_none() {
        return false;
    }
    let mut i: usize = 0;
    while i < rows.len()
        invariant
            i <= rows@.len(),
            forall|k: int|
                0 <= k < i ==> !((#[trigger] rows@[k]).is_default && exclude_id != Some(rows@[k].id)),
        decreases rows@.len() - i,
    {
        let excluded: bool = match exclude_id {
            Some(id) => id == rows[i].id,
            None => false,
        };
        if rows[i].is_default && !excluded {
            assert(rows@[i as int].is_default && exclude_id != Some(rows@[i as int].id));
            return false;
        }
        i = i + 1;
    }
    true
}

/// Whether at most one row is the default.
pub open spec fn at_most_one(rows: Seq<DefaultRow>) -> bool {
    forall|i: int, j: int|
        0 <= i < j < rows.len() ==> !((#[trigger] rows[i]).is_default && (
        #[trigger] rows[j]).is_default)
}

/// A table with at most one default still has at most one once a row was added
/// or changed whose claim was settled this way.
pub proof fn a_table_never_holds_two_defaults(
    rows: Seq<DefaultRow>,
    ty: ObjectType,
    claim: bool,
    id: i64,
    at: int,
)
    requires
        at_most_one(rows),
        forall|i: int, j: int|
            0 <= i < j < rows.len() ==> (#[trigger] rows[i]).id != (#[trigger] rows[j]).id,
    ensures
        at_most_one(
            rows.push(
                DefaultRow { id, is_default: claim && has_default(ty) && !is_taken(rows, None) },
            ),
        ),
        0 <= at < rows.len() ==> at_most_one(
            rows.update(
                at,
                DefaultRow {
                    id: rows[at].id,
                    is_default: claim && has_default(ty) && !is_taken(rows, Some(rows[at].id)),
                },
            ),
        ),
{
    let settled = claim && has_default(ty) && !is_taken(rows, None);
    let longer = rows.push(DefaultRow { id, is_default: settled });
    assert forall|i: int, j: int| 0 <= i < j < longer.len() implies !((
    #[trigger] longer[i]).is_default && (#[trigger] longer[j]).is_default) by {
        if j < rows.len() {
            assert(!(rows[i].is_default && rows[j].is_default));
        } else if settled {
            assert(!(rows[i].is_default && None::<i64> != Some(rows[i].id)));
        }
    }
    if 0 <= at < rows.len() {
        let own = rows[at].id;
        let kept = claim && has_default(ty) && !is_taken(rows, Some(own));
        let changed = rows.update(at, DefaultRow { id: own, is_default: kept });
        assert forall|i: int, j: int| 0 <= i < j < changed.len() implies !((
        #[trigger] changed[i]).is_default && (#[trigger] changed[j]).is_default) by {
            if i != at && j != at {
                assert(!(rows[i].is_default && rows[j].is_default));
            } else if kept {
                let other = if i == at {
                    j
                } else {
                    i
                };
                if i == at {
                    assert(rows[at].id != rows[j].id);
                } else {
                    assert(rows[i].id != rows[at].id);
                }
                assert(!(rows[other].is_default && Some(own) != Some(rows[other].id)));
            }
        }
    }
}

} // verus!
