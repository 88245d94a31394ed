//! At most one mailbox has a role.

use crate::json;
use crate::text;
use vstd::prelude::*;

verus! {

/// A mailbox and its role.
#[derive(Debug)]
pub struct RoleRow {
    pub id: i64,
    pub role: Option<String>,
}

/// Whether a row other than the excluded one has a role.
pub open spec fn is_taken(rows: Seq<RoleRow>, role: Seq<char>, exclude_id: Option<i64>) -> bool {
    exists|i: int|
        0 <= i < rows.len() && json::text_view((#[trigger] rows[i]).role) == Some(role)
            && exclude_id != Some(rows[i].id)
}

/// The role that a mailbox gets which claims one: the claimed role, unless
/// another mailbox has it.
pub fn unique_role(rows: &Vec<RoleRow>, role: Option<&str>, exclude_id: Option<i64>) -> (r: Option<
    String,
>)
    ensures
        json::text_view(r) == (match role {
            Some(t) => if is_taken(rows@, t@, exclude_id) {
                None
            } else {
                Some(t@)
            },
            None => None,
        }),
{
    let wanted: &str = match role {
        Some(t) => t,
        None => {
            return None;
        },
    };
    let mut i: usize = 0;
    while i < rows.len()
        invariant
            i <= rows@.len(),
            json::str_view(role) == Some(wanted@),
            forall|k: int|
                0 <= k < i ==> !(json::text_view((#[trigger] rows@[k]).role) == Some(wanted@)
                    && exclude_id != Some(rows@[k].id)),
        decreases rows@.len() - i,
    {
        let excluded: bool = match exclude_id {
            Some(id) => id == rows[i].id,
            None => false,
        };
        let held: bool = match &rows[i].role {
            Some(t) => text::same(t.as_str(), wanted),
            None => false,
        };
        if held && !excluded {
            assert(json::text_view(rows@[i as int].role) == Some(wanted@) && exclude_id != Some(
                rows@[i as int].id,
            ));
            return None;
        }
        i = i + 1;
    }
    Some(wanted.to_owned())
}

/// Whether no two rows have the same role.
pub open spec fn roles_differ(rows: Seq<RoleRow>) -> bool {
    forall|i: int, j: int|
        0 <= i < j < rows.len() && json::text_view((#[trigger] rows[i]).role) is Some
            ==> json::text_view(rows[i].role) != json::text_view((#[trigger] rows[j]).role)
}

/// Mailboxes with different roles still have different roles once one was
/// added whose claim was settled this way.
pub proof fn no_two_mailboxes_share_a_role(rows: Seq<RoleRow>, claim: Seq<char>, added: RoleRow)
    requires
        roles_differ(rows),
        json::text_view(added.role) == (if is_taken(rows, claim, None) {
            None::<Seq<char>>
        } else {
            Some(claim)
        }),
    ensures
        roles_differ(rows.push(added)),
{
    let longer = rows.push(added);
    assert forall|i: int, j: int|
        0 <= i < j < longer.len() && json::text_view(
            (#[trigger] longer[i]).role,
        ) is Some implies json::text_view(longer[i].role) != json::text_view(
        (#[trigger] longer[j]).role,
    ) by {
        if j < rows.len() {
            assert(json::text_view(rows[i].role) != json::text_view(rows[j].role));
        } else if json::text_view(added.role) is Some {
            assert(!(json::text_view(rows[i].role) == Some(claim) && None::<i64> != Some(
                rows[i].id,
            )));
        }
    }
}

} // verus!
