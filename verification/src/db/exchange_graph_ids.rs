//! Which local object stands for which object of Microsoft Graph.

use crate::text;
use vstd::prelude::*;

verus! {

pub const MAILBOX: &'static str = "mailbox";

pub const EMAIL: &'static str = "email";

pub const CALENDAR: &'static str = "calendar";

pub const CALENDAR_EVENT: &'static str = "calendarevent";

pub const ADDRESS_BOOK: &'static str = "addressbook";

pub const CONTACT_CARD: &'static str = "contactcard";

pub const FILE_NODE: &'static str = "filenode";

/// An object of Microsoft Graph and the local one that stands for it.
#[derive(Debug)]
pub struct IdRow {
    pub graph_id: String,
    pub local_id: i64,
}

/// The local object that stands for an object of Microsoft Graph.
pub open spec fn local_of(rows: Seq<IdRow>, graph_id: Seq<char>) -> Option<i64>
    decreases rows.len(),
{
    if rows.len() == 0 {
        None
    } else if rows.last().graph_id@ == graph_id {
        Some(rows.last().local_id)
    } else {
        local_of(rows.drop_last(), graph_id)
    }
}

/// Finds the local object that stands for an object of Microsoft Graph.
pub fn local_for_graph_id(rows: &Vec<IdRow>, graph_id: &str) -> (r: Option<i64>)
    ensures
        r == local_of(rows@, graph_id@),
{
    let mut n: usize = rows.len();
    assert(rows@.take(n as int) =~= rows@);
    while n > 0
        invariant
            n <= rows@.len(),
            local_of(rows@.take(n as int), graph_id@) == local_of(rows@, graph_id@),
        decreases n,
    {
        assert(rows@.take(n as int).drop_last() =~= rows@.take(n - 1));
        if text::same(rows[n - 1].graph_id.as_str(), graph_id) {
            return Some(rows[n - 1].local_id);
        }
        n = n - 1;
    }
    None
}

} // verus!
