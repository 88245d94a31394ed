//! Identifiers of Exchange items.

use vstd::prelude::*;

verus! {

/// The identifier of an item and of one version of it.
#[derive(Debug, Default)]
pub struct ItemId {
    pub id: String,
    pub change_key: String,
}

impl ItemId {
    pub fn new(id: &str, change_key: &str) -> (r: ItemId)
        ensures
            r.id@ == id@,
            r.change_key@ == change_key@,
    {
        ItemId { id: id.to_owned(), change_key: change_key.to_owned() }
    }
}

} // verus!
