//! What an archive of an older layout still needs.

use crate::text;
use vstd::prelude::*;

verus! {

/// Whether the table of events still needs the column for their type, given the
/// names of its columns.
pub fn needs_data_type_column(columns: &Vec<String>) -> (r: bool)
    ensures
        r == !text::texts(columns@).contains("data_type"@),
{
    let mut i: usize = 0;
    while i < columns.len()
        invariant
            i <= columns@.len(),
            forall|k: int| 0 <= k < i ==> text::texts(columns@)[k] != "data_type"@,
        decreases columns@.len() - i,
    {
        if text::same(columns[i].as_str(), "data_type") {
            assert(text::texts(columns@)[i as int] == "data_type"@);
            return false;
        }
        i = i + 1;
    }
    true
}

/// Whether a text stands within another one.
pub open spec fn stands_in(s: Seq<char>, part: Seq<char>) -> bool {
    exists|i: int| 0 <= i <= s.len() && #[trigger] text::has_prefix(s.skip(i), part)
}

/// Whether a text stands within another one.
pub fn contains(s: &str, part: &str) -> (r: bool)
    ensures
        r == stands_in(s@, part@),
{
    let v: Vec<char> = text::chars_of(s);
    let p: Vec<char> = text::chars_of(part);
    let n: usize = v.len();
    let mut i: usize = 0;
    loop
        invariant
            i <= n,
            n == v@.len(),
            v@ == s@,
            p@ == part@,
            forall|k: int| 0 <= k < i ==> !#[trigger] text::has_prefix(s@.skip(k), part@),
        decreases n - i,
    {
        assert(v@.subrange(i as int, v@.len() as int) =~= s@.skip(i as int));
        if text::prefix_at(&v, i, &p) {
            return true;
        }
        if i == n {
            return false;
        }
        i = i + 1;
    }
}

/// Whether the table of Microsoft Graph ids still has to learn about files,
/// given the statement that made it.
pub fn needs_file_nodes(sql: Option<&str>) -> (r: bool)
    ensures
        r == (match sql {
            Some(t) => !stands_in(t@, "'filenode'"@),
            None => false,
        }),
{
    match sql {
        Some(t) => !contains(t, "'filenode'"),
        None => false,
    }
}

} // verus!
