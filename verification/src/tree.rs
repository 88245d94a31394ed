//! How deep the nodes of a tree lie, where each names its parent.

use vstd::prelude::*;

verus! {

/// A stored node and its parent.
#[derive(Clone, Copy, PartialEq, Eq, Structural, Debug)]
pub struct NodeRow {
    pub id: i64,
    pub parent: Option<i64>,
}

/// The parent of a node.
pub open spec fn parent_of(rows: Seq<NodeRow>, id: i64) -> Option<i64>
    decreases rows.len(),
{
    if rows.len() == 0 {
        None
    } else if rows.last().id == id {
        rows.last().parent
    } else {
        parent_of(rows.drop_last(), id)
    }
}

/// How many parents follow one another from a node on, each node taken once.
pub open spec fn depth_from(rows: Seq<NodeRow>, id: i64, visited: Seq<i64>, fuel: nat) -> nat
    decreases fuel,
{
    if fuel == 0 || visited.contains(id) {
        0
    } else {
        match parent_of(rows, id) {
            Some(p) => 1 + depth_from(rows, p, visited.push(id), (fuel - 1) as nat),
            None => 0,
        }
    }
}

/// How deep a node lies. A node on a circle of parents lies as deep as the
/// circle is long.
pub open spec fn depth(rows: Seq<NodeRow>, id: i64) -> nat {
    depth_from(rows, id, Seq::empty(), rows.len())
}

/// Whether so many parents follow one another from a node on, and then none.
pub open spec fn climbs(rows: Seq<NodeRow>, id: i64, n: nat) -> bool
    decreases n,
{
    match parent_of(rows, id) {
        Some(p) => n > 0 && climbs(rows, p, (n - 1) as nat),
        None => n == 0,
    }
}

/// Whether the parents of a node end: they form no circle.
pub open spec fn has_top(rows: Seq<NodeRow>, id: i64) -> bool {
    exists|n: nat| climbs(rows, id, n)
}

proof fn lemma_one_height(rows: Seq<NodeRow>, id: i64, n: nat, m: nat)
    requires
        climbs(rows, id, n),
        climbs(rows, id, m),
    ensures
        n == m,
    decreases n,
{
    if let Some(p) = parent_of(rows, id) {
        lemma_one_height(rows, p, (n - 1) as nat, (m - 1) as nat);
    }
}

/// The nodes that have a parent, from a node on.
spec fn chain(rows: Seq<NodeRow>, id: i64, n: nat) -> Seq<i64>
    decreases n,
{
    match parent_of(rows, id) {
        Some(p) => if n == 0 {
            Seq::empty()
        } else {
            chain(rows, p, (n - 1) as nat).push(id)
        },
        None => Seq::empty(),
    }
}

spec fn ids(rows: Seq<NodeRow>) -> Seq<i64> {
    Seq::new(rows.len(), |i: int| rows[i].id)
}

proof fn lemma_with_parent_is_row(rows: Seq<NodeRow>, id: i64)
    requires
        parent_of(rows, id) is Some,
    ensures
        ids(rows).contains(id),
    decreases rows.len(),
{
    if rows.last().id == id {
        assert(ids(rows)[rows.len() - 1] == id);
    } else {
        lemma_with_parent_is_row(rows.drop_last(), id);
        let i = choose|i: int|
            0 <= i < ids(rows.drop_last()).len() && ids(rows.drop_last())[i] == id;
        assert(ids(rows)[i] == id);
    }
}

proof fn lemma_chain(rows: Seq<NodeRow>, id: i64, n: nat)
    requires
        climbs(rows, id, n),
    ensures
        chain(rows, id, n).len() == n,
        chain(rows, id, n).no_duplicates(),
        forall|k: int| 0 <= k < n ==> climbs(rows, #[trigger] chain(rows, id, n)[k], (k + 1) as nat),
        forall|k: int| 0 <= k < n ==> ids(rows).contains(#[trigger] chain(rows, id, n)[k]),
    decreases n,
{
    if let Some(p) = parent_of(rows, id) {
        lemma_chain(rows, p, (n - 1) as nat);
        lemma_with_parent_is_row(rows, id);
        let above = chain(rows, p, (n - 1) as nat);
        let all = chain(rows, id, n);
        assert(all == above.push(id));
        assert forall|k: int| 0 <= k < n implies climbs(rows, #[trigger] all[k], (k + 1) as nat) by {
            if k < n - 1 {
                assert(all[k] == above[k]);
            }
        }
        assert forall|k: int| 0 <= k < n implies ids(rows).contains(#[trigger] all[k]) by {
            if k < n - 1 {
                assert(all[k] == above[k]);
            }
        }
        assert forall|i: int, j: int| 0 <= i < all.len() && 0 <= j < all.len() && i
            != j implies all[i] != all[j] by {
            if all[i] == all[j] {
                lemma_one_height(rows, all[i], (i + 1) as nat, (j + 1) as nat);
            }
        }
    }
}

proof fn lemma_height_is_bounded(rows: Seq<NodeRow>, id: i64, n: nat)
    requires
        climbs(rows, id, n),
    ensures
        n <= rows.len(),
{
    lemma_chain(rows, id, n);
    let all = chain(rows, id, n);
    all.unique_seq_to_set();
    ids(rows).lemma_cardinality_of_set();
    assert(all.to_set().subset_of(ids(rows).to_set()));
    vstd::set_lib::lemma_len_subset(all.to_set(), ids(rows).to_set());
}

/// Whether more than so many parents follow from a node on, and then none.
spec fn climbs_more(rows: Seq<NodeRow>, id: i64, n: nat) -> bool {
    exists|m: nat| m > n && climbs(rows, id, m)
}

proof fn lemma_depth_from(rows: Seq<NodeRow>, id: i64, visited: Seq<i64>, n: nat, fuel: nat)
    requires
        climbs(rows, id, n),
        n <= fuel,
        forall|k: int| 0 <= k < visited.len() ==> climbs_more(rows, #[trigger] visited[k], n),
    ensures
        depth_from(rows, id, visited, fuel) == n,
    decreases n,
{
    if visited.contains(id) {
        let k = choose|k: int| 0 <= k < visited.len() && visited[k] == id;
        let m = choose|m: nat| m > n && climbs(rows, visited[k], m);
        lemma_one_height(rows, id, n, m);
    } else if let Some(p) = parent_of(rows, id) {
        let next = visited.push(id);
        assert forall|k: int| 0 <= k < next.len() implies climbs_more(
            rows,
            #[trigger] next[k],
            (n - 1) as nat,
        ) by {
            if k < visited.len() {
                assert(next[k] == visited[k]);
                let m = choose|m: nat| m > n && climbs(rows, visited[k], m);
                assert(m > n - 1 && climbs(rows, next[k], m));
            } else {
                assert(climbs(rows, next[k], n));
            }
        }
        lemma_depth_from(rows, p, next, (n - 1) as nat, (fuel - 1) as nat);
    }
}

/// A node lies one deeper than its parent, where the parent's parents end.
pub proof fn children_lie_one_deeper(rows: Seq<NodeRow>, id: i64, parent: i64)
    requires
        parent_of(rows, id) == Some(parent),
        has_top(rows, parent),
    ensures
        depth(rows, id) == depth(rows, parent) + 1,
{
    let n = choose|n: nat| climbs(rows, parent, n);
    assert(climbs(rows, id, n + 1));
    lemma_height_is_bounded(rows, id, n + 1);
    lemma_depth_from(rows, parent, Seq::empty(), n, rows.len());
    lemma_depth_from(rows, id, Seq::empty(), n + 1, rows.len());
}

fn find_parent(rows: &Vec<NodeRow>, id: i64) -> (r: Option<i64>)
    ensures
        r == parent_of(rows@, id),
{
    let mut n: usize = rows.len();
    assert(rows@.take(n as int) =~= rows@);
    while n > 0
        invariant
            n <= rows@.len(),
            parent_of(rows@.take(n as int), id) == parent_of(rows@, id),
        decreases n,
    {
        assert(rows@.take(n as int).drop_last() =~= rows@.take(n - 1));
        if rows[n - 1].id == id {
            return rows[n - 1].parent;
        }
        n = n - 1;
    }
    None
}

fn has_number(list: &Vec<i64>, id: i64) -> (r: bool)
    ensures
        r == list@.contains(id),
{
    let mut i: usize = 0;
    while i < list.len()
        invariant
            i <= list@.len(),
            forall|k: int| 0 <= k < i ==> list@[k] != id,
        decreases list@.len() - i,
    {
        if list[i] == id {
            return true;
        }
        i = i + 1;
    }
    false
}

/// Computes how deep a node lies.
pub fn depth_of(rows: &Vec<NodeRow>, id: i64) -> (r: u128)
    ensures
        r == depth(rows@, id),
        r <= rows@.len(),
{
    let mut d: u128 = 0;
    let mut cursor: i64 = id;
    let mut visited: Vec<i64> = Vec::new();
    let total: usize = rows.len();
    let mut fuel: usize = total;
    assert(visited@ =~= Seq::empty());
    while fuel > 0 && !has_number(&visited, cursor)
        invariant
            d + fuel == total,
            total == rows@.len(),
            d + depth_from(rows@, cursor, visited@, fuel as nat) == depth(rows@, id),
        decreases fuel,
    {
        match find_parent(rows, cursor) {
            Some(p) => {
                d = d + 1;
                visited.push(cursor);
                cursor = p;
                fuel = fuel - 1;
            },
            None => {
                return d;
            },
        }
    }
    d
}

} // verus!
