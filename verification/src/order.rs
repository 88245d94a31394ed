//! Stable ordering by a number.

use vstd::prelude::*;

verus! {

/// An index put into an ordered list of indices, behind those whose keys are
/// not greater.
pub open spec fn put_index(list: Seq<int>, keys: Seq<int>, i: int) -> Seq<int>
    decreases list.len(),
{
    if list.len() == 0 || keys[list.last()] <= keys[i] {
        list.push(i)
    } else {
        put_index(list.drop_last(), keys, i).push(list.last())
    }
}

/// The first `n` indices, in the order of their keys; where keys are the same,
/// in their own order.
pub open spec fn ordered(keys: Seq<int>, n: nat) -> Seq<int>
    decreases n,
{
    if n == 0 {
        Seq::empty()
    } else {
        put_index(ordered(keys, (n - 1) as nat), keys, n - 1)
    }
}

/// Numbers, as integers.
pub open spec fn numbers(v: Seq<u128>) -> Seq<int> {
    Seq::new(v.len(), |i: int| v[i] as int)
}

/// Indices, as integers.
pub open spec fn places(v: Seq<usize>) -> Seq<int> {
    Seq::new(v.len(), |i: int| v[i] as int)
}

fn insert_index(list: &mut Vec<usize>, keys: &Vec<u128>, i: usize)
    requires
        i < keys@.len(),
        forall|k: int| 0 <= k < old(list)@.len() ==> #[trigger] old(list)@[k] < keys@.len(),
    ensures
        places(final(list)@) == put_index(places(old(list)@), numbers(keys@), i as int),
        final(list)@.len() == old(list)@.len() + 1,
        forall|k: int| 0 <= k < final(list)@.len() ==> #[trigger] final(list)@[k] < keys@.len(),
{
    let ghost before = list@;
    let ghost all = places(before);
    let ghost ks = numbers(keys@);
    let mut at: usize = list.len();
    proof {
        assert(all.take(at as int) =~= all);
        assert(put_index(all, ks, i as int) + all.skip(at as int) =~= put_index(all, ks, i as int));
    }
    while at > 0 && keys[list[at - 1]] > keys[i]
        invariant
            at <= list@.len(),
            list@ == before,
            all == places(before),
            ks == numbers(keys@),
            i < keys@.len(),
            forall|k: int| 0 <= k < list@.len() ==> #[trigger] list@[k] < keys@.len(),
            put_index(all, ks, i as int) == put_index(all.take(at as int), ks, i as int) + all.skip(
                at as int,
            ),
        decreases at,
    {
        proof {
            let head = all.take(at as int);
            assert(head.last() == before[at - 1]);
            assert(head.drop_last() =~= all.take(at - 1));
            assert(put_index(all.take(at - 1), ks, i as int).push(head.last()) + all.skip(
                at as int,
            ) =~= put_index(all.take(at - 1), ks, i as int) + all.skip(at - 1));
        }
        at = at - 1;
    }
    list.insert(at, i);
    proof {
        if at > 0 {
            assert(all.take(at as int).last() == before[at - 1]);
        }
        assert(places(list@) =~= all.take(at as int).push(i as int) + all.skip(at as int));
    }
}

/// Orders indices by their keys.
pub fn order_by_key(keys: &Vec<u128>) -> (r: Vec<usize>)
    ensures
        places(r@) == ordered(numbers(keys@), keys@.len()),
        r@.len() == keys@.len(),
        forall|k: int| 0 <= k < r@.len() ==> #[trigger] r@[k] < keys@.len(),
{
    let mut r: Vec<usize> = Vec::new();
    let mut i: usize = 0;
    assert(places(r@) =~= Seq::empty());
    while i < keys.len()
        invariant
            i <= keys@.len(),
            r@.len() == i,
            places(r@) == ordered(numbers(keys@), i as nat),
            forall|k: int| 0 <= k < r@.len() ==> #[trigger] r@[k] < keys@.len(),
        decreases keys@.len() - i,
    {
        insert_index(&mut r, keys, i);
        i = i + 1;
    }
    r
}

/// Whether indices are in the order of their keys, and in their own order where
/// keys are the same.
pub open spec fn is_stable_order(list: Seq<int>, keys: Seq<int>) -> bool {
    forall|a: int, b: int|
        0 <= a < b < list.len() ==> keys[#[trigger] list[a]] < keys[#[trigger] list[b]] || (
        keys[list[a]] == keys[list[b]] && list[a] < list[b])
}

proof fn lemma_put(list: Seq<int>, keys: Seq<int>, i: int)
    requires
        is_stable_order(list, keys),
        forall|k: int| 0 <= k < list.len() ==> #[trigger] list[k] < i,
    ensures
        is_stable_order(put_index(list, keys, i), keys),
        put_index(list, keys, i).len() == list.len() + 1,
        forall|k: int|
            0 <= k < put_index(list, keys, i).len() ==> (#[trigger] put_index(list, keys, i)[k] == i
                || list.contains(put_index(list, keys, i)[k])),
        forall|k: int|
            0 <= k < list.len() ==> put_index(list, keys, i).contains(#[trigger] list[k]),
        put_index(list, keys, i).contains(i),
    decreases list.len(),
{
    let r = put_index(list, keys, i);
    if list.len() == 0 || keys[list.last()] <= keys[i] {
        assert forall|a: int, b: int| 0 <= a < b < r.len() implies keys[#[trigger] r[a]]
            < keys[#[trigger] r[b]] || (keys[r[a]] == keys[r[b]] && r[a] < r[b]) by {
            if b == list.len() {
                assert(r[a] == list[a]);
                if a < list.len() - 1 {
                    assert(keys[list[a]] < keys[list[list.len() - 1]] || (keys[list[a]]
                        == keys[list[list.len() - 1]] && list[a] < list[list.len() - 1]));
                }
            } else {
                assert(r[a] == list[a] && r[b] == list[b]);
            }
        }
        assert forall|k: int| 0 <= k < r.len() implies (#[trigger] r[k] == i || list.contains(
            r[k],
        )) by {
            if k < list.len() {
                assert(list[k] == r[k]);
            }
        }
        assert forall|k: int| 0 <= k < list.len() implies r.contains(#[trigger] list[k]) by {
            assert(r[k] == list[k]);
        }
        assert(r[list.len() as int] == i);
    } else {
        let d = list.drop_last();
        assert(is_stable_order(d, keys)) by {
            assert forall|a: int, b: int| 0 <= a < b < d.len() implies keys[#[trigger] d[a]]
                < keys[#[trigger] d[b]] || (keys[d[a]] == keys[d[b]] && d[a] < d[b]) by {
                assert(d[a] == list[a] && d[b] == list[b]);
            }
        }
        assert forall|k: int| 0 <= k < d.len() implies #[trigger] d[k] < i by {
            assert(d[k] == list[k]);
        }
        lemma_put(d, keys, i);
        let p = put_index(d, keys, i);
        let last = list[list.len() - 1];
        assert forall|a: int, b: int| 0 <= a < b < r.len() implies keys[#[trigger] r[a]]
            < keys[#[trigger] r[b]] || (keys[r[a]] == keys[r[b]] && r[a] < r[b]) by {
            assert(r[a] == p[a]);
            if b == p.len() {
                assert(r[b] == last);
                if p[a] != i {
                    let k = choose|k: int| 0 <= k < d.len() && d[k] == p[a];
                    assert(list[k] == p[a]);
                    assert(keys[list[k]] < keys[last] || (keys[list[k]] == keys[last] && list[k]
                        < last));
                }
            } else {
                assert(r[b] == p[b]);
            }
        }
        assert forall|k: int| 0 <= k < r.len() implies (#[trigger] r[k] == i || list.contains(
            r[k],
        )) by {
            if k < p.len() {
                assert(r[k] == p[k]);
                if p[k] != i {
                    let j = choose|j: int| 0 <= j < d.len() && d[j] == p[k];
                    assert(list[j] == r[k]);
                }
            } else {
                assert(list[list.len() - 1] == r[k]);
            }
        }
        assert forall|k: int| 0 <= k < list.len() implies r.contains(#[trigger] list[k]) by {
            if k < d.len() {
                assert(d[k] == list[k]);
                assert(p.contains(d[k]));
                let j = choose|j: int| 0 <= j < p.len() && p[j] == d[k];
                assert(r[j] == list[k]);
            } else {
                assert(r[p.len() as int] == list[k]);
            }
        }
        let j = choose|j: int| 0 <= j < p.len() && p[j] == i;
        assert(r[j] == i);
    }
}

/// Ordering keeps every index, once, in the order of the keys, and leaves those
/// with the same key in their own order.
pub proof fn ordering_is_stable_and_loses_nothing(keys: Seq<int>, n: nat)
    ensures
        ordered(keys, n).len() == n,
        is_stable_order(ordered(keys, n), keys),
        forall|k: int| 0 <= k < n ==> 0 <= #[trigger] ordered(keys, n)[k] < n,
        forall|i: int| 0 <= i < n ==> #[trigger] ordered(keys, n).contains(i),
    decreases n,
{
    if n > 0 {
        let m = (n - 1) as nat;
        ordering_is_stable_and_loses_nothing(keys, m);
        let before = ordered(keys, m);
        lemma_put(before, keys, n - 1);
        let all = ordered(keys, n);
        assert forall|k: int| 0 <= k < n implies 0 <= #[trigger] all[k] < n by {
            if all[k] != n - 1 {
                let j = choose|j: int| 0 <= j < before.len() && before[j] == all[k];
                assert(0 <= before[j] < m);
            }
        }
        assert forall|i: int| 0 <= i < n implies #[trigger] all.contains(i) by {
            if i < m {
                assert(before.contains(i));
                let j = choose|j: int| 0 <= j < before.len() && before[j] == i;
                assert(all.contains(before[j]));
            }
        }
    }
}

} // verus!
