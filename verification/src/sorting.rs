//! Sorted traversal order for mapping keys.
//!
//! Plain mappings flatten their entries in ascending key order (unless the
//! insertion-order policy is on). The order is described as a permutation of
//! the entry indices: `sort_perm(keys)` lists the positions of the entries,
//! stably insertion-sorted by their keys, and both the flatten engine and its
//! specification read children through that permutation, so the original
//! entry order stays available for the descriptor.

use vstd::prelude::*;

verus! {

use vstd::multiset::Multiset;

/// Index `i` inserted into the index list `p` before the first position whose
/// key exceeds `keys[i]`.
pub open spec fn insert_perm(p: Seq<int>, keys: Seq<u64>, i: int) -> Seq<int>
    decreases p.len(),
{
    if p.len() == 0 {
        seq![i]
    } else if keys[i] < keys[p[0]] {
        seq![i] + p
    } else {
        seq![p[0]] + insert_perm(p.drop_first(), keys, i)
    }
}

/// The key-sorted permutation of the first `n` entry indices.
pub open spec fn sort_perm_upto(keys: Seq<u64>, n: int) -> Seq<int>
    decreases n,
{
    if n <= 0 {
        Seq::empty()
    } else {
        insert_perm(sort_perm_upto(keys, n - 1), keys, n - 1)
    }
}

/// The key-sorted permutation of all entry indices: position `j` of the
/// traversal reads entry `sort_perm(keys)[j]`.
pub open spec fn sort_perm(keys: Seq<u64>) -> Seq<int> {
    sort_perm_upto(keys, keys.len() as int)
}

/// The index list visits keys in ascending order.
pub open spec fn perm_sorted(p: Seq<int>, keys: Seq<u64>) -> bool {
    forall|a: int, b: int|
        #![trigger p[a], p[b]]
        0 <= a < b < p.len() ==> keys[p[a]] <= keys[p[b]]
}

/// Every index of the list lies below `n`.
pub open spec fn perm_in_range(p: Seq<int>, n: int) -> bool {
    forall|a: int| 0 <= a < p.len() ==> 0 <= #[trigger] p[a] < n
}

proof fn lemma_insert_perm(p: Seq<int>, keys: Seq<u64>, i: int)
    requires
        perm_sorted(p, keys),
        perm_in_range(p, keys.len() as int),
        0 <= i < keys.len(),
    ensures
        insert_perm(p, keys, i).len() == p.len() + 1,
        perm_sorted(insert_perm(p, keys, i), keys),
        perm_in_range(insert_perm(p, keys, i), keys.len() as int),
        insert_perm(p, keys, i).to_multiset() == p.to_multiset().insert(i),
    decreases p.len(),
{
    broadcast use vstd::seq_lib::group_to_multiset_ensures;
    broadcast use vstd::multiset::group_multiset_axioms;

    let r = insert_perm(p, keys, i);
    if p.len() == 0 {
        assert(seq![i] =~= Seq::<int>::empty().push(i));
        assert(r.to_multiset() =~= p.to_multiset().insert(i));
    } else if keys[i] < keys[p[0]] {
        assert(r =~= seq![i] + p);
        assert forall|a: int, b: int|
            #![trigger r[a], r[b]]
            0 <= a < b < r.len() implies keys[r[a]] <= keys[r[b]] by {
            if a == 0 {
                assert(r[a] == i);
                assert(r[b] == p[b - 1]);
                if b >= 2 {
                    assert(keys[p[0]] <= keys[p[b - 1]]);
                }
            } else {
                assert(r[a] == p[a - 1] && r[b] == p[b - 1]);
            }
        }
        vstd::seq_lib::lemma_multiset_commutative(seq![i], p);
        assert(seq![i].to_multiset() =~= Multiset::<int>::empty().insert(i));
        assert(r.to_multiset() =~= p.to_multiset().insert(i));
    } else {
        let rest = insert_perm(p.drop_first(), keys, i);
        lemma_insert_perm(p.drop_first(), keys, i);
        assert(r =~= seq![p[0]] + rest);
        assert forall|a: int, b: int|
            #![trigger r[a], r[b]]
            0 <= a < b < r.len() implies keys[r[a]] <= keys[r[b]] by {
            if a > 0 {
                assert(r[a] == rest[a - 1] && r[b] == rest[b - 1]);
            } else {
                assert(r[a] == p[0]);
                assert(r[b] == rest[b - 1]);
                assert(rest.contains(rest[b - 1]));
                assert(rest.to_multiset().count(rest[b - 1]) > 0);
                if rest[b - 1] == i {
                    assert(keys[p[0]] <= keys[i]);
                } else {
                    assert(p.drop_first().to_multiset().count(rest[b - 1]) > 0);
                    assert(p.drop_first().contains(rest[b - 1]));
                    let c = choose|c: int|
                        0 <= c < p.drop_first().len() && p.drop_first()[c] == rest[b - 1];
                    assert(p[c + 1] == rest[b - 1]);
                    assert(keys[p[0]] <= keys[p[c + 1]]);
                }
            }
        }
        assert forall|a: int| 0 <= a < r.len() implies 0 <= #[trigger] r[a] < keys.len() by {
            if a == 0 {
                assert(r[a] == p[0]);
            } else {
                assert(r[a] == rest[a - 1]);
            }
        }
        vstd::seq_lib::lemma_multiset_commutative(seq![p[0]], rest);
        assert(seq![p[0]].to_multiset() =~= Multiset::<int>::empty().insert(p[0]));
        assert(p =~= seq![p[0]] + p.drop_first());
        vstd::seq_lib::lemma_multiset_commutative(seq![p[0]], p.drop_first());
        assert(r.to_multiset() =~= p.to_multiset().insert(i));
    }
}

pub proof fn lemma_sort_perm_upto(keys: Seq<u64>, n: int)
    requires
        0 <= n <= keys.len(),
    ensures
        sort_perm_upto(keys, n).len() == n,
        perm_sorted(sort_perm_upto(keys, n), keys),
        perm_in_range(sort_perm_upto(keys, n), keys.len() as int),
        forall|x: int|
            sort_perm_upto(keys, n).to_multiset().count(x) == if 0 <= x < n {
                1nat
            } else {
                0nat
            },
    decreases n,
{
    broadcast use vstd::seq_lib::group_to_multiset_ensures;
    broadcast use vstd::multiset::group_multiset_axioms;

    if n == 0 {
        assert(sort_perm_upto(keys, 0) =~= Seq::<int>::empty());
        assert(forall|x: int| Seq::<int>::empty().to_multiset().count(x) == 0nat);
    } else {
        lemma_sort_perm_upto(keys, n - 1);
        lemma_insert_perm(sort_perm_upto(keys, n - 1), keys, n - 1);
    }
}

/// What the key-sorted permutation guarantees: it is a duplicate-free
/// rearrangement of all entry indices that visits keys in ascending order.
pub proof fn lemma_sort_perm(keys: Seq<u64>)
    ensures
        sort_perm(keys).len() == keys.len(),
        perm_sorted(sort_perm(keys), keys),
        perm_in_range(sort_perm(keys), keys.len() as int),
        sort_perm(keys).no_duplicates(),
        forall|i: int| 0 <= i < keys.len() ==> #[trigger] sort_perm(keys).contains(i),
{
    broadcast use vstd::seq_lib::group_to_multiset_ensures;
    broadcast use vstd::multiset::group_multiset_axioms;

    let p = sort_perm(keys);
    lemma_sort_perm_upto(keys, keys.len() as int);
    p.lemma_multiset_has_no_duplicates_conv();
    assert forall|i: int| 0 <= i < keys.len() implies #[trigger] p.contains(i) by {
        assert(p.to_multiset().count(i) == 1nat);
    }
}

proof fn lemma_insert_perm_at(p: Seq<int>, keys: Seq<u64>, i: int, pos: int)
    requires
        0 <= pos <= p.len(),
        0 <= i < keys.len(),
        perm_in_range(p, keys.len() as int),
        forall|a: int| 0 <= a < pos ==> !(keys[i] < keys[#[trigger] p[a]]),
        pos < p.len() ==> keys[i] < keys[p[pos]],
    ensures
        insert_perm(p, keys, i) == p.take(pos) + seq![i] + p.skip(pos),
    decreases p.len(),
{
    if p.len() == 0 {
        assert(insert_perm(p, keys, i) =~= p.take(0) + seq![i] + p.skip(0));
    } else if pos == 0 {
        assert(keys[i] < keys[p[0]]);
        assert(insert_perm(p, keys, i) =~= p.take(0) + seq![i] + p.skip(0));
    } else {
        assert(!(keys[i] < keys[p[0]]));
        lemma_insert_perm_at(p.drop_first(), keys, i, pos - 1);
        assert(p.drop_first().take(pos - 1) =~= p.take(pos).drop_first());
        assert(p.drop_first().skip(pos - 1) =~= p.skip(pos));
        assert(insert_perm(p, keys, i) == seq![p[0]] + (p.drop_first().take(pos - 1) + seq![i]
            + p.drop_first().skip(pos - 1)));
        assert(insert_perm(p, keys, i) =~= p.take(pos) + seq![i] + p.skip(pos));
    }
}

/// The traversal order of a mapping's entries: the entry indices, stably
/// sorted so that their keys ascend.
pub fn sorted_key_order(keys: &Vec<u64>) -> (r: Vec<usize>)
    ensures
        r@.map_values(|u: usize| u as int) == sort_perm(keys@),
        r@.len() == keys@.len(),
        forall|a: int| 0 <= a < r@.len() ==> (#[trigger] r@[a]) < keys@.len(),
{
    let ghost gkeys = keys@;
    let mut order: Vec<usize> = Vec::new();
    let mut i: usize = 0;
    while i < keys.len()
        invariant
            i <= gkeys.len(),
            keys@ == gkeys,
            order@.map_values(|u: usize| u as int) == sort_perm_upto(gkeys, i as int),
            order@.len() == i,
            forall|a: int| 0 <= a < order@.len() ==> (#[trigger] order@[a]) < gkeys.len(),
        decreases gkeys.len() - i,
    {
        let ghost p = order@.map_values(|u: usize| u as int);
        proof {
            lemma_sort_perm_upto(gkeys, i as int);
        }
        let mut pos: usize = 0;
        while pos < order.len() && !(keys[i] < keys[order[pos]])
            invariant
                keys@ == gkeys,
                i < gkeys.len(),
                pos <= order@.len(),
                order@.len() == i,
                forall|a: int| 0 <= a < order@.len() ==> (#[trigger] order@[a]) < gkeys.len(),
                forall|a: int| 0 <= a < pos ==> !(gkeys[i as int] < gkeys[#[trigger] order@[a] as int]),
            decreases order@.len() - pos,
        {
            pos = pos + 1;
        }
        proof {
            assert forall|a: int| 0 <= a < pos implies !(gkeys[i as int] < gkeys[#[trigger] p[a]]) by {
                assert(p[a] == order@[a] as int);
            }
            if (pos as int) < p.len() {
                assert(p[pos as int] == order@[pos as int] as int);
            }
            lemma_insert_perm_at(p, gkeys, i as int, pos as int);
        }
        order.insert(pos, i);
        proof {
            assert(order@.map_values(|u: usize| u as int) =~= p.take(pos as int) + seq![i as int]
                + p.skip(pos as int));
        }
        i = i + 1;
    }
    order
}

} // verus!
