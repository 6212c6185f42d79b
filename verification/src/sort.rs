//! Sorting of keys into table order.

use crate::keys::TableKey;
use crate::table::sorted_keys;
use vstd::prelude::*;

verus! {

/// Merges two lists of keys that are in key order into one.
pub fn merge_keys<K: TableKey>(left: &Vec<K>, right: &Vec<K>) -> (merged: Vec<K>)
    requires
        sorted_keys(left@),
        sorted_keys(right@),
        left@.len() + right@.len() <= usize::MAX,
    ensures
        sorted_keys(merged@),
        merged@.to_multiset() == left@.to_multiset().add(right@.to_multiset()),
        merged@.len() == left@.len() + right@.len(),
{
    let mut merged: Vec<K> = Vec::new();
    let mut i: usize = 0;
    let mut j: usize = 0;
    proof {
        assert(left@.take(0) =~= Seq::<K>::empty());
        assert(right@.take(0) =~= Seq::<K>::empty());
        assert(merged@.to_multiset() =~= left@.take(0).to_multiset().add(
            right@.take(0).to_multiset(),
        )) by {
            broadcast use vstd::seq_lib::group_to_multiset_ensures;

        }
    }
    while i < left.len() || j < right.len()
        invariant
            i <= left@.len(),
            j <= right@.len(),
            sorted_keys(left@),
            sorted_keys(right@),
            sorted_keys(merged@),
            merged@.len() == i + j,
            left@.len() + right@.len() <= usize::MAX,
            merged@.to_multiset() == left@.take(i as int).to_multiset().add(
                right@.take(j as int).to_multiset(),
            ),
            forall|k: int|
                0 <= k < merged@.len() && i < left@.len() ==> (#[trigger] merged@[k]).rank()
                    <= left@[i as int].rank(),
            forall|k: int|
                0 <= k < merged@.len() && j < right@.len() ==> (#[trigger] merged@[k]).rank()
                    <= right@[j as int].rank(),
        decreases (left@.len() - i) + (right@.len() - j),
    {
        let ghost before = merged@;
        let take_left = if i >= left.len() {
            false
        } else if j >= right.len() {
            true
        } else {
            !right[j].less(&left[i])
        };
        if take_left {
            merged.push(left[i]);
            proof {
                assert(left@.take(i + 1) =~= left@.take(i as int).push(left@[i as int]));
                vstd::seq_lib::to_multiset_build(before, left@[i as int]);
                vstd::seq_lib::to_multiset_build(left@.take(i as int), left@[i as int]);
                assert(merged@.to_multiset() =~= left@.take(i + 1).to_multiset().add(
                    right@.take(j as int).to_multiset(),
                ));
            }
            i = i + 1;
        } else {
            merged.push(right[j]);
            proof {
                assert(right@.take(j + 1) =~= right@.take(j as int).push(right@[j as int]));
                vstd::seq_lib::to_multiset_build(before, right@[j as int]);
                vstd::seq_lib::to_multiset_build(right@.take(j as int), right@[j as int]);
                assert(merged@.to_multiset() =~= left@.take(i as int).to_multiset().add(
                    right@.take(j + 1).to_multiset(),
                ));
            }
            j = j + 1;
        }
    }
    proof {
        assert(left@.take(i as int) =~= left@);
        assert(right@.take(j as int) =~= right@);
    }
    merged
}

/// Sorts keys into key order.
pub fn sort_keys<K: TableKey>(keys: Vec<K>) -> (sorted: Vec<K>)
    ensures
        sorted_keys(sorted@),
        sorted@.to_multiset() == keys@.to_multiset(),
        sorted@.len() == keys@.len(),
    decreases keys@.len(),
{
    let n = keys.len();
    if n <= 1 {
        return keys;
    }
    let mut left = keys;
    let right = left.split_off(n / 2);
    proof {
        assert(keys@ =~= left@ + right@);
        vstd::seq_lib::lemma_multiset_commutative(left@, right@);
    }
    let left = sort_keys(left);
    let right = sort_keys(right);
    merge_keys(&left, &right)
}

/// Lists of the same keys, in whatever order, name the same keys.
pub proof fn lemma_same_keys<K: TableKey>(a: Seq<K>, b: Seq<K>)
    requires
        a.to_multiset() == b.to_multiset(),
    ensures
        forall|k: K| a.contains(k) == b.contains(k),
{
    assert forall|k: K| a.contains(k) == b.contains(k) by {
        vstd::seq_lib::to_multiset_contains(a, k);
        vstd::seq_lib::to_multiset_contains(b, k);
    }
}

} // verus!
