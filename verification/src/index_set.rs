//! Sets of positions, kept in a `BTreeSet`, and their list in ascending
//! order.
use crate::selection::ascending;
use std::collections::BTreeSet;
use vstd::prelude::*;
use vstd::std_specs::btree::{
    axiom_increasing_seq_meaning, axiom_spec_btree_keys_iter, group_btree_axioms, increasing_seq,
    spec_btree_keys_iter,
};
use vstd::std_specs::cmp::OrdSpec;
use vstd::std_specs::iter::IteratorSpec;

verus! {

/// Puts every position from `first` to `last` into the set.
pub fn insert_positions(set: &mut BTreeSet<usize>, first: usize, last: usize)
    requires
        first <= last,
    ensures
        forall|n: usize|
            #[trigger] final(set)@.contains(n) <==> (old(set)@.contains(n) || first <= n <= last),
{
    broadcast use group_btree_axioms;

    let mut i: usize = first;
    loop
        invariant_except_break
            forall|n: usize|
                #[trigger] set@.contains(n) <==> (old(set)@.contains(n) || first <= n < i),
        invariant
            first <= i <= last,
        ensures
            forall|n: usize|
                #[trigger] set@.contains(n) <==> (old(set)@.contains(n) || first <= n <= last),
        decreases last - i,
    {
        set.insert(i);
        if i == last {
            break ;
        }
        i = i + 1;
    }
}

/// The positions of the set in ascending order, each once.
pub fn ascending_list(set: &BTreeSet<usize>) -> (v: Vec<usize>)
    ensures
        ascending(v@),
        v@.len() == set@.len(),
        forall|n: usize| #[trigger] v@.contains(n) <==> set@.contains(n),
{
    broadcast use group_btree_axioms;

    let mut v: Vec<usize> = Vec::new();
    let ghost keys = spec_btree_keys_iter(set).remaining();
    for x in it: set.iter()
        invariant
            it.seq() == keys,
            v@.len() == it.index(),
            forall|k: int| 0 <= k < it.index() ==> v@[k] == *it.seq()[k],
    {
        v.push(*x);
    }
    proof {
        axiom_spec_btree_keys_iter(set);
        assert(v@ =~= keys.unref());
        assert forall|n: usize| #[trigger] v@.contains(n) <==> set@.contains(n) by {
            assert(v@.to_set().contains(n) <==> v@.contains(n));
        }
        assert(increasing_seq(keys));
        axiom_increasing_seq_meaning::<&usize>(keys);
        assert forall|i: int, j: int| 0 <= i < j < v@.len() implies v@[i] < v@[j] by {
            assert(OrdSpec::cmp_spec(&keys[i], &keys[j]) is Less);
        }
    }
    v
}

} // verus!
