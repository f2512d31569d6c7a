//! The set of positions at which a block begins, and how it is read in order.

use std::collections::BTreeSet;
use vstd::prelude::*;
use vstd::std_specs::btree::increasing_seq;
use vstd::std_specs::cmp::OrdSpec;
use vstd::std_specs::iter::IteratorSpec;

verus! {

broadcast use {vstd::std_specs::btree::group_btree_axioms, vstd::laws_cmp::group_laws_cmp};

/// Whether every item of `s` is below those behind it.
pub open spec fn ascending(s: Seq<usize>) -> bool {
    forall|i: int, j: int| 0 <= i < j < s.len() ==> s[i] < s[j]
}

/// An empty set.
pub fn empty() -> (set: BTreeSet<usize>)
    ensures
        set@ == Set::<usize>::empty(),
{
    BTreeSet::new()
}

/// Puts `label` into the set.
pub fn insert(set: &mut BTreeSet<usize>, label: usize)
    ensures
        final(set)@ == old(set)@.insert(label),
{
    set.insert(label);
}

/// The items of the set, lowest first.
pub fn in_order(set: &BTreeSet<usize>) -> (v: Vec<usize>)
    ensures
        v@.to_set() == set@,
        ascending(v@),
{
    let mut v: Vec<usize> = Vec::new();
    let it = set.iter();
    let ghost all = it.remaining();
    assert(all.unref().to_set() == set@);
    assert(increasing_seq(all));
    for x in iter: it
        invariant
            iter.seq() == all,
            v@.len() == iter.index(),
            forall|i: int| 0 <= i < v.len() ==> v@[i] == *iter.seq()[i],
    {
        v.push(*x);
    }
    assert(v@ =~= all.unref());
    assert forall|i: int, j: int| 0 <= i < j < v.len() implies v[i] < v[j] by {
        assert((&all[i]).cmp_spec(&all[j]) is Less);
    }
    v
}

} // verus!
