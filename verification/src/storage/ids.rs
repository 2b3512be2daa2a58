//! Sets of block ids.

use std::collections::BTreeSet;
use vstd::prelude::*;
use vstd::std_specs::cmp::OrdSpec;
use vstd::std_specs::iter::IteratorSpec;

verus! {

/// Numbers behind references are ordered as the numbers are.
proof fn lemma_reference_order()
    ensures
        vstd::laws_cmp::obeys_cmp::<&u64>(),
{
    broadcast use vstd::laws_cmp::group_laws_cmp;

    reveal(vstd::laws_cmp::obeys_cmp_partial_ord);
    reveal(vstd::laws_cmp::obeys_cmp_ord);
    assert(vstd::laws_cmp::obeys_cmp::<u64>());
}

/// The members of a set in ascending order.
pub fn ascending(set: &BTreeSet<u64>) -> (r: Vec<u64>)
    ensures
        r@.to_set() == set@,
        forall|i: int, j: int| 0 <= i < j < r@.len() ==> r@[i] < r@[j],
{
    let mut out: Vec<u64> = Vec::new();
    let ghost all = vstd::std_specs::btree::spec_btree_keys_iter(set).remaining();
    proof {
        lemma_reference_order();
        vstd::std_specs::btree::axiom_spec_btree_keys_iter(set);
        vstd::std_specs::btree::axiom_increasing_seq_meaning(all);
    }
    for id in iter: set.iter()
        invariant
            iter.seq() == all,
            out@.len() == iter.index(),
            forall|i: int| 0 <= i < out@.len() ==> out@[i] == *all[i],
    {
        out.push(*id);
    }
    assert(out@ =~= all.unref());
    assert forall|i: int, j: int| 0 <= i < j < out@.len() implies out@[i] < out@[j] by {
        assert(OrdSpec::cmp_spec(&all[i], &all[j]) is Less);
    }
    out
}

} // verus!
