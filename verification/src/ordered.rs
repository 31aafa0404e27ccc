//! Ordered walks over the standard B-tree collections: the keys come out
//! in increasing order, each once.

use vstd::prelude::*;

use std::collections::{BTreeMap, BTreeSet};
use vstd::std_specs::btree::{increasing_seq, spec_btree_keys_iter, spec_keys_iter};
use vstd::std_specs::cmp::OrdSpec;
use vstd::std_specs::iter::IteratorSpec;

verus! {

/// Each element is smaller than every later one.
pub open spec fn increasing_u64(s: Seq<u64>) -> bool {
    forall|i: int, j: int| 0 <= i < j < s.len() ==> s[i] < s[j]
}

/// Each element is smaller than every later one.
pub open spec fn increasing_u32(s: Seq<u32>) -> bool {
    forall|i: int, j: int| 0 <= i < j < s.len() ==> s[i] < s[j]
}

proof fn lemma_increasing_u64_refs(s: Seq<&u64>)
    requires
        increasing_seq(s),
    ensures
        increasing_u64(s.unref()),
{
    broadcast use vstd::laws_cmp::group_laws_cmp;

    assert(vstd::laws_cmp::obeys_cmp::<u64>());
    assert(vstd::laws_cmp::obeys_cmp::<&u64>());
    vstd::std_specs::btree::axiom_increasing_seq_meaning(s);
    assert forall|i: int, j: int| 0 <= i < j < s.len() implies s.unref()[i] < s.unref()[j] by {
        assert(OrdSpec::cmp_spec(&s[i], &s[j]) is Less);
    }
}

proof fn lemma_increasing_u32_refs(s: Seq<&u32>)
    requires
        increasing_seq(s),
    ensures
        increasing_u32(s.unref()),
{
    broadcast use vstd::laws_cmp::group_laws_cmp;

    assert(vstd::laws_cmp::obeys_cmp::<u32>());
    assert(vstd::laws_cmp::obeys_cmp::<&u32>());
    vstd::std_specs::btree::axiom_increasing_seq_meaning(s);
    assert forall|i: int, j: int| 0 <= i < j < s.len() implies s.unref()[i] < s.unref()[j] by {
        assert(OrdSpec::cmp_spec(&s[i], &s[j]) is Less);
    }
}

/// The elements of `set`, smallest first.
pub fn sorted_u64s(set: &BTreeSet<u64>) -> (r: Vec<u64>)
    ensures
        r@.to_set() == set@,
        increasing_u64(r@),
        r@.len() == set@.len(),
{
    let ghost s = spec_btree_keys_iter(set).remaining();
    let mut out: Vec<u64> = Vec::new();
    for x in it: set.iter()
        invariant
            it.seq() == s,
            out@.len() == it.index(),
            forall|i: int| 0 <= i < out@.len() ==> out@[i] == *s[i],
    {
        out.push(*x);
    }
    proof {
        assert(out@ =~= s.unref());
        lemma_increasing_u64_refs(s);
    }
    out
}

/// The elements of `set`, smallest first.
pub fn sorted_u32s(set: &BTreeSet<u32>) -> (r: Vec<u32>)
    ensures
        r@.to_set() == set@,
        increasing_u32(r@),
        r@.len() == set@.len(),
{
    let ghost s = spec_btree_keys_iter(set).remaining();
    let mut out: Vec<u32> = Vec::new();
    for x in it: set.iter()
        invariant
            it.seq() == s,
            out@.len() == it.index(),
            forall|i: int| 0 <= i < out@.len() ==> out@[i] == *s[i],
    {
        out.push(*x);
    }
    proof {
        assert(out@ =~= s.unref());
        lemma_increasing_u32_refs(s);
    }
    out
}

/// The keys of `map`, smallest first.
pub fn sorted_keys<V>(map: &BTreeMap<u32, V>) -> (r: Vec<u32>)
    ensures
        r@.to_set() == map@.dom(),
        increasing_u32(r@),
        r@.len() == map@.dom().len(),
{
    let ghost s = spec_keys_iter(map).remaining();
    let mut out: Vec<u32> = Vec::new();
    for x in it: map.keys()
        invariant
            it.seq() == s,
            out@.len() == it.index(),
            forall|i: int| 0 <= i < out@.len() ==> out@[i] == *s[i],
    {
        out.push(*x);
    }
    proof {
        assert(out@ =~= s.unref());
        lemma_increasing_u32_refs(s);
    }
    out
}

} // verus!
