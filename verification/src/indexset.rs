//! Sets of screen numbers, held in a `BTreeSet<u32>`, and vectors of
//! screen numbers kept in increasing order.

use vstd::prelude::*;
use std::collections::BTreeSet;
use vstd::std_specs::iter::IteratorSpec;

verus! {

/// Whether each element of `s` is smaller than the next.
pub open spec fn increasing_u32(s: Seq<u32>) -> bool {
    forall|i: int, j: int| 0 <= i < j < s.len() ==> s[i] < s[j]
}

/// An empty set of screen numbers.
pub fn empty_indices() -> (r: BTreeSet<u32>)
    ensures
        r@ == Set::<u32>::empty(),
{
    BTreeSet::new()
}

/// Adds `index` to `set`.
pub fn add_index(set: &mut BTreeSet<u32>, index: u32)
    ensures
        final(set)@ == old(set)@.insert(index),
{
    broadcast use vstd::laws_cmp::group_laws_cmp;
    set.insert(index);
}

/// Whether `set` holds `index`.
pub fn has_index(set: &BTreeSet<u32>, index: u32) -> (r: bool)
    ensures
        r == set@.contains(index),
{
    broadcast use vstd::std_specs::btree::group_btree_axioms;
    broadcast use vstd::laws_cmp::group_laws_cmp;
    set.contains(&index)
}

/// The numbers of `set`, each once, in the order the set hands them out.
fn listed_indices(set: &BTreeSet<u32>) -> (r: Vec<u32>)
    ensures
        forall|x: u32| r@.contains(x) <==> set@.contains(x),
{
    broadcast use vstd::std_specs::btree::group_btree_axioms;
    broadcast use vstd::laws_cmp::group_laws_cmp;
    let mut r: Vec<u32> = Vec::new();
    let ghost keys = vstd::std_specs::btree::spec_btree_keys_iter(set).remaining();
    for x in it: set.iter()
        invariant
            it.seq() == keys,
            r.len() == it.index(),
            forall|k: int| 0 <= k < r.len() ==> r@[k] == *keys[k],
    {
        r.push(*x);
    }
    proof {
        assert(keys.unref().to_set() == set@);
        assert(r@ =~= keys.unref());
        assert forall|x: u32| r@.contains(x) <==> set@.contains(x) by {
            if set@.contains(x) {
                assert(keys.unref().to_set().contains(x));
            }
        }
    }
    r
}

/// The numbers of `set`, increasing.
pub fn sorted_indices(set: &BTreeSet<u32>) -> (r: Vec<u32>)
    ensures
        increasing_u32(r@),
        forall|x: u32| r@.contains(x) <==> set@.contains(x),
{
    let listed = listed_indices(set);
    let mut r: Vec<u32> = Vec::new();
    merge_indices(&mut r, &listed);
    r
}

/// What inserting `x` into `s` holds: what `s` held, and `x`.
pub proof fn lemma_insert_contains(s: Seq<u32>, p: int, x: u32)
    requires
        0 <= p <= s.len(),
    ensures
        forall|w: u32| #[trigger] s.insert(p, x).contains(w) <==> (s.contains(w) || w == x),
{
    let t = s.insert(p, x);
    assert forall|w: u32| #[trigger] t.contains(w) <==> (s.contains(w) || w == x) by {
        if t.contains(w) {
            let k = choose|k: int| 0 <= k < t.len() && t[k] == w;
            if k < p {
                assert(s[k] == w);
            } else if k > p {
                assert(s[k - 1] == w);
            }
        }
        if s.contains(w) {
            let k = choose|k: int| 0 <= k < s.len() && s[k] == w;
            if k < p {
                assert(t[k] == w);
            } else {
                assert(t[k + 1] == w);
            }
        }
        if w == x {
            assert(t[p] == w);
        }
    }
}

/// Puts `x` into an increasing vector unless it is already there.
pub fn insert_index(v: &mut Vec<u32>, x: u32)
    requires
        increasing_u32(old(v)@),
    ensures
        increasing_u32(final(v)@),
        forall|w: u32| final(v)@.contains(w) <==> (old(v)@.contains(w) || w == x),
{
    let mut p: usize = 0;
    while p < v.len() && v[p] < x
        invariant
            p <= v@.len(),
            v@ == old(v)@,
            forall|k: int| 0 <= k < p ==> v@[k] < x,
        decreases v@.len() - p,
    {
        p = p + 1;
    }
    if p < v.len() && v[p] == x {
        assert(v@[p as int] == x);
        assert forall|w: u32| v@.contains(w) <==> (old(v)@.contains(w) || w == x) by {
            if w == x {
                assert(v@[p as int] == w);
            }
        }
        return;
    }
    let ghost before = v@;
    v.insert(p, x);
    proof {
        assert(v@ == before.insert(p as int, x));
        assert forall|i: int, j: int| 0 <= i < j < v@.len() implies v@[i] < v@[j] by {
            if i < p && j > p {
                assert(before[j - 1] >= before[p as int]);
            } else if i == p {
                assert(before[j - 1] >= before[p as int]);
            }
        }
        lemma_insert_contains(before, p as int, x);
    }
}

/// Adds the numbers of `indices` to an increasing vector, each once.
pub fn merge_indices(r: &mut Vec<u32>, indices: &Vec<u32>)
    requires
        increasing_u32(old(r)@),
    ensures
        increasing_u32(final(r)@),
        forall|w: u32| #![trigger final(r)@.contains(w)]
            final(r)@.contains(w) <==> (old(r)@.contains(w) || indices@.contains(w)),
{
    let ghost start = r@;
    let mut j: usize = 0;
    while j < indices.len()
        invariant
            j <= indices@.len(),
            start == old(r)@,
            increasing_u32(r@),
            forall|w: u32| #![trigger r@.contains(w)]
                r@.contains(w) <==> (start.contains(w) || indices@.subrange(0, j as int).contains(w)),
        decreases indices@.len() - j,
    {
        let ghost mid = r@;
        let x = indices[j];
        insert_index(r, x);
        proof {
            assert forall|w: u32| #![trigger r@.contains(w)]
                r@.contains(w) <==> (start.contains(w) || indices@.subrange(0, j + 1).contains(w)) by {
                let old_part = indices@.subrange(0, j as int);
                let new_part = indices@.subrange(0, j + 1);
                assert(r@.contains(w) <==> (mid.contains(w) || w == x));
                assert(mid.contains(w) <==> (start.contains(w) || old_part.contains(w)));
                if new_part.contains(w) {
                    let k = choose|k: int| 0 <= k < new_part.len() && new_part[k] == w;
                    if k < j {
                        assert(old_part[k] == w);
                    }
                }
                if old_part.contains(w) {
                    let k = choose|k: int| 0 <= k < old_part.len() && old_part[k] == w;
                    assert(new_part[k] == w);
                }
                if w == x {
                    assert(new_part[j as int] == w);
                }
            }
        }
        j = j + 1;
    }
    assert(indices@.subrange(0, indices@.len() as int) =~= indices@);
}

} // verus!
