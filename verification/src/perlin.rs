//! Perlin permutation tables: each axis carries a shuffled permutation
//! of `0..256`.  The gradient field and the trilinear smoothing are
//! floating-point and live in the shell; the tables themselves are
//! verified to be permutations.

use vstd::prelude::*;

use crate::sampler::random_below;

verus! {

pub const POINT_COUNT: usize = 256;

/// The identity table `0, 1, .., 255`.
pub open spec fn identity_perm() -> Seq<usize> {
    Seq::new(POINT_COUNT as nat, |i: int| i as usize)
}

/// A permutation table: the same entries as the identity, in some order.
pub open spec fn perm_wf(p: Seq<usize>) -> bool {
    p.len() == POINT_COUNT && p.to_multiset() == identity_perm().to_multiset()
}

pub struct Perlin {
    pub perm_x: Vec<usize>,
    pub perm_y: Vec<usize>,
    pub perm_z: Vec<usize>,
}

pub open spec fn perlin_wf(p: Perlin) -> bool {
    perm_wf(p.perm_x@) && perm_wf(p.perm_y@) && perm_wf(p.perm_z@)
}

impl Perlin {
    /// Three freshly shuffled permutation tables.
    pub fn new() -> (p: Perlin)
        ensures
            perlin_wf(p),
    {
        Perlin {
            perm_x: Self::perlin_generate_perm(),
            perm_y: Self::perlin_generate_perm(),
            perm_z: Self::perlin_generate_perm(),
        }
    }

    /// The identity table, shuffled.
    pub fn perlin_generate_perm() -> (p: Vec<usize>)
        ensures
            perm_wf(p@),
    {
        let mut p: Vec<usize> = Vec::new();
        let mut i: usize = 0;
        while i < POINT_COUNT
            invariant
                i <= POINT_COUNT,
                p@.len() == i,
                forall|j: int| 0 <= j < i ==> p@[j] == j,
            decreases POINT_COUNT - i,
        {
            p.push(i);
            i = i + 1;
        }
        proof {
            assert(p@ =~= identity_perm());
        }
        Self::permute(&mut p, POINT_COUNT);
        p
    }

    /// A Fisher–Yates shuffle: swap each slot down from the top with a
    /// random earlier slot.  The entries are only rearranged.
    pub fn permute(p: &mut Vec<usize>, n: usize)
        requires
            n == old(p)@.len(),
        ensures
            final(p)@.len() == old(p)@.len(),
            final(p)@.to_multiset() == old(p)@.to_multiset(),
    {
        let mut i: usize = n;
        while i > 1
            invariant
                i <= n,
                n == p@.len(),
                p@.to_multiset() == old(p)@.to_multiset(),
            decreases i,
        {
            i = i - 1;
            let target = random_below(i + 1);
            let a = p[i];
            let b = p[target];
            let ghost prev = p@;
            p.set(i, b);
            p.set(target, a);
            proof {
                lemma_swap_keeps_multiset(prev, i as int, target as int, a, b);
                assert(p@ == prev.update(i as int, b).update(target as int, a));
            }
        }
    }
}

/// Writing two slots' values into each other's places keeps the multiset.
proof fn lemma_swap_keeps_multiset(prev: Seq<usize>, i: int, j: int, a: usize, b: usize)
    requires
        0 <= i < prev.len(),
        0 <= j < prev.len(),
        prev[i] == a,
        prev[j] == b,
    ensures
        prev.update(i, b).update(j, a).to_multiset() == prev.to_multiset(),
{
    broadcast use vstd::seq_lib::to_multiset_update;
    broadcast use vstd::seq_lib::group_to_multiset_ensures;
    broadcast use vstd::multiset::group_multiset_axioms;
    broadcast use vstd::multiset::group_multiset_properties;

    if i == j {
        assert(prev.update(i, b).update(j, a) =~= prev);
    } else {
        let m1 = prev.update(i, b);
        assert(m1.to_multiset() == prev.to_multiset().insert(b).remove(a));
        assert(m1[j] == b);
        assert(m1.update(j, a).to_multiset() == m1.to_multiset().insert(a).remove(b));
        assert(prev.contains(a));
        assert(prev.to_multiset().count(a) > 0);
        assert(m1.update(j, a).to_multiset() =~= prev.to_multiset());
    }
}

} // verus!
