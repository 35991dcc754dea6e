//! The bounding-volume hierarchy: a binary tree of boxes over scene
//! primitives, pruning intersection queries by the slab test.
//!
//! Construction picks a random axis per node, sorts the span of
//! primitive indices by box minimum on that axis, and splits at the
//! midpoint; a single-element span duplicates its leaf.  Traversal
//! queries the left child first, then the right child with the window
//! tightened to the left child's hit, exactly as the contract `bvh_hit_t`
//! spells out.

use vstd::prelude::*;

use crate::aabb::{aabb_wf, slab_hit, AABB};
use crate::cube::{step_best, step_window};
use crate::hittable::{record_on_ray, record_wf, HitRecord};
use crate::primitive::{prim_bbox, prim_hit_rec, prim_hit_t, prim_wf, Primitive};
use crate::ray::{ray_wf, Ray};
use crate::sampler::random_axis;
use crate::scalar::{frac_le, lemma_frac_le_trans, Frac, Rat};
use crate::vec3::{component_s, Vec3, COORD_MAX};

verus! {

pub enum BvhChild {
    Node(Box<BvhNode>),
    Leaf(usize),
}

pub struct BvhNode {
    pub left: BvhChild,
    pub right: BvhChild,
    pub aabb: AABB,
}

pub open spec fn child_height(c: BvhChild) -> nat
    decreases c,
{
    match c {
        BvhChild::Leaf(_) => 0,
        BvhChild::Node(b) => node_height(*b) + 1,
    }
}

pub open spec fn node_height(n: BvhNode) -> nat
    decreases n,
{
    1 + if child_height(n.left) >= child_height(n.right) {
        child_height(n.left)
    } else {
        child_height(n.right)
    }
}

/// The set of primitive indices a subtree stands for.
pub open spec fn child_idx_set(c: BvhChild) -> Set<usize>
    decreases c,
{
    match c {
        BvhChild::Leaf(i) => Set::empty().insert(i),
        BvhChild::Node(b) => node_idx_set(*b),
    }
}

pub open spec fn node_idx_set(n: BvhNode) -> Set<usize>
    decreases n,
{
    child_idx_set(n.left).union(child_idx_set(n.right))
}

/// Every leaf of the subtree indexes a real primitive.
pub open spec fn child_valid(c: BvhChild, n_prims: int) -> bool
    decreases c,
{
    match c {
        BvhChild::Leaf(i) => 0 <= i < n_prims,
        BvhChild::Node(b) => node_valid(*b, n_prims),
    }
}

pub open spec fn node_valid(n: BvhNode, n_prims: int) -> bool
    decreases n,
{
    child_valid(n.left, n_prims) && child_valid(n.right, n_prims)
}

/// The box a child contributes to its parent: its own box, or the
/// degenerate default box when a leaf primitive is unbounded.
pub open spec fn child_box(c: BvhChild, prims: Seq<Primitive>, tm0: int, tm1: int) -> AABB
    decreases c,
{
    match c {
        BvhChild::Leaf(i) => match prim_bbox(prims[i as int], tm0, tm1) {
            Some(bb) => bb,
            None => AABB {
                minimum: Vec3 { x: 0, y: 0, z: 0 },
                maximum: Vec3 { x: 0, y: 0, z: 0 },
            },
        },
        BvhChild::Node(b) => b.aabb,
    }
}

/// Every node's stored box is the union of its children's boxes.
pub open spec fn node_boxes_consistent(
    n: BvhNode,
    prims: Seq<Primitive>,
    tm0: int,
    tm1: int,
) -> bool
    decreases n,
{
    &&& n.aabb == AABB::spec_surrounding(
        child_box(n.left, prims, tm0, tm1),
        child_box(n.right, prims, tm0, tm1),
    )
    &&& (n.left matches BvhChild::Node(b) ==> node_boxes_consistent(*b, prims, tm0, tm1))
    &&& (n.right matches BvhChild::Node(b) ==> node_boxes_consistent(*b, prims, tm0, tm1))
}

/// What traversal reports: nothing when the node box fails the slab
/// test; otherwise the left report, tightened into the right query.
pub open spec fn bvh_hit_t(
    n: BvhNode,
    prims: Seq<Primitive>,
    r: Ray,
    t0: Frac,
    t1: Frac,
) -> Option<Frac>
    decreases node_height(n) + 1,
{
    if !slab_hit(n.aabb, r, t0, t1) {
        None
    } else {
        let hl = child_hit_t(n.left, prims, r, t0, t1);
        let hr = child_hit_t(n.right, prims, r, t0, step_window(t1, hl));
        step_best(hl, hr)
    }
}

pub open spec fn child_hit_t(
    c: BvhChild,
    prims: Seq<Primitive>,
    r: Ray,
    t0: Frac,
    t1: Frac,
) -> Option<Frac>
    decreases child_height(c) + 1,
{
    match c {
        BvhChild::Leaf(i) => prim_hit_t(prims[i as int], r, t0, t1),
        BvhChild::Node(b) => bvh_hit_t(*b, prims, r, t0, t1),
    }
}

/// What traversal reports, record and all: the same scheme as
/// `bvh_hit_t`, carrying the nearest member's whole record.
pub open spec fn bvh_hit_rec(
    n: BvhNode,
    prims: Seq<Primitive>,
    r: Ray,
    t0: Frac,
    t1: Frac,
) -> Option<HitRecord>
    decreases node_height(n) + 1,
{
    if !slab_hit(n.aabb, r, t0, t1) {
        None
    } else {
        let hl = child_hit_rec(n.left, prims, r, t0, t1);
        let w = match hl {
            Option::Some(rec) => rec.t@,
            Option::None => t1,
        };
        let hr = child_hit_rec(n.right, prims, r, t0, w);
        match hr {
            Option::Some(rec) => Some(rec),
            Option::None => hl,
        }
    }
}

pub open spec fn child_hit_rec(
    c: BvhChild,
    prims: Seq<Primitive>,
    r: Ray,
    t0: Frac,
    t1: Frac,
) -> Option<HitRecord>
    decreases child_height(c) + 1,
{
    match c {
        BvhChild::Leaf(i) => prim_hit_rec(prims[i as int], r, t0, t1),
        BvhChild::Node(b) => bvh_hit_rec(*b, prims, r, t0, t1),
    }
}

impl BvhNode {
    /// Build the tree over all primitives of the scene.
    pub fn new(prims: &Vec<Primitive>, time0: i64, time1: i64) -> (n: BvhNode)
        requires
            prims.len() > 0,
            forall|j: int| 0 <= j < prims.len() ==> prim_wf(#[trigger] prims[j]),
            -COORD_MAX <= time0 <= COORD_MAX,
            -COORD_MAX <= time1 <= COORD_MAX,
        ensures
            node_valid(n, prims.len() as int),
            node_idx_set(n) =~= Set::new(|i: usize| i < prims.len()),
            node_boxes_consistent(n, prims@, time0 as int, time1 as int),
            aabb_wf_rec(n),
    {
        let mut idxs: Vec<usize> = Vec::new();
        let n_total = prims.len();
        let mut i: usize = 0;
        while i < n_total
            invariant
                i <= n_total,
                idxs@.len() == i,
                forall|j: int| 0 <= j < i ==> idxs@[j] == j,
            decreases n_total - i,
        {
            idxs.push(i);
            i = i + 1;
        }
        proof {
            assert forall|x: usize| idxs@.to_set().contains(x) <==> x < prims.len() by {
                if x < prims.len() {
                    assert(idxs@[x as int] == x);
                }
            }
            assert(idxs@.to_set() =~= Set::new(|i: usize| i < prims.len()));
        }
        Self::build(prims, idxs, time0, time1)
    }

    /// Build a subtree over the given span of indices.
    fn build(prims: &Vec<Primitive>, idxs: Vec<usize>, time0: i64, time1: i64) -> (n: BvhNode)
        requires
            idxs.len() > 0,
            forall|j: int| 0 <= j < idxs.len() ==> idxs[j] < prims.len(),
            forall|j: int| 0 <= j < prims.len() ==> prim_wf(#[trigger] prims[j]),
            -COORD_MAX <= time0 <= COORD_MAX,
            -COORD_MAX <= time1 <= COORD_MAX,
        ensures
            node_valid(n, prims.len() as int),
            node_idx_set(n) =~= idxs@.to_set(),
            node_boxes_consistent(n, prims@, time0 as int, time1 as int),
            aabb_wf_rec(n),
        decreases idxs.len(),
    {
        let axis = random_axis();
        let (left, right): (BvhChild, BvhChild) = if idxs.len() == 1 {
            (BvhChild::Leaf(idxs[0]), BvhChild::Leaf(idxs[0]))
        } else if idxs.len() == 2 {
            let k0 = sort_key(prims, idxs[0], axis, time0, time1);
            let k1 = sort_key(prims, idxs[1], axis, time0, time1);
            if k0 < k1 {
                (BvhChild::Leaf(idxs[0]), BvhChild::Leaf(idxs[1]))
            } else {
                (BvhChild::Leaf(idxs[1]), BvhChild::Leaf(idxs[0]))
            }
        } else {
            let sorted = sort_by_key(prims, idxs, axis, time0, time1);
            let mid = sorted.len() / 2;
            let mut left_part: Vec<usize> = Vec::new();
            let mut right_part: Vec<usize> = Vec::new();
            let mut j: usize = 0;
            while j < mid
                invariant
                    mid <= sorted@.len(),
                    j <= mid,
                    left_part@ =~= sorted@.subrange(0, j as int),
                decreases mid - j,
            {
                left_part.push(sorted[j]);
                j = j + 1;
            }
            let mut j2: usize = mid;
            while j2 < sorted.len()
                invariant
                    mid <= sorted@.len(),
                    mid <= j2 <= sorted@.len(),
                    right_part@ =~= sorted@.subrange(mid as int, j2 as int),
                decreases sorted@.len() - j2,
            {
                right_part.push(sorted[j2]);
                j2 = j2 + 1;
            }
            proof {
                assert(sorted@.subrange(0, mid as int) + sorted@.subrange(
                    mid as int,
                    sorted@.len() as int,
                ) =~= sorted@);
                lemma_to_set_concat(
                    sorted@.subrange(0, mid as int),
                    sorted@.subrange(mid as int, sorted@.len() as int),
                );
                lemma_multiset_eq_to_set_eq(sorted@, idxs@);
            }
            let ln = Self::build(prims, left_part, time0, time1);
            let rn = Self::build(prims, right_part, time0, time1);
            (BvhChild::Node(Box::new(ln)), BvhChild::Node(Box::new(rn)))
        };
        let box0 = child_bounding_box(&left, prims, time0, time1);
        let box1 = child_bounding_box(&right, prims, time0, time1);
        BvhNode { left, right, aabb: AABB::surrounding_box(box0, box1) }
    }

    /// The cached box, folded at construction.
    pub fn bounding_box(&self, _time0: i64, _time1: i64) -> (res: Option<AABB>)
        ensures
            res == Some(self.aabb),
    {
        Some(self.aabb)
    }

    /// Traverse: prune by the node box, then query left, then right with
    /// the window tightened to the left hit.
    pub fn hit(&self, prims: &Vec<Primitive>, ray: &Ray, t_min: &Rat, t_max: &Rat) -> (res: Option<
        HitRecord,
    >)
        requires
            node_valid(*self, prims.len() as int),
            forall|j: int| 0 <= j < prims.len() ==> prim_wf(#[trigger] prims[j]),
            aabb_wf_rec(*self),
            ray_wf(*ray),
            t_min.wf(),
            t_max.wf(),
        ensures
            res == bvh_hit_rec(*self, prims@, *ray, t_min@, t_max@),
            res matches Some(rec) ==> {
                &&& bvh_hit_t(*self, prims@, *ray, t_min@, t_max@) == Some(rec.t@)
                &&& record_wf(rec)
                &&& record_on_ray(rec, *ray)
                &&& frac_le(t_min@, rec.t@)
                &&& frac_le(rec.t@, t_max@)
            },
            res is None ==> bvh_hit_t(*self, prims@, *ray, t_min@, t_max@) is None,
        decreases node_height(*self) + 1,
    {
        if !self.aabb.hit(ray, t_min, t_max) {
            return None;
        }
        let hit_left = child_hit(&self.left, prims, ray, t_min, t_max);
        let window = match &hit_left {
            Some(rec) => rec.t,
            None => *t_max,
        };
        let hit_right = child_hit(&self.right, prims, ray, t_min, &window);
        match (&hit_left, &hit_right) {
            (_, Some(rec)) => {
                proof {
                    lemma_frac_le_trans(rec.t@, window@, t_max@);
                }
                hit_right
            },
            (Some(_), _) => hit_left,
            _ => None,
        }
    }
}

/// The slab boxes along the whole tree are well formed.
pub open spec fn aabb_wf_rec(n: BvhNode) -> bool
    decreases node_height(n),
{
    &&& aabb_wf(n.aabb)
    &&& (n.left matches BvhChild::Node(b) ==> aabb_wf_rec(*b))
    &&& (n.right matches BvhChild::Node(b) ==> aabb_wf_rec(*b))
}

/// Query one child.
fn child_hit(c: &BvhChild, prims: &Vec<Primitive>, ray: &Ray, t_min: &Rat, t_max: &Rat) -> (res:
    Option<HitRecord>)
    requires
        child_valid(*c, prims.len() as int),
        forall|j: int| 0 <= j < prims.len() ==> prim_wf(#[trigger] prims[j]),
        c matches BvhChild::Node(b) ==> aabb_wf_rec(**b),
        ray_wf(*ray),
        t_min.wf(),
        t_max.wf(),
    ensures
        res == child_hit_rec(*c, prims@, *ray, t_min@, t_max@),
        res matches Some(rec) ==> {
            &&& child_hit_t(*c, prims@, *ray, t_min@, t_max@) == Some(rec.t@)
            &&& record_wf(rec)
            &&& record_on_ray(rec, *ray)
            &&& frac_le(t_min@, rec.t@)
            &&& frac_le(rec.t@, t_max@)
        },
        res is None ==> child_hit_t(*c, prims@, *ray, t_min@, t_max@) is None,
    decreases child_height(*c) + 1,
{
    match c {
        BvhChild::Leaf(i) => prims[*i].hit(ray, t_min, t_max),
        BvhChild::Node(b) => b.hit(prims, ray, t_min, t_max),
    }
}

/// A child's contribution to its parent's box.
fn child_bounding_box(c: &BvhChild, prims: &Vec<Primitive>, time0: i64, time1: i64) -> (bb: AABB)
    requires
        child_valid(*c, prims.len() as int),
        forall|j: int| 0 <= j < prims.len() ==> prim_wf(#[trigger] prims[j]),
        c matches BvhChild::Node(b) ==> aabb_wf(b.aabb),
        -COORD_MAX <= time0 <= COORD_MAX,
        -COORD_MAX <= time1 <= COORD_MAX,
    ensures
        bb == child_box(*c, prims@, time0 as int, time1 as int),
        aabb_wf(bb),
{
    match c {
        BvhChild::Leaf(i) => match prims[*i].bounding_box(time0, time1) {
            Some(bb) => bb,
            None => AABB::default(),
        },
        BvhChild::Node(b) => b.aabb,
    }
}

/// Concatenation unions the element sets.
proof fn lemma_to_set_concat(a: Seq<usize>, b: Seq<usize>)
    ensures
        (a + b).to_set() =~= a.to_set().union(b.to_set()),
{
    assert forall|x: usize| (a + b).to_set().contains(x) implies a.to_set().union(
        b.to_set(),
    ).contains(x) by {
        let i = choose|i: int| 0 <= i < (a + b).len() && (a + b)[i] == x;
        if i < a.len() {
            assert(a[i] == x);
        } else {
            assert(b[i - a.len()] == x);
        }
    }
    assert forall|x: usize| a.to_set().union(b.to_set()).contains(x) implies (
    a + b).to_set().contains(x) by {
        if a.to_set().contains(x) {
            let i = choose|i: int| 0 <= i < a.len() && a[i] == x;
            assert((a + b)[i] == x);
        } else {
            let i = choose|i: int| 0 <= i < b.len() && b[i] == x;
            assert((a + b)[a.len() + i] == x);
        }
    }
}

/// Sequences with equal multisets hold the same elements.
proof fn lemma_multiset_eq_to_set_eq(a: Seq<usize>, b: Seq<usize>)
    requires
        a.to_multiset() == b.to_multiset(),
    ensures
        a.to_set() =~= b.to_set(),
{
    broadcast use vstd::seq_lib::group_to_multiset_ensures;

    assert forall|x: usize| a.to_set().contains(x) implies b.to_set().contains(x) by {
        assert(a.contains(x));
        assert(a.to_multiset().count(x) > 0);
        assert(b.contains(x));
    }
    assert forall|x: usize| b.to_set().contains(x) implies a.to_set().contains(x) by {
        assert(b.contains(x));
        assert(b.to_multiset().count(x) > 0);
        assert(a.contains(x));
    }
}

/// The sort key: the box minimum on the chosen axis, with the origin
/// coordinate standing in for a missing box.
fn sort_key(prims: &Vec<Primitive>, i: usize, axis: usize, time0: i64, time1: i64) -> (k: i64)
    requires
        i < prims.len(),
        axis < 3,
        forall|j: int| 0 <= j < prims.len() ==> prim_wf(#[trigger] prims[j]),
        -COORD_MAX <= time0 <= COORD_MAX,
        -COORD_MAX <= time1 <= COORD_MAX,
    ensures
        k == spec_sort_key(prims@, i as int, axis as int, time0 as int, time1 as int),
{
    match prims[i].bounding_box(time0, time1) {
        Some(bb) => bb.minimum.component(axis),
        None => 0,
    }
}

pub open spec fn spec_sort_key(prims: Seq<Primitive>, i: int, axis: int, tm0: int, tm1: int) -> int {
    match prim_bbox(prims[i], tm0, tm1) {
        Some(bb) => component_s(bb.minimum, axis),
        None => 0,
    }
}

/// Insertion sort of the index span by axis key; the indices are a
/// permutation of the input.
fn sort_by_key(prims: &Vec<Primitive>, idxs: Vec<usize>, axis: usize, time0: i64, time1: i64) -> (r:
    Vec<usize>)
    requires
        axis < 3,
        idxs.len() >= 2,
        forall|j: int| 0 <= j < idxs.len() ==> idxs[j] < prims.len(),
        forall|j: int| 0 <= j < prims.len() ==> prim_wf(#[trigger] prims[j]),
        -COORD_MAX <= time0 <= COORD_MAX,
        -COORD_MAX <= time1 <= COORD_MAX,
    ensures
        r@.to_multiset() == idxs@.to_multiset(),
        r@.len() == idxs@.len(),
        forall|j: int| 0 <= j < r@.len() ==> r@[j] < prims.len(),
{
    let mut v = idxs;
    let n = v.len();
    let mut i: usize = 1;
    proof {
        assert(v@.to_multiset() =~= v@.to_multiset());
    }
    while i < n
        invariant
            n == v@.len(),
            1 <= i || n <= 1,
            i <= n,
            v@.to_multiset() == idxs@.to_multiset(),
            forall|j: int| 0 <= j < v@.len() ==> v@[j] < prims.len(),
            forall|j: int| 0 <= j < prims.len() ==> prim_wf(#[trigger] prims[j]),
            axis < 3,
            -COORD_MAX <= time0 <= COORD_MAX,
            -COORD_MAX <= time1 <= COORD_MAX,
        decreases n - i,
    {
        let mut j: usize = i;
        while j > 0 && sort_key(prims, v[j - 1], axis, time0, time1) > sort_key(
            prims,
            v[j],
            axis,
            time0,
            time1,
        )
            invariant
                n == v@.len(),
                j <= i < n,
                v@.to_multiset() == idxs@.to_multiset(),
                forall|jj: int| 0 <= jj < v@.len() ==> v@[jj] < prims.len(),
                forall|jj: int| 0 <= jj < prims.len() ==> prim_wf(#[trigger] prims[jj]),
                axis < 3,
                -COORD_MAX <= time0 <= COORD_MAX,
                -COORD_MAX <= time1 <= COORD_MAX,
            decreases j,
        {
            let a = v[j - 1];
            let b = v[j];
            let ghost prev = v@;
            v.set(j - 1, b);
            v.set(j, a);
            proof {
                lemma_swap_multiset(prev, j as int, a, b);
                assert(v@ == prev.update(j - 1, b).update(j as int, a));
            }
            j = j - 1;
        }
        i = i + 1;
    }
    v
}

/// Swapping two adjacent elements keeps the multiset.
proof fn lemma_swap_multiset(prev: Seq<usize>, j: int, a: usize, b: usize)
    requires
        0 < j < prev.len(),
        prev[j - 1] == a,
        prev[j] == b,
    ensures
        prev.update(j - 1, b).update(j, a).to_multiset() == prev.to_multiset(),
{
    broadcast use vstd::seq_lib::to_multiset_update;
    broadcast use vstd::seq_lib::group_to_multiset_ensures;
    broadcast use vstd::multiset::group_multiset_axioms;
    broadcast use vstd::multiset::group_multiset_properties;

    let m1 = prev.update(j - 1, b);
    assert(m1.to_multiset() == prev.to_multiset().insert(b).remove(a));
    assert(m1[j] == b);
    assert(m1.update(j, a).to_multiset() == m1.to_multiset().insert(a).remove(b));
    assert(prev.contains(a));
    assert(prev.to_multiset().count(a) > 0);
    assert(m1.update(j, a).to_multiset() =~= prev.to_multiset());
}

} // verus!
