//! The tree–scan equivalence: over one scene, the hierarchy's nearest
//! hit and the flat scan's nearest hit are the same parameter.
//!
//! The one premise is box coverage: whenever a member reports a hit
//! over some interval, the slab test on its stored box passes over that
//! interval.  Boxes exist exactly to promise this; the law makes the
//! promise explicit and derives everything else from the verified
//! contracts.

use vstd::prelude::*;

use crate::aabb::{lemma_slab_monotone, lemma_surrounding_contains, slab_hit, AABB};
use crate::bvh::{
    bvh_hit_t, child_box, child_hit_t, child_height, child_idx_set, child_valid,
    node_boxes_consistent, node_height, node_idx_set, node_valid, BvhChild, BvhNode,
};
use crate::cube::{step_best, step_window};
use crate::hittable_list::list_best;
use crate::nearest::{lemma_list_scan, lemma_prim_window, window_rel, within};
use crate::primitive::{prim_hit_t, prim_wf, Primitive};
use crate::ray::{ray_wf, Ray};
use crate::scalar::{frac_eq, frac_le, frac_lt, frac_wf, lemma_frac_le_trans, Frac};
use crate::sphere::{sp_a, sp_disc, sp_hb, Sphere};

verus! {

/// The box answers for the shape: a hit over any interval makes the
/// slab test pass over that interval.
pub open spec fn box_covers(bb: AABB, p: Primitive, r: Ray) -> bool {
    forall|u: Frac, v: Frac|
        frac_wf(u) && frac_wf(v) && (#[trigger] prim_hit_t(p, r, u, v)) is Some ==> slab_hit(
            bb,
            r,
            u,
            v,
        )
}

/// Every leaf box of the subtree covers its primitive, for this ray.
pub open spec fn tree_covers(c: BvhChild, prims: Seq<Primitive>, r: Ray, tm0: int, tm1: int) -> bool
    decreases c,
{
    match c {
        BvhChild::Leaf(i) => box_covers(child_box(c, prims, tm0, tm1), prims[i as int], r),
        BvhChild::Node(b) => tree_covers(b.left, prims, r, tm0, tm1) && tree_covers(
            b.right,
            prims,
            r,
            tm0,
            tm1,
        ),
    }
}

/// What it means to be the nearest report over a set of members: either
/// nothing, and then no member reports over the full interval; or some
/// member's own full-interval parameter, at or before every member's.
pub open spec fn is_min_hit(
    res: Option<Frac>,
    idxs: Set<usize>,
    prims: Seq<Primitive>,
    r: Ray,
    t0: Frac,
    t1: Frac,
) -> bool {
    match res {
        Option::None => forall|i: usize|
            idxs.contains(i) ==> (#[trigger] prim_hit_t(prims[i as int], r, t0, t1)) is None,
        Option::Some(t) => (exists|i: usize|
            idxs.contains(i) && #[trigger] prim_hit_t(prims[i as int], r, t0, t1) == Some(t)) && (
        forall|i: usize|
            idxs.contains(i) && (#[trigger] prim_hit_t(prims[i as int], r, t0, t1)) is Some
                ==> frac_le(t, prim_hit_t(prims[i as int], r, t0, t1)->Some_0)),
    }
}

/// Every index a valid subtree stands for addresses a real primitive.
proof fn lemma_idx_set_valid(c: BvhChild, n_prims: int)
    requires
        child_valid(c, n_prims),
    ensures
        forall|i: usize| child_idx_set(c).contains(i) ==> (i as int) < n_prims,
    decreases c,
{
    match c {
        BvhChild::Leaf(j) => {
            assert forall|i: usize| child_idx_set(c).contains(i) implies (i as int) < n_prims by {
                assert(i == j);
            }
        },
        BvhChild::Node(b) => {
            lemma_idx_set_valid(b.left, n_prims);
            lemma_idx_set_valid(b.right, n_prims);
            assert forall|i: usize| child_idx_set(c).contains(i) implies (i as int) < n_prims by {
                assert(child_idx_set(b.left).contains(i) || child_idx_set(b.right).contains(i));
            }
        },
    }
}

/// Under a box that fails the slab test, no covered member reports.
proof fn lemma_under_missed_box(
    c: BvhChild,
    prims: Seq<Primitive>,
    r: Ray,
    t0: Frac,
    t1: Frac,
    tm0: int,
    tm1: int,
)
    requires
        frac_wf(t0),
        frac_wf(t1),
        tree_covers(c, prims, r, tm0, tm1),
        c matches BvhChild::Node(b) ==> node_boxes_consistent(*b, prims, tm0, tm1),
        !slab_hit(child_box(c, prims, tm0, tm1), r, t0, t1),
    ensures
        forall|i: usize|
            child_idx_set(c).contains(i) ==> (#[trigger] prim_hit_t(
                prims[i as int],
                r,
                t0,
                t1,
            )) is None,
    decreases child_height(c),
{
    match c {
        BvhChild::Leaf(j) => {
            assert forall|i: usize| child_idx_set(c).contains(i) implies (#[trigger] prim_hit_t(
                prims[i as int],
                r,
                t0,
                t1,
            )) is None by {
                if prim_hit_t(prims[i as int], r, t0, t1) is Some {
                    assert(i == j);
                    assert(slab_hit(child_box(c, prims, tm0, tm1), r, t0, t1));
                }
            }
        },
        BvhChild::Node(b) => {
            let bb = b.aabb;
            lemma_surrounding_contains(
                child_box(b.left, prims, tm0, tm1),
                child_box(b.right, prims, tm0, tm1),
            );
            // Neither child box passes: a pass would lift to the node.
            if slab_hit(child_box(b.left, prims, tm0, tm1), r, t0, t1) {
                lemma_slab_monotone(bb, child_box(b.left, prims, tm0, tm1), r, t0, t1);
            }
            if slab_hit(child_box(b.right, prims, tm0, tm1), r, t0, t1) {
                lemma_slab_monotone(bb, child_box(b.right, prims, tm0, tm1), r, t0, t1);
            }
            lemma_under_missed_box(b.left, prims, r, t0, t1, tm0, tm1);
            lemma_under_missed_box(b.right, prims, r, t0, t1, tm0, tm1);
            assert forall|i: usize| child_idx_set(c).contains(i) implies (#[trigger] prim_hit_t(
                prims[i as int],
                r,
                t0,
                t1,
            )) is None by {
                assert(child_idx_set(b.left).contains(i) || child_idx_set(b.right).contains(i));
            }
        },
    }
}

/// The traversal of one child reports the nearest full-interval hit of
/// the members below it.
proof fn lemma_child_is_min(
    c: BvhChild,
    prims: Seq<Primitive>,
    r: Ray,
    t0: Frac,
    t1: Frac,
    tm0: int,
    tm1: int,
)
    requires
        frac_wf(t0),
        frac_wf(t1),
        ray_wf(r),
        forall|j: int| 0 <= j < prims.len() ==> prim_wf(#[trigger] prims[j]),
        child_valid(c, prims.len() as int),
        tree_covers(c, prims, r, tm0, tm1),
        c matches BvhChild::Node(b) ==> node_boxes_consistent(*b, prims, tm0, tm1),
    ensures
        is_min_hit(child_hit_t(c, prims, r, t0, t1), child_idx_set(c), prims, r, t0, t1),
        within(child_hit_t(c, prims, r, t0, t1), t0, t1),
    decreases child_height(c) + 1,
{
    match c {
        BvhChild::Leaf(i) => {
            lemma_prim_window(prims[i as int], r, t0, t1, t1);
            let res = child_hit_t(c, prims, r, t0, t1);
            if res is Some {
                assert(child_idx_set(c).contains(i) && prim_hit_t(prims[i as int], r, t0, t1)
                    == Some(res->Some_0));
            }
        },
        BvhChild::Node(b) => {
            lemma_node_is_min(*b, prims, r, t0, t1, tm0, tm1);
        },
    }
}

/// The traversal of one node reports the nearest full-interval hit of
/// the members below it.
proof fn lemma_node_is_min(
    n: BvhNode,
    prims: Seq<Primitive>,
    r: Ray,
    t0: Frac,
    t1: Frac,
    tm0: int,
    tm1: int,
)
    requires
        frac_wf(t0),
        frac_wf(t1),
        ray_wf(r),
        forall|j: int| 0 <= j < prims.len() ==> prim_wf(#[trigger] prims[j]),
        node_valid(n, prims.len() as int),
        tree_covers(n.left, prims, r, tm0, tm1),
        tree_covers(n.right, prims, r, tm0, tm1),
        node_boxes_consistent(n, prims, tm0, tm1),
    ensures
        is_min_hit(bvh_hit_t(n, prims, r, t0, t1), node_idx_set(n), prims, r, t0, t1),
        within(bvh_hit_t(n, prims, r, t0, t1), t0, t1),
    decreases node_height(n) + 1,
{
    let lbox = child_box(n.left, prims, tm0, tm1);
    let rbox = child_box(n.right, prims, tm0, tm1);
    lemma_surrounding_contains(lbox, rbox);
    if !slab_hit(n.aabb, r, t0, t1) {
        if slab_hit(lbox, r, t0, t1) {
            lemma_slab_monotone(n.aabb, lbox, r, t0, t1);
        }
        if slab_hit(rbox, r, t0, t1) {
            lemma_slab_monotone(n.aabb, rbox, r, t0, t1);
        }
        lemma_under_missed_box(n.left, prims, r, t0, t1, tm0, tm1);
        lemma_under_missed_box(n.right, prims, r, t0, t1, tm0, tm1);
        assert forall|i: usize| node_idx_set(n).contains(i) implies (#[trigger] prim_hit_t(
            prims[i as int],
            r,
            t0,
            t1,
        )) is None by {
            assert(child_idx_set(n.left).contains(i) || child_idx_set(n.right).contains(i));
        }
    } else {
        let hl = child_hit_t(n.left, prims, r, t0, t1);
        lemma_child_is_min(n.left, prims, r, t0, t1, tm0, tm1);
        let w = step_window(t1, hl);
        assert(frac_wf(w) && frac_le(w, t1));
        let hr = child_hit_t(n.right, prims, r, t0, w);
        lemma_child_is_min(n.right, prims, r, t0, w, tm0, tm1);
        lemma_idx_set_valid(n.left, prims.len() as int);
        lemma_idx_set_valid(n.right, prims.len() as int);
        let res = bvh_hit_t(n, prims, r, t0, t1);
        assert(res == step_best(hl, hr));
        // Every member's full report is well formed and in range.
        assert forall|i: usize| node_idx_set(n).contains(i) implies within(
            prim_hit_t(prims[i as int], r, t0, t1),
            t0,
            t1,
        ) by {
            lemma_prim_window(prims[i as int], r, t0, t1, t1);
        }
        // Lift the right child's shrunken-window answer to the full
        // interval through window coherence, member by member.
        assert forall|i: usize| child_idx_set(n.right).contains(i) implies window_rel(
            prim_hit_t(prims[i as int], r, t0, w),
            prim_hit_t(prims[i as int], r, t0, t1),
            w,
        ) && within(prim_hit_t(prims[i as int], r, t0, w), t0, w) && within(
            prim_hit_t(prims[i as int], r, t0, t1),
            t0,
            t1,
        ) by {
            lemma_prim_window(prims[i as int], r, t0, w, t1);
        }
        if hr is Some {
            let tr = hr->Some_0;
            // The right answer is some right member's full report.
            let wi = choose|i: usize|
                child_idx_set(n.right).contains(i) && #[trigger] prim_hit_t(
                    prims[i as int],
                    r,
                    t0,
                    w,
                ) == Some(tr);
            assert(prim_hit_t(prims[wi as int], r, t0, t1) == Some(tr));
            assert(res == Some(tr));
            lemma_frac_le_trans(tr, w, t1);
            assert(within(res, t0, t1));
            assert forall|i: usize|
                node_idx_set(n).contains(i) && (#[trigger] prim_hit_t(
                    prims[i as int],
                    r,
                    t0,
                    t1,
                )) is Some implies frac_le(tr, prim_hit_t(prims[i as int], r, t0, t1)->Some_0) by {
                let ti = prim_hit_t(prims[i as int], r, t0, t1)->Some_0;
                if child_idx_set(n.right).contains(i) {
                    if prim_hit_t(prims[i as int], r, t0, w) is Some {
                        assert(prim_hit_t(prims[i as int], r, t0, w)->Some_0 == ti);
                    } else {
                        lemma_frac_le_trans(tr, w, ti);
                    }
                } else {
                    // A left member: the left minimum bounds it, and the
                    // right answer fits inside the left window.
                    assert(child_idx_set(n.left).contains(i));
                    match hl {
                        Option::Some(tl) => {
                            assert(w == tl);
                            lemma_frac_le_trans(tr, tl, ti);
                        },
                        Option::None => {},
                    }
                }
            }
        } else {
            match hl {
                Option::Some(tl) => {
                    assert(res == Some(tl));
                    assert(w == tl);
                    assert forall|i: usize|
                        node_idx_set(n).contains(i) && (#[trigger] prim_hit_t(
                            prims[i as int],
                            r,
                            t0,
                            t1,
                        )) is Some implies frac_le(
                        tl,
                        prim_hit_t(prims[i as int], r, t0, t1)->Some_0,
                    ) by {
                        if child_idx_set(n.right).contains(i) {
                        } else {
                            assert(child_idx_set(n.left).contains(i));
                        }
                    }
                },
                Option::None => {
                    assert(w == t1);
                    assert forall|i: usize| node_idx_set(n).contains(i) implies (
                    #[trigger] prim_hit_t(prims[i as int], r, t0, t1)) is None by {
                        if child_idx_set(n.right).contains(i) {
                            assert(prim_hit_t(prims[i as int], r, t0, w) is None);
                        } else {
                            assert(child_idx_set(n.left).contains(i));
                        }
                    }
                },
            }
        }
    }
}

/// Two comparisons meeting in the middle make the fractions equal.
proof fn lemma_frac_antisym(a: Frac, b: Frac)
    requires
        frac_le(a, b),
        frac_le(b, a),
    ensures
        frac_eq(a, b),
{
}

/// The hierarchy and the flat scan agree: over the same members and the
/// same query interval, either neither reports a hit, or both report
/// the same parameter (as a rational value).
#[verifier::rlimit(60)]
pub proof fn lemma_bvh_matches_list(
    n: BvhNode,
    objs: Seq<Primitive>,
    r: Ray,
    t0: Frac,
    t1: Frac,
    tm0: int,
    tm1: int,
)
    requires
        frac_wf(t0),
        frac_wf(t1),
        ray_wf(r),
        objs.len() <= usize::MAX,
        forall|j: int| 0 <= j < objs.len() ==> prim_wf(#[trigger] objs[j]),
        node_valid(n, objs.len() as int),
        node_idx_set(n) =~= Set::new(|i: usize| i < objs.len()),
        node_boxes_consistent(n, objs, tm0, tm1),
        tree_covers(n.left, objs, r, tm0, tm1),
        tree_covers(n.right, objs, r, tm0, tm1),
    ensures
        bvh_hit_t(n, objs, r, t0, t1) is Some <==> list_best(
            objs,
            r,
            t0,
            t1,
            objs.len() as int,
        ) is Some,
        bvh_hit_t(n, objs, r, t0, t1) matches Some(tb) ==> frac_eq(
            tb,
            list_best(objs, r, t0, t1, objs.len() as int)->Some_0,
        ),
{
    lemma_node_is_min(n, objs, r, t0, t1, tm0, tm1);
    lemma_list_scan(objs, r, t0, t1, objs.len() as int);
    let tree = bvh_hit_t(n, objs, r, t0, t1);
    let scan = list_best(objs, r, t0, t1, objs.len() as int);
    if tree is Some {
        let tb = tree->Some_0;
        let wi = choose|i: usize|
            node_idx_set(n).contains(i) && #[trigger] prim_hit_t(objs[i as int], r, t0, t1)
                == Some(tb);
        assert(0 <= (wi as int) && (wi as int) < objs.len());
        assert(prim_hit_t(objs[wi as int], r, t0, t1) is Some);
        assert(scan is Some);
        let ts = scan->Some_0;
        // The scan's answer is also a member's report, which the tree
        // bounds from below as well.
        let wj = choose|j: int|
            0 <= j < objs.len() && #[trigger] prim_hit_t(objs[j], r, t0, t1) == Some(ts);
        assert(node_idx_set(n).contains(wj as usize));
        assert((wj as usize) as int == wj);
        assert(prim_hit_t(objs[(wj as usize) as int], r, t0, t1) == Some(ts));
        assert(frac_le(tb, ts));
        assert(frac_le(ts, tb));
        lemma_frac_antisym(tb, ts);
    } else {
        if scan is Some {
            let ts = scan->Some_0;
            let wj = choose|j: int|
                0 <= j < objs.len() && #[trigger] prim_hit_t(objs[j], r, t0, t1) == Some(ts);
            assert(node_idx_set(n).contains(wj as usize));
            assert((wj as usize) as int == wj);
            assert(prim_hit_t(objs[(wj as usize) as int], r, t0, t1) is None);
            assert(false);
        }
    }
}

/// A parameter strictly between the two rooted parameters puts the ray
/// point strictly inside the ball: every outward component is strictly
/// within the radius.
proof fn lemma_sphere_strictly_inside(s: Sphere, r: Ray, t: Frac)
    requires
        crate::sphere::sphere_wf(s),
        ray_wf(r),
        frac_wf(t),
        sp_a(r) > 0,
        (sp_a(r) * t.num + sp_hb(s, r) * t.den) * (sp_a(r) * t.num + sp_hb(s, r) * t.den) < sp_disc(
            s,
            r,
        ) * (t.den * t.den),
    ensures
        forall|axis: int|
            0 <= axis < 3 ==> -(s.radius * t.den) < #[trigger] crate::sphere::sphere_outward_num(
                s,
                r,
                t,
                axis,
            ) < s.radius * t.den,
{
    let a = sp_a(r);
    let hb = sp_hb(s, r);
    let c = crate::sphere::sp_c(s, r);
    let disc = sp_disc(s, r);
    let n = t.num;
    let dd = t.den;
    let rad = s.radius as int;
    let on0 = crate::sphere::sphere_outward_num(s, r, t, 0);
    let on1 = crate::sphere::sphere_outward_num(s, r, t, 1);
    let on2 = crate::sphere::sphere_outward_num(s, r, t, 2);
    let oc0 = crate::sphere::oc_s(s, r, 0);
    let oc1 = crate::sphere::oc_s(s, r, 1);
    let oc2 = crate::sphere::oc_s(s, r, 2);
    let d0 = crate::vec3::component_s(r.direction, 0);
    let d1 = crate::vec3::component_s(r.direction, 1);
    let d2 = crate::vec3::component_s(r.direction, 2);
    crate::sphere::lemma_sub_factor(
        crate::vec3::component_s(r.origin, 0),
        crate::vec3::component_s(s.center, 0),
        dd,
    );
    crate::sphere::lemma_sub_factor(
        crate::vec3::component_s(r.origin, 1),
        crate::vec3::component_s(s.center, 1),
        dd,
    );
    crate::sphere::lemma_sub_factor(
        crate::vec3::component_s(r.origin, 2),
        crate::vec3::component_s(s.center, 2),
        dd,
    );
    assert(on0 == oc0 * dd + n * d0);
    assert(on1 == oc1 * dd + n * d1);
    assert(on2 == oc2 * dd + n * d2);
    crate::sphere::lemma_axis_expand(oc0, d0, dd, n, on0);
    crate::sphere::lemma_axis_expand(oc1, d1, dd, n, on1);
    crate::sphere::lemma_axis_expand(oc2, d2, dd, n, on2);
    let k1 = dd * dd;
    let k2 = 2 * (dd * n);
    let k3 = n * n;
    let q2 = oc0 * oc0 + oc1 * oc1 + oc2 * oc2;
    let sum_sq = on0 * on0 + on1 * on1 + on2 * on2;
    crate::sphere::lemma_distrib3(k1, oc0 * oc0, oc1 * oc1, oc2 * oc2);
    crate::sphere::lemma_distrib3(k2, oc0 * d0, oc1 * d1, oc2 * d2);
    crate::sphere::lemma_distrib3(k3, d0 * d0, d1 * d1, d2 * d2);
    assert(sum_sq == k1 * q2 + k2 * hb + k3 * a);
    assert(q2 == c + rad * rad);
    // The strict root bracket turns into a strict bound on the mixed part.
    let qq = a * k3 + k2 * hb + c * k1;
    let uu = a * n;
    let vv = hb * dd;
    assert((uu + vv) * (uu + vv) == uu * uu + 2 * (uu * vv) + vv * vv) by (nonlinear_arith);
    assert(a * qq == a * (a * k3) + a * (k2 * hb) + a * (c * k1)) by (nonlinear_arith)
        requires
            qq == a * k3 + k2 * hb + c * k1,
    ;
    assert(a * (a * k3) == uu * uu) by (nonlinear_arith)
        requires
            uu == a * n,
            k3 == n * n,
    ;
    assert(a * (k2 * hb) == 2 * (uu * vv)) by (nonlinear_arith)
        requires
            uu == a * n,
            vv == hb * dd,
            k2 == 2 * (dd * n),
    ;
    assert(a * (c * k1) == (a * c) * k1) by (nonlinear_arith);
    assert(vv * vv == (hb * hb) * k1) by (nonlinear_arith)
        requires
            vv == hb * dd,
            k1 == dd * dd,
    ;
    assert(disc * k1 == (hb * hb) * k1 - (a * c) * k1) by (nonlinear_arith)
        requires
            disc == hb * hb - a * c,
    ;
    assert(uu + vv == a * n + hb * dd);
    assert((a * n + hb * dd) * (a * n + hb * dd) == (uu + vv) * (uu + vv));
    assert(a * qq == (a * n + hb * dd) * (a * n + hb * dd) - disc * k1);
    assert(qq < 0) by (nonlinear_arith)
        requires
            a * qq < 0,
            a > 0,
    ;
    assert(k1 * q2 + k2 * hb + k3 * a == k1 * (rad * rad) + qq) by (nonlinear_arith)
        requires
            q2 == c + rad * rad,
            qq == a * (n * n) + 2 * (dd * n) * hb + c * (dd * dd),
            k1 == dd * dd,
            k2 == 2 * (dd * n),
            k3 == n * n,
    ;
    assert(sum_sq < (rad * dd) * (rad * dd)) by (nonlinear_arith)
        requires
            sum_sq == k1 * (rad * rad) + qq,
            qq < 0,
            k1 == dd * dd,
    ;
    assert(on0 * on0 <= sum_sq && on1 * on1 <= sum_sq && on2 * on2 <= sum_sq) by (nonlinear_arith)
        requires
            sum_sq == on0 * on0 + on1 * on1 + on2 * on2,
    ;
    assert(-(rad * dd) < on0 < rad * dd && -(rad * dd) < on1 < rad * dd && -(rad * dd) < on2 < rad
        * dd) by (nonlinear_arith)
        requires
            on0 * on0 < (rad * dd) * (rad * dd),
            on1 * on1 < (rad * dd) * (rad * dd),
            on2 * on2 < (rad * dd) * (rad * dd),
            rad > 0,
            dd > 0,
    ;
    assert forall|axis: int|
        0 <= axis < 3 implies -(s.radius * t.den) < #[trigger] crate::sphere::sphere_outward_num(
        s,
        r,
        t,
        axis,
    ) < s.radius * t.den by {}
}

/// A sphere's stored box covers every hit it ever reports: the box
/// coverage premise holds outright for spheres.
pub proof fn lemma_sphere_box_covers(s: Sphere, r: Ray)
    requires
        crate::sphere::sphere_wf(s),
        ray_wf(r),
    ensures
        box_covers(crate::sphere::sphere_bbox(s), Primitive::Sphere(s), r),
{
    let bb = crate::sphere::sphere_bbox(s);
    assert forall|u: Frac, v: Frac|
        frac_wf(u) && frac_wf(v) && (#[trigger] prim_hit_t(Primitive::Sphere(s), r, u, v))
            is Some implies slab_hit(bb, r, u, v) by {
        lemma_sphere_hit_slab(s, r, u, v);
    }
}

/// A member that is a well-formed still sphere.
pub open spec fn well_formed_sphere_prim(p: Primitive) -> bool {
    match p {
        Primitive::Sphere(sp) => crate::sphere::sphere_wf(sp),
        _ => false,
    }
}

/// Over a scene of spheres the coverage premise needs no assumption:
/// every subtree is covered.
pub proof fn lemma_tree_covers_spheres(
    c: BvhChild,
    prims: Seq<Primitive>,
    r: Ray,
    tm0: int,
    tm1: int,
)
    requires
        ray_wf(r),
        forall|j: int| 0 <= j < prims.len() ==> well_formed_sphere_prim(#[trigger] prims[j]),
        child_valid(c, prims.len() as int),
    ensures
        tree_covers(c, prims, r, tm0, tm1),
    decreases c,
{
    match c {
        BvhChild::Leaf(i) => {
            let p = prims[i as int];
            if let Primitive::Sphere(sp) = p {
                lemma_sphere_box_covers(sp, r);
                assert(child_box(c, prims, tm0, tm1) == crate::sphere::sphere_bbox(sp));
            }
        },
        BvhChild::Node(b) => {
            lemma_tree_covers_spheres(b.left, prims, r, tm0, tm1);
            lemma_tree_covers_spheres(b.right, prims, r, tm0, tm1);
        },
    }
}

/// The body of the coverage argument: a reported root yields a strictly
/// interior parameter, and the slab test is complete for such a one.
proof fn lemma_sphere_hit_slab(s: Sphere, r: Ray, u: Frac, v: Frac)
    requires
        crate::sphere::sphere_wf(s),
        ray_wf(r),
        frac_wf(u),
        frac_wf(v),
        crate::sphere::sphere_hit_t(s, r, u, v) is Some,
    ensures
        slab_hit(crate::sphere::sphere_bbox(s), r, u, v),
{
    let bb = crate::sphere::sphere_bbox(s);
    let a = sp_a(r);
    let hb = sp_hb(s, r);
    let disc = sp_disc(s, r);
    crate::sphere::lemma_disc_pos_a_pos(s, r);
    crate::scalar::lemma_sqrt_floor_bracket(disc as nat);
    let sq = crate::scalar::sqrt_floor(disc as nat) as int;
    assert(sq >= 1);
    let near = crate::sphere::sphere_near(s, r);
    let far = crate::sphere::sphere_far(s, r);
    assert(frac_wf(near) && frac_wf(far));
    assert(frac_lt(near, far)) by (nonlinear_arith)
        requires
            near.den == a,
            far.den == a,
            near.num == -hb - sq,
            far.num == -hb + sq,
            a > 0,
            sq >= 1,
    ;
    // Pick a parameter strictly between the roots and strictly inside
    // the query interval.
    let that = crate::sphere::sphere_hit_t(s, r, u, v)->Some_0;
    let tp: Frac;
    if frac_lt(u, near) && frac_lt(near, v) {
        let w = if frac_lt(far, v) {
            far
        } else {
            v
        };
        assert(frac_lt(near, w)) by {
            if !frac_lt(far, v) {
            }
        }
        tp = crate::scalar::lemma_frac_dense(near, w);
        crate::scalar::lemma_frac_lt_trans(u, near, tp);
        if frac_lt(far, v) {
            crate::scalar::lemma_frac_lt_trans(tp, far, v);
        } else {
            crate::scalar::lemma_frac_lt_le_trans(tp, v, far);
        }
    } else {
        // The far root was reported, and the near root is at or before
        // the interval's start.
        crate::scalar::lemma_frac_le_lt_trans(near, far, v);
        assert(frac_lt(u, far) && frac_lt(far, v));
        assert(frac_le(near, u));
        tp = crate::scalar::lemma_frac_dense(u, far);
        crate::scalar::lemma_frac_le_lt_trans(near, u, tp);
        crate::scalar::lemma_frac_lt_trans(tp, far, v);
    }
    assert(frac_lt(u, tp) && frac_lt(tp, v) && frac_lt(near, tp) && frac_lt(tp, far) && frac_wf(
        tp,
    ));
    // Strictly between the roots means strictly inside the ball.
    let nn = tp.num;
    let dd = tp.den;
    assert((a * nn + hb * dd) * (a * nn + hb * dd) < disc * (dd * dd)) by (nonlinear_arith)
        requires
            (-hb - sq) * dd < nn * a,
            nn * a < (-hb + sq) * dd,
            sq * sq <= disc,
            sq >= 1,
            dd > 0,
            a > 0,
    ;
    lemma_sphere_strictly_inside(s, r, tp);
    // The root itself gives the closed containment for degenerate axes.
    assert((that.num + hb) * (that.num + hb) <= disc) by (nonlinear_arith)
        requires
            that.num == -hb - sq || that.num == -hb + sq,
            sq * sq <= disc,
    ;
    crate::sphere::lemma_sphere_point_in_ball(s, r, that);
    let rad = s.radius as int;
    assert forall|axis: int|
        0 <= axis < 3 && crate::vec3::component_s(r.direction, axis) == 0 implies crate::vec3::component_s(
        bb.minimum,
        axis,
    ) <= crate::vec3::component_s(r.origin, axis) <= crate::vec3::component_s(
        bb.maximum,
        axis,
    ) by {
        let oi = crate::vec3::component_s(r.origin, axis);
        let ci = crate::vec3::component_s(s.center, axis);
        let on = crate::sphere::sphere_outward_num(s, r, that, axis);
        assert(-(rad * that.den) <= on <= rad * that.den);
        assert(on == (oi - ci) * that.den) by (nonlinear_arith)
            requires
                on == oi * that.den + that.num * crate::vec3::component_s(r.direction, axis) - ci
                    * that.den,
                crate::vec3::component_s(r.direction, axis) == 0,
        ;
        assert(ci - rad <= oi <= ci + rad) by (nonlinear_arith)
            requires
                -(rad * that.den) <= (oi - ci) * that.den <= rad * that.den,
                that.den > 0,
        ;
    }
    assert forall|axis: int|
        0 <= axis < 3 && crate::vec3::component_s(r.direction, axis) != 0 implies frac_lt(
        Frac { num: crate::vec3::component_s(bb.minimum, axis), den: 1 },
        #[trigger] crate::ray::ray_at(r, tp, axis),
    ) && frac_lt(
        crate::ray::ray_at(r, tp, axis),
        Frac { num: crate::vec3::component_s(bb.maximum, axis), den: 1 },
    ) by {
        let ci = crate::vec3::component_s(s.center, axis);
        let on = crate::sphere::sphere_outward_num(s, r, tp, axis);
        assert(-(rad * dd) < on < rad * dd);
        let num = crate::ray::ray_at(r, tp, axis).num;
        assert(on == num - ci * dd);
        assert((ci - rad) * dd * 1 < num * 1 && num * 1 < (ci + rad) * dd * 1) by (nonlinear_arith)
            requires
                -(rad * dd) < num - ci * dd,
                num - ci * dd < rad * dd,
                dd > 0,
        ;
        assert(crate::vec3::component_s(bb.minimum, axis) == ci - rad);
        assert(crate::vec3::component_s(bb.maximum, axis) == ci + rad);
    }
    crate::aabb::lemma_slab_complete(bb, r, u, v, tp);
}

} // verus!
