//! The closest-hit law: scanning members with a shrinking window finds
//! the nearest hit that any member reports over the full interval.
//!
//! The backbone is window coherence: shrinking the search window of a
//! shape either preserves its reported parameter exactly, or loses it —
//! and then only because the parameter lies at or beyond the window.

use vstd::prelude::*;

use crate::cube::{cube_hit_t, step_best, step_window, Cube};
use crate::hittable_list::list_best;
use crate::primitive::{moved_ok, moved_ray, prim_hit_t, prim_wf, Primitive};
use crate::ray::{ray_wf, Ray};
use crate::rect::rect_hit_t;
use crate::scalar::{
    frac_le, frac_lt, frac_wf, lemma_frac_le_lt_trans, lemma_frac_le_trans,
    lemma_frac_lt_le_trans, Frac,
};
use crate::sphere::{
    lemma_disc_pos_a_pos, lemma_moving_eff_wf, moving_eff, sp_a, sp_disc, sp_hb, sphere_far,
    sphere_hit_t, sphere_near, sphere_wf, Sphere,
};

verus! {

/// How one shape's report under a shrunken window relates to its report
/// under the full window: equal, or lost with the full parameter at or
/// past the shrunken window `w`.
pub open spec fn window_rel(s: Option<Frac>, f: Option<Frac>, w: Frac) -> bool {
    match (s, f) {
        (Option::None, Option::None) => true,
        (Option::Some(ts), Option::Some(tf)) => ts == tf,
        (Option::None, Option::Some(tf)) => frac_le(w, tf),
        (Option::Some(_), Option::None) => false,
    }
}

/// Reported parameters are well formed and lie within the closed query
/// interval.
pub open spec fn within(h: Option<Frac>, t0: Frac, t1: Frac) -> bool {
    match h {
        Option::Some(t) => frac_wf(t) && frac_le(t0, t) && frac_le(t, t1),
        Option::None => true,
    }
}

/// The structural height of a primitive, for termination of the
/// window-coherence induction.
pub open spec fn prim_height(p: Primitive) -> nat
    decreases p,
{
    match p {
        Primitive::Translate(tr) => prim_height(*tr.inner) + 1,
        Primitive::Rotate(rt) => prim_height(*rt.inner) + 1,
        _ => 1,
    }
}

/// Window coherence for one rectangle, under nested windows `u <= v`.
proof fn lemma_rect_window(
    r: Ray,
    pa: int,
    aa: int,
    ba: int,
    a0: int,
    a1: int,
    b0: int,
    b1: int,
    k: int,
    t0: Frac,
    u: Frac,
    v: Frac,
)
    requires
        frac_wf(t0),
        frac_wf(u),
        frac_wf(v),
        frac_le(u, v),
    ensures
        window_rel(
            rect_hit_t(r, pa, aa, ba, a0, a1, b0, b1, k, t0, u),
            rect_hit_t(r, pa, aa, ba, a0, a1, b0, b1, k, t0, v),
            u,
        ),
        within(rect_hit_t(r, pa, aa, ba, a0, a1, b0, b1, k, t0, u), t0, u),
        within(rect_hit_t(r, pa, aa, ba, a0, a1, b0, b1, k, t0, v), t0, v),
{
    let d = crate::vec3::component_s(r.direction, pa);
    if d != 0 {
        let t = crate::rect::plane_t(r, pa, k);
        assert(frac_wf(t));
        if rect_hit_t(r, pa, aa, ba, a0, a1, b0, b1, k, t0, u) is Some {
            lemma_frac_le_trans(t, u, v);
        }
    }
}

/// Window coherence for one sphere, under nested windows `u <= v`.
proof fn lemma_sphere_window(s: Sphere, r: Ray, t0: Frac, u: Frac, v: Frac)
    requires
        sphere_wf(s),
        ray_wf(r),
        frac_wf(t0),
        frac_wf(u),
        frac_wf(v),
        frac_le(u, v),
    ensures
        window_rel(sphere_hit_t(s, r, t0, u), sphere_hit_t(s, r, t0, v), u),
        within(sphere_hit_t(s, r, t0, u), t0, u),
        within(sphere_hit_t(s, r, t0, v), t0, v),
{
    if sp_disc(s, r) > 0 {
        lemma_disc_pos_a_pos(s, r);
        let near = sphere_near(s, r);
        let far = sphere_far(s, r);
        crate::scalar::lemma_sqrt_floor_bracket(sp_disc(s, r) as nat);
        assert(frac_wf(near) && frac_wf(far));
        let sq = crate::scalar::sqrt_floor(sp_disc(s, r) as nat) as int;
        assert(frac_le(near, far)) by (nonlinear_arith)
            requires
                near.den == sp_a(r),
                far.den == sp_a(r),
                near.num == -sp_hb(s, r) - sq,
                far.num == -sp_hb(s, r) + sq,
                sp_a(r) > 0,
                sq >= 0,
        ;
        if frac_lt(t0, near) && frac_lt(near, u) {
            // Both windows report the near root.
            lemma_frac_lt_le_trans(near, u, v);
        } else if frac_lt(t0, far) && frac_lt(far, u) {
            // The near root cannot also precede the window, so both
            // windows report the far root.
            lemma_frac_lt_le_trans(far, u, v);
            if frac_lt(t0, near) {
                lemma_frac_le_lt_trans(near, far, u);
                assert(false);
            }
        } else {
            // The shrunken window reports nothing: whatever the full
            // window reports lies at or past `u`.
            if frac_lt(t0, near) && frac_lt(near, v) {
                assert(frac_le(u, near));
            } else if frac_lt(t0, far) && frac_lt(far, v) {
                assert(frac_le(u, far));
            }
        }
    }
}

/// One scan step preserves the coherence relation, given the shape's own
/// window-coherent reports for the two running windows.
proof fn lemma_fold_step(
    sprev: Option<Frac>,
    fprev: Option<Frac>,
    sh: Option<Frac>,
    fh: Option<Frac>,
    t0: Frac,
    w: Frac,
    t1: Frac,
)
    requires
        frac_wf(t0),
        frac_wf(w),
        frac_wf(t1),
        frac_le(w, t1),
        window_rel(sprev, fprev, w),
        within(sprev, t0, w),
        within(fprev, t0, t1),
        window_rel(sh, fh, step_window(w, sprev)),
        within(sh, t0, step_window(w, sprev)),
        within(fh, t0, step_window(t1, fprev)),
        step_window(w, sprev) == step_window(t1, fprev) ==> sh == fh,
    ensures
        window_rel(step_best(sprev, sh), step_best(fprev, fh), w),
        within(step_best(sprev, sh), t0, w),
        within(step_best(fprev, fh), t0, t1),
{
    let su = step_window(w, sprev);
    let fu = step_window(t1, fprev);
    assert(frac_le(su, w));
    assert(frac_le(fu, t1));
    if sh is Some {
        let c = sh->Some_0;
        assert(fh == Some(c));
        lemma_frac_le_trans(c, su, w);
        lemma_frac_le_trans(c, fu, t1);
    } else if fh is Some {
        let c2 = fh->Some_0;
        lemma_frac_le_trans(c2, fu, t1);
        // The shrunken scan lost this hit, so `c2` is at or past `su`.
        match sprev {
            Option::Some(tp) => {
                // Both running windows equal `tp`, so the reports would
                // coincide; this case cannot arise.
                assert(fprev == Some(tp));
                assert(su == tp && fu == tp);
                assert(false);
            },
            Option::None => {
                assert(su == w);
            },
        }
    }
}

/// Window coherence for every primitive, under nested windows `u <= v`.
pub proof fn lemma_prim_window(p: Primitive, r: Ray, t0: Frac, u: Frac, v: Frac)
    requires
        prim_wf(p),
        ray_wf(r),
        frac_wf(t0),
        frac_wf(u),
        frac_wf(v),
        frac_le(u, v),
    ensures
        window_rel(prim_hit_t(p, r, t0, u), prim_hit_t(p, r, t0, v), u),
        within(prim_hit_t(p, r, t0, u), t0, u),
        within(prim_hit_t(p, r, t0, v), t0, v),
    decreases prim_height(p),
{
    match p {
        Primitive::Sphere(s) => lemma_sphere_window(s, r, t0, u, v),
        Primitive::MovingSphere(ms) => {
            lemma_moving_eff_wf(ms, r.time as int);
            lemma_sphere_window(moving_eff(ms, r.time as int), r, t0, u, v);
        },
        Primitive::XyRect(rc) => lemma_rect_window(
            r,
            2,
            0,
            1,
            rc.x0 as int,
            rc.x1 as int,
            rc.y0 as int,
            rc.y1 as int,
            rc.k as int,
            t0,
            u,
            v,
        ),
        Primitive::XzRect(rc) => lemma_rect_window(
            r,
            1,
            0,
            2,
            rc.x0 as int,
            rc.x1 as int,
            rc.z0 as int,
            rc.z1 as int,
            rc.k as int,
            t0,
            u,
            v,
        ),
        Primitive::YzRect(rc) => lemma_rect_window(
            r,
            0,
            1,
            2,
            rc.y0 as int,
            rc.y1 as int,
            rc.z0 as int,
            rc.z1 as int,
            rc.k as int,
            t0,
            u,
            v,
        ),
        Primitive::Cube(cb) => lemma_cube_window(cb, r, t0, u, v),
        Primitive::Translate(tr) => {
            if moved_ok(r, tr.offset) {
                lemma_prim_window(*tr.inner, moved_ray(r, tr.offset), t0, u, v);
            }
        },
        Primitive::Rotate(rt) => {
            assert(crate::rotate::rotate_wf(rt));
            assert(prim_wf(*rt.inner));
            assert(prim_hit_t(p, r, t0, u) == crate::rotate::rotate_hit_t(rt, r, t0, u));
            assert(prim_hit_t(p, r, t0, v) == crate::rotate::rotate_hit_t(rt, r, t0, v));
            if crate::rotate::object_ray_ok(r, rt.sin_q as int, rt.cos_q as int) {
                let obj = crate::rotate::object_ray(r, rt.sin_q as int, rt.cos_q as int);
                lemma_prim_window(*rt.inner, obj, t0, u, v);
                assert(crate::rotate::rotate_hit_t(rt, r, t0, u) == prim_hit_t(
                    *rt.inner,
                    obj,
                    t0,
                    u,
                ));
                assert(crate::rotate::rotate_hit_t(rt, r, t0, v) == prim_hit_t(
                    *rt.inner,
                    obj,
                    t0,
                    v,
                ));
            } else {
                assert(crate::rotate::rotate_hit_t(rt, r, t0, u) is None);
                assert(crate::rotate::rotate_hit_t(rt, r, t0, v) is None);
            }
        },
    }
}

/// One cube face's contribution to both scans.
proof fn lemma_cube_side(
    r: Ray,
    pa: int,
    aa: int,
    ba: int,
    a0: int,
    a1: int,
    b0: int,
    b1: int,
    k: int,
    sprev: Option<Frac>,
    fprev: Option<Frac>,
    t0: Frac,
    w: Frac,
    t1: Frac,
)
    requires
        frac_wf(t0),
        frac_wf(w),
        frac_wf(t1),
        frac_le(w, t1),
        window_rel(sprev, fprev, w),
        within(sprev, t0, w),
        within(fprev, t0, t1),
    ensures
        ({
            let sh = rect_hit_t(r, pa, aa, ba, a0, a1, b0, b1, k, t0, step_window(w, sprev));
            let fh = rect_hit_t(r, pa, aa, ba, a0, a1, b0, b1, k, t0, step_window(t1, fprev));
            &&& window_rel(step_best(sprev, sh), step_best(fprev, fh), w)
            &&& within(step_best(sprev, sh), t0, w)
            &&& within(step_best(fprev, fh), t0, t1)
        }),
{
    let su = step_window(w, sprev);
    let fu = step_window(t1, fprev);
    assert(frac_wf(su) && frac_wf(fu));
    assert(frac_le(su, fu));
    lemma_rect_window(r, pa, aa, ba, a0, a1, b0, b1, k, t0, su, fu);
    let sh = rect_hit_t(r, pa, aa, ba, a0, a1, b0, b1, k, t0, su);
    let fh = rect_hit_t(r, pa, aa, ba, a0, a1, b0, b1, k, t0, fu);
    lemma_fold_step(sprev, fprev, sh, fh, t0, w, t1);
}

/// Window coherence for the box, by walking its six faces.
proof fn lemma_cube_window(cb: Cube, r: Ray, t0: Frac, u: Frac, v: Frac)
    requires
        frac_wf(t0),
        frac_wf(u),
        frac_wf(v),
        frac_le(u, v),
    ensures
        window_rel(cube_hit_t(cb, r, t0, u), cube_hit_t(cb, r, t0, v), u),
        within(cube_hit_t(cb, r, t0, u), t0, u),
        within(cube_hit_t(cb, r, t0, v), t0, v),
{
    let x0 = cb.minimum.x as int;
    let x1 = cb.maximum.x as int;
    let y0 = cb.minimum.y as int;
    let y1 = cb.maximum.y as int;
    let z0 = cb.minimum.z as int;
    let z1 = cb.maximum.z as int;
    let s0: Option<Frac> = None;
    let f0: Option<Frac> = None;
    lemma_cube_side(r, 2, 0, 1, x0, x1, y0, y1, z0, s0, f0, t0, u, v);
    let s1 = step_best(s0, rect_hit_t(r, 2, 0, 1, x0, x1, y0, y1, z0, t0, step_window(u, s0)));
    let f1 = step_best(f0, rect_hit_t(r, 2, 0, 1, x0, x1, y0, y1, z0, t0, step_window(v, f0)));
    lemma_cube_side(r, 2, 0, 1, x0, x1, y0, y1, z1, s1, f1, t0, u, v);
    let s2 = step_best(s1, rect_hit_t(r, 2, 0, 1, x0, x1, y0, y1, z1, t0, step_window(u, s1)));
    let f2 = step_best(f1, rect_hit_t(r, 2, 0, 1, x0, x1, y0, y1, z1, t0, step_window(v, f1)));
    lemma_cube_side(r, 1, 0, 2, x0, x1, z0, z1, y0, s2, f2, t0, u, v);
    let s3 = step_best(s2, rect_hit_t(r, 1, 0, 2, x0, x1, z0, z1, y0, t0, step_window(u, s2)));
    let f3 = step_best(f2, rect_hit_t(r, 1, 0, 2, x0, x1, z0, z1, y0, t0, step_window(v, f2)));
    lemma_cube_side(r, 1, 0, 2, x0, x1, z0, z1, y1, s3, f3, t0, u, v);
    let s4 = step_best(s3, rect_hit_t(r, 1, 0, 2, x0, x1, z0, z1, y1, t0, step_window(u, s3)));
    let f4 = step_best(f3, rect_hit_t(r, 1, 0, 2, x0, x1, z0, z1, y1, t0, step_window(v, f3)));
    lemma_cube_side(r, 0, 1, 2, y0, y1, z0, z1, x0, s4, f4, t0, u, v);
    let s5 = step_best(s4, rect_hit_t(r, 0, 1, 2, y0, y1, z0, z1, x0, t0, step_window(u, s4)));
    let f5 = step_best(f4, rect_hit_t(r, 0, 1, 2, y0, y1, z0, z1, x0, t0, step_window(v, f4)));
    lemma_cube_side(r, 0, 1, 2, y0, y1, z0, z1, x1, s5, f5, t0, u, v);
}

/// The running scan stays within the interval, and no member's own
/// full-interval hit is nearer than the scan's result.
pub proof fn lemma_list_scan(objs: Seq<Primitive>, r: Ray, t0: Frac, t1: Frac, k: int)
    requires
        forall|j: int| 0 <= j < objs.len() ==> prim_wf(#[trigger] objs[j]),
        ray_wf(r),
        frac_wf(t0),
        frac_wf(t1),
        0 <= k <= objs.len(),
    ensures
        within(list_best(objs, r, t0, t1, k), t0, t1),
        forall|i: int|
            0 <= i < k && prim_hit_t(objs[i], r, t0, t1) is Some ==> list_best(
                objs,
                r,
                t0,
                t1,
                k,
            ) is Some && frac_le(
                list_best(objs, r, t0, t1, k)->Some_0,
                prim_hit_t(objs[i], r, t0, t1)->Some_0,
            ),
        list_best(objs, r, t0, t1, k) matches Some(tb) ==> exists|i: int|
            0 <= i < k && #[trigger] prim_hit_t(objs[i], r, t0, t1) == Some(tb),
    decreases k,
{
    if k > 0 {
        lemma_list_scan(objs, r, t0, t1, k - 1);
        let prev = list_best(objs, r, t0, t1, k - 1);
        let w = step_window(t1, prev);
        assert(frac_wf(w) && frac_le(w, t1));
        lemma_prim_window(objs[k - 1], r, t0, w, t1);
        let sh = prim_hit_t(objs[k - 1], r, t0, w);
        let fh = prim_hit_t(objs[k - 1], r, t0, t1);
        let cur = list_best(objs, r, t0, t1, k);
        assert(cur == step_best(prev, sh));
        if sh is Some {
            lemma_frac_le_trans(sh->Some_0, w, t1);
        }
        assert(within(cur, t0, t1));
        if cur is Some {
            let tb = cur->Some_0;
            if sh is Some {
                // Window coherence pins the new best to this member's
                // own full-interval report.
                assert(fh == Some(tb));
                assert(prim_hit_t(objs[k - 1], r, t0, t1) == Some(tb));
            } else {
                assert(cur == prev);
                let wi = choose|i: int|
                    0 <= i < k - 1 && #[trigger] prim_hit_t(objs[i], r, t0, t1) == Some(tb);
                assert(prim_hit_t(objs[wi], r, t0, t1) == Some(tb));
            }
        }
        assert forall|i: int|
            0 <= i < k && prim_hit_t(objs[i], r, t0, t1) is Some implies cur is Some && frac_le(
            cur->Some_0,
            prim_hit_t(objs[i], r, t0, t1)->Some_0,
        ) by {
            if i < k - 1 {
                let tp = prev->Some_0;
                let ti = prim_hit_t(objs[i], r, t0, t1)->Some_0;
                lemma_prim_window(objs[i], r, t0, t1, t1);
                if sh is Some {
                    lemma_frac_le_trans(sh->Some_0, w, ti);
                }
            } else {
                // The member just scanned.
                let ti = fh->Some_0;
                if sh is Some {
                    // Window coherence: equal, so the scan now holds it.
                    assert(cur->Some_0 == ti || frac_le(cur->Some_0, ti));
                } else {
                    // Lost under the window: the previous best is nearer.
                    match prev {
                        Option::Some(tp) => {
                            assert(frac_le(w, ti) && w == tp);
                        },
                        Option::None => {
                            // The window was the full interval, so the
                            // reports coincide; contradiction.
                            assert(w == t1);
                            assert(sh == fh);
                            assert(false);
                        },
                    }
                }
            }
        }
    }
}

/// The nearest-hit law for the flat aggregate: whenever some member
/// reports a hit over the full query interval, the scan reports one, and
/// the scan's parameter is at or before every member's own.
pub proof fn lemma_closest_hit(objs: Seq<Primitive>, r: Ray, t0: Frac, t1: Frac, i: int)
    requires
        forall|j: int| 0 <= j < objs.len() ==> prim_wf(#[trigger] objs[j]),
        ray_wf(r),
        frac_wf(t0),
        frac_wf(t1),
        0 <= i < objs.len(),
        prim_hit_t(objs[i], r, t0, t1) is Some,
    ensures
        list_best(objs, r, t0, t1, objs.len() as int) is Some,
        frac_le(
            list_best(objs, r, t0, t1, objs.len() as int)->Some_0,
            prim_hit_t(objs[i], r, t0, t1)->Some_0,
        ),
{
    lemma_list_scan(objs, r, t0, t1, objs.len() as int);
}

} // verus!
