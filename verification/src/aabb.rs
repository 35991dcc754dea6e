//! Axis-aligned bounding boxes: the exact slab test and the box union.
//!
//! The slab test follows the interval-shrinking scheme: each axis
//! contributes an entry and an exit parameter, the running interval is
//! intersected with each in turn, and the box is hit exactly when the
//! final open interval is non-empty.  The contract states the same thing
//! independently, one axis at a time, so the executable fold is held to a
//! brute-force per-axis interval intersection.  An axis with a zero
//! direction component constrains the origin to lie within the slab
//! (boundaries included).

use vstd::prelude::*;

use crate::ray::{ray_at, ray_wf, Ray};
use crate::scalar::{
    frac_le, frac_lt, frac_max, frac_min, frac_of_int, frac_wf, lemma_frac_le_trans, Frac, Rat,
    RAT_BOUND,
};
use crate::vec3::{component_s, in_range, Vec3, BOX_MAX, COORD_MAX};

verus! {

#[derive(Clone, Copy, Debug, PartialEq, Eq, Structural)]
pub struct AABB {
    pub minimum: Vec3,
    pub maximum: Vec3,
}

/// Corners stay on the extended grid (a centre plus a radius fits).
pub open spec fn aabb_wf(bb: AABB) -> bool {
    in_range(bb.minimum, BOX_MAX as int) && in_range(bb.maximum, BOX_MAX as int)
}

/// Every coordinate of `inner` lies within `outer`, axis by axis.
pub open spec fn box_contains_box(outer: AABB, inner: AABB) -> bool {
    forall|axis: int|
        0 <= axis < 3 ==> component_s(outer.minimum, axis) <= component_s(inner.minimum, axis)
            && component_s(inner.maximum, axis) <= component_s(outer.maximum, axis)
}

/// The point `(x, y, z)` lies within `bb`, boundaries included.
pub open spec fn point_in_box(bb: AABB, x: int, y: int, z: int) -> bool {
    bb.minimum.x <= x <= bb.maximum.x && bb.minimum.y <= y <= bb.maximum.y && bb.minimum.z <= z
        <= bb.maximum.z
}

/// The parameter at which the ray enters the slab of `axis`, when the
/// direction component `d` is nonzero.
pub open spec fn axis_entry(o: int, d: int, lo: int, hi: int) -> Frac {
    if d > 0 {
        Frac { num: lo - o, den: d }
    } else {
        Frac { num: o - hi, den: -d }
    }
}

/// The parameter at which the ray leaves the slab of `axis`.
pub open spec fn axis_exit(o: int, d: int, lo: int, hi: int) -> Frac {
    if d > 0 {
        Frac { num: hi - o, den: d }
    } else {
        Frac { num: o - lo, den: -d }
    }
}

/// The largest entry parameter over the first `k` axes, starting from `t0`.
/// Axes whose direction component is zero contribute nothing.
pub open spec fn entry_fold(bb: AABB, r: Ray, t0: Frac, k: int) -> Frac
    decreases k,
{
    if k <= 0 {
        t0
    } else {
        let prev = entry_fold(bb, r, t0, k - 1);
        let d = component_s(r.direction, k - 1);
        if d != 0 {
            frac_max(
                prev,
                axis_entry(
                    component_s(r.origin, k - 1),
                    d,
                    component_s(bb.minimum, k - 1),
                    component_s(bb.maximum, k - 1),
                ),
            )
        } else {
            prev
        }
    }
}

/// The smallest exit parameter over the first `k` axes, starting from `t1`.
pub open spec fn exit_fold(bb: AABB, r: Ray, t1: Frac, k: int) -> Frac
    decreases k,
{
    if k <= 0 {
        t1
    } else {
        let prev = exit_fold(bb, r, t1, k - 1);
        let d = component_s(r.direction, k - 1);
        if d != 0 {
            frac_min(
                prev,
                axis_exit(
                    component_s(r.origin, k - 1),
                    d,
                    component_s(bb.minimum, k - 1),
                    component_s(bb.maximum, k - 1),
                ),
            )
        } else {
            prev
        }
    }
}

/// Along each of the first `k` axes with a zero direction component, the
/// ray origin lies inside the slab (boundaries included).
pub open spec fn axes_ok(bb: AABB, r: Ray, k: int) -> bool {
    forall|axis: int|
        0 <= axis < k && component_s(r.direction, axis) == 0 ==> component_s(bb.minimum, axis)
            <= component_s(r.origin, axis) <= component_s(bb.maximum, axis)
}

/// The slab test: the intersection of the three per-axis parameter
/// intervals with the open query interval `(t0, t1)` is non-empty, and
/// every degenerate axis passes through the slab.
pub open spec fn slab_hit(bb: AABB, r: Ray, t0: Frac, t1: Frac) -> bool {
    axes_ok(bb, r, 3) && frac_lt(entry_fold(bb, r, t0, 3), exit_fold(bb, r, t1, 3))
}

/// Folded entry and exit parameters are well formed.
pub proof fn lemma_fold_wf(bb: AABB, r: Ray, t0: Frac, t1: Frac, k: int)
    requires
        frac_wf(t0),
        frac_wf(t1),
    ensures
        frac_wf(entry_fold(bb, r, t0, k)),
        frac_wf(exit_fold(bb, r, t1, k)),
    decreases k,
{
    if k > 0 {
        lemma_fold_wf(bb, r, t0, t1, k - 1);
    }
}

/// The entry fold only grows and the exit fold only shrinks as more axes
/// are taken in.
pub proof fn lemma_fold_mono(bb: AABB, r: Ray, t0: Frac, t1: Frac, k: int, j: int)
    requires
        frac_wf(t0),
        frac_wf(t1),
        0 <= k <= j,
    ensures
        frac_le(entry_fold(bb, r, t0, k), entry_fold(bb, r, t0, j)),
        frac_le(exit_fold(bb, r, t1, j), exit_fold(bb, r, t1, k)),
    decreases j - k,
{
    lemma_fold_wf(bb, r, t0, t1, k);
    if k < j {
        lemma_fold_mono(bb, r, t0, t1, k, j - 1);
        lemma_fold_wf(bb, r, t0, t1, j - 1);
        lemma_fold_wf(bb, r, t0, t1, j);
        let ek = entry_fold(bb, r, t0, k);
        let ep = entry_fold(bb, r, t0, j - 1);
        let ej = entry_fold(bb, r, t0, j);
        assert(frac_le(ep, ej));
        lemma_frac_le_trans(ek, ep, ej);
        let xk = exit_fold(bb, r, t1, k);
        let xp = exit_fold(bb, r, t1, j - 1);
        let xj = exit_fold(bb, r, t1, j);
        assert(frac_le(xj, xp));
        lemma_frac_le_trans(xj, xp, xk);
    }
}

impl AABB {
    /// The union box, componentwise.
    pub open spec fn spec_surrounding(a: AABB, b: AABB) -> AABB {
        AABB {
            minimum: Vec3 {
                x: if a.minimum.x <= b.minimum.x {
                    a.minimum.x
                } else {
                    b.minimum.x
                },
                y: if a.minimum.y <= b.minimum.y {
                    a.minimum.y
                } else {
                    b.minimum.y
                },
                z: if a.minimum.z <= b.minimum.z {
                    a.minimum.z
                } else {
                    b.minimum.z
                },
            },
            maximum: Vec3 {
                x: if a.maximum.x >= b.maximum.x {
                    a.maximum.x
                } else {
                    b.maximum.x
                },
                y: if a.maximum.y >= b.maximum.y {
                    a.maximum.y
                } else {
                    b.maximum.y
                },
                z: if a.maximum.z >= b.maximum.z {
                    a.maximum.z
                } else {
                    b.maximum.z
                },
            },
        }
    }

    /// The componentwise union: minima of minima, maxima of maxima.  The
    /// result contains both arguments whole.
    pub fn surrounding_box(aabb0: AABB, aabb1: AABB) -> (r: AABB)
        ensures
            r == AABB::spec_surrounding(aabb0, aabb1),
            r.minimum.x == if aabb0.minimum.x <= aabb1.minimum.x {
                aabb0.minimum.x
            } else {
                aabb1.minimum.x
            },
            r.minimum.y == if aabb0.minimum.y <= aabb1.minimum.y {
                aabb0.minimum.y
            } else {
                aabb1.minimum.y
            },
            r.minimum.z == if aabb0.minimum.z <= aabb1.minimum.z {
                aabb0.minimum.z
            } else {
                aabb1.minimum.z
            },
            r.maximum.x == if aabb0.maximum.x >= aabb1.maximum.x {
                aabb0.maximum.x
            } else {
                aabb1.maximum.x
            },
            r.maximum.y == if aabb0.maximum.y >= aabb1.maximum.y {
                aabb0.maximum.y
            } else {
                aabb1.maximum.y
            },
            r.maximum.z == if aabb0.maximum.z >= aabb1.maximum.z {
                aabb0.maximum.z
            } else {
                aabb1.maximum.z
            },
            box_contains_box(r, aabb0),
            box_contains_box(r, aabb1),
            aabb_wf(aabb0) && aabb_wf(aabb1) ==> aabb_wf(r),
    {
        let minimum = Vec3 {
            x: if aabb0.minimum.x <= aabb1.minimum.x {
                aabb0.minimum.x
            } else {
                aabb1.minimum.x
            },
            y: if aabb0.minimum.y <= aabb1.minimum.y {
                aabb0.minimum.y
            } else {
                aabb1.minimum.y
            },
            z: if aabb0.minimum.z <= aabb1.minimum.z {
                aabb0.minimum.z
            } else {
                aabb1.minimum.z
            },
        };
        let maximum = Vec3 {
            x: if aabb0.maximum.x >= aabb1.maximum.x {
                aabb0.maximum.x
            } else {
                aabb1.maximum.x
            },
            y: if aabb0.maximum.y >= aabb1.maximum.y {
                aabb0.maximum.y
            } else {
                aabb1.maximum.y
            },
            z: if aabb0.maximum.z >= aabb1.maximum.z {
                aabb0.maximum.z
            } else {
                aabb1.maximum.z
            },
        };
        let r = AABB { minimum, maximum };
        proof {
            assert forall|axis: int| 0 <= axis < 3 implies component_s(r.minimum, axis)
                <= component_s(aabb0.minimum, axis) && component_s(aabb0.maximum, axis)
                <= component_s(r.maximum, axis) by {}
            assert forall|axis: int| 0 <= axis < 3 implies component_s(r.minimum, axis)
                <= component_s(aabb1.minimum, axis) && component_s(aabb1.maximum, axis)
                <= component_s(r.maximum, axis) by {}
        }
        r
    }

    /// The slab test over the open interval `(t_min, t_max)`.
    pub fn hit(&self, ray: &Ray, t_min: &Rat, t_max: &Rat) -> (r: bool)
        requires
            aabb_wf(*self),
            ray_wf(*ray),
            t_min.wf(),
            t_max.wf(),
        ensures
            r == slab_hit(*self, *ray, t_min@, t_max@),
    {
        let ghost bb = *self;
        let ghost ry = *ray;
        let ghost g_t0 = t_min@;
        let ghost g_t1 = t_max@;
        let mut cur_lo: Rat = *t_min;
        let mut cur_hi: Rat = *t_max;
        let mut axis: usize = 0;
        while axis < 3
            invariant
                aabb_wf(bb),
                ray_wf(ry),
                frac_wf(g_t0),
                frac_wf(g_t1),
                axis <= 3,
                cur_lo.wf(),
                cur_hi.wf(),
                cur_lo@ == entry_fold(bb, ry, g_t0, axis as int),
                cur_hi@ == exit_fold(bb, ry, g_t1, axis as int),
                axes_ok(bb, ry, axis as int),
                bb == *self,
                ry == *ray,
                g_t0 == t_min@,
                g_t1 == t_max@,
            decreases 3 - axis,
        {
            let o = ray.origin.component(axis);
            let d = ray.direction.component(axis);
            let lo = self.minimum.component(axis);
            let hi = self.maximum.component(axis);
            if d != 0 {
                let (entry, exit) = axis_interval(o, d, lo, hi);
                cur_lo = cur_lo.max(entry);
                cur_hi = cur_hi.min(exit);
                if !cur_lo.lt(&cur_hi) {
                    proof {
                        lemma_empty_interval_stays_empty(
                            bb,
                            ry,
                            g_t0,
                            g_t1,
                            (axis + 1) as int,
                            cur_lo@,
                            cur_hi@,
                        );
                    }
                    return false;
                }
            } else {
                if o < lo || o > hi {
                    proof {
                        assert(!axes_ok(bb, ry, 3));
                    }
                    return false;
                }
                if !cur_lo.lt(&cur_hi) {
                    proof {
                        lemma_empty_interval_stays_empty(
                            bb,
                            ry,
                            g_t0,
                            g_t1,
                            axis as int,
                            cur_lo@,
                            cur_hi@,
                        );
                    }
                    return false;
                }
            }
            axis = axis + 1;
        }
        proof {
            assert(frac_lt(entry_fold(bb, ry, g_t0, 3), exit_fold(bb, ry, g_t1, 3)) ==> slab_hit(
                bb,
                ry,
                g_t0,
                g_t1,
            ));
        }
        cur_lo.lt(&cur_hi)
    }
}

/// `frac_max` and `frac_min` respect componentwise ordering.
proof fn lemma_max_min_mono(a: Frac, a2: Frac, b: Frac, b2: Frac)
    requires
        frac_wf(a),
        frac_wf(a2),
        frac_wf(b),
        frac_wf(b2),
        frac_le(a, a2),
        frac_le(b, b2),
    ensures
        frac_le(frac_max(a, b), frac_max(a2, b2)),
        frac_le(frac_min(a, b), frac_min(a2, b2)),
{
    let m = frac_max(a, b);
    let m2 = frac_max(a2, b2);
    if frac_lt(a, b) {
        if frac_lt(a2, b2) {
        } else {
            lemma_frac_le_trans(b, b2, a2);
        }
    } else {
        if frac_lt(a2, b2) {
            lemma_frac_le_trans(a, a2, b2);
        } else {
        }
    }
    if frac_lt(b, a) {
        if frac_lt(b2, a2) {
        } else {
            crate::scalar::lemma_frac_lt_le_trans(b, a, a2);
        }
    } else {
        if frac_lt(b2, a2) {
            lemma_frac_le_trans(a, b, b2);
        } else {
        }
    }
}

/// A wider slab starts no later and ends no earlier, per axis.
proof fn lemma_axis_contain(o: int, d: int, lo_o: int, hi_o: int, lo_i: int, hi_i: int)
    requires
        d != 0,
        lo_o <= lo_i,
        hi_i <= hi_o,
    ensures
        frac_le(axis_entry(o, d, lo_o, hi_o), axis_entry(o, d, lo_i, hi_i)),
        frac_le(axis_exit(o, d, lo_i, hi_i), axis_exit(o, d, lo_o, hi_o)),
{
    if d > 0 {
        assert((lo_o - o) * d <= (lo_i - o) * d && (hi_i - o) * d <= (hi_o - o) * d)
            by (nonlinear_arith)
            requires
                d > 0,
                lo_o <= lo_i,
                hi_i <= hi_o,
        ;
    } else {
        assert((o - hi_o) * (-d) <= (o - hi_i) * (-d) && (o - lo_i) * (-d) <= (o - lo_o) * (-d))
            by (nonlinear_arith)
            requires
                d < 0,
                lo_o <= lo_i,
                hi_i <= hi_o,
        ;
    }
}

/// The folds of a containing box bracket the folds of the contained box.
proof fn lemma_fold_contain(outer: AABB, inner: AABB, r: Ray, t0: Frac, t1: Frac, k: int)
    requires
        frac_wf(t0),
        frac_wf(t1),
        box_contains_box(outer, inner),
        0 <= k <= 3,
    ensures
        frac_le(entry_fold(outer, r, t0, k), entry_fold(inner, r, t0, k)),
        frac_le(exit_fold(inner, r, t1, k), exit_fold(outer, r, t1, k)),
    decreases k,
{
    lemma_fold_wf(outer, r, t0, t1, k);
    lemma_fold_wf(inner, r, t0, t1, k);
    if k > 0 {
        lemma_fold_contain(outer, inner, r, t0, t1, k - 1);
        lemma_fold_wf(outer, r, t0, t1, k - 1);
        lemma_fold_wf(inner, r, t0, t1, k - 1);
        let d = component_s(r.direction, k - 1);
        if d != 0 {
            let o = component_s(r.origin, k - 1);
            lemma_axis_contain(
                o,
                d,
                component_s(outer.minimum, k - 1),
                component_s(outer.maximum, k - 1),
                component_s(inner.minimum, k - 1),
                component_s(inner.maximum, k - 1),
            );
            lemma_max_min_mono(
                entry_fold(outer, r, t0, k - 1),
                entry_fold(inner, r, t0, k - 1),
                axis_entry(
                    o,
                    d,
                    component_s(outer.minimum, k - 1),
                    component_s(outer.maximum, k - 1),
                ),
                axis_entry(
                    o,
                    d,
                    component_s(inner.minimum, k - 1),
                    component_s(inner.maximum, k - 1),
                ),
            );
            lemma_max_min_mono(
                exit_fold(inner, r, t1, k - 1),
                exit_fold(outer, r, t1, k - 1),
                axis_exit(
                    o,
                    d,
                    component_s(inner.minimum, k - 1),
                    component_s(inner.maximum, k - 1),
                ),
                axis_exit(
                    o,
                    d,
                    component_s(outer.minimum, k - 1),
                    component_s(outer.maximum, k - 1),
                ),
            );
        }
    }
}

/// A box containing another is hit by every ray that hits the smaller
/// one, over the same interval.
pub proof fn lemma_slab_monotone(outer: AABB, inner: AABB, r: Ray, t0: Frac, t1: Frac)
    requires
        frac_wf(t0),
        frac_wf(t1),
        box_contains_box(outer, inner),
        slab_hit(inner, r, t0, t1),
    ensures
        slab_hit(outer, r, t0, t1),
{
    lemma_fold_contain(outer, inner, r, t0, t1, 3);
    lemma_fold_wf(outer, r, t0, t1, 3);
    lemma_fold_wf(inner, r, t0, t1, 3);
    crate::scalar::lemma_frac_le_lt_trans(
        entry_fold(outer, r, t0, 3),
        entry_fold(inner, r, t0, 3),
        exit_fold(inner, r, t1, 3),
    );
    crate::scalar::lemma_frac_lt_le_trans(
        entry_fold(outer, r, t0, 3),
        exit_fold(inner, r, t1, 3),
        exit_fold(outer, r, t1, 3),
    );
}

/// The union contains each of its two arguments.
pub proof fn lemma_surrounding_contains(a: AABB, b: AABB)
    ensures
        box_contains_box(AABB::spec_surrounding(a, b), a),
        box_contains_box(AABB::spec_surrounding(a, b), b),
{
    let s = AABB::spec_surrounding(a, b);
    assert forall|axis: int| 0 <= axis < 3 implies component_s(s.minimum, axis) <= component_s(
        a.minimum,
        axis,
    ) && component_s(a.maximum, axis) <= component_s(s.maximum, axis) by {}
    assert forall|axis: int| 0 <= axis < 3 implies component_s(s.minimum, axis) <= component_s(
        b.minimum,
        axis,
    ) && component_s(b.maximum, axis) <= component_s(s.maximum, axis) by {}
}

/// A strictly interior crossing makes one axis interval strictly
/// bracket the parameter.
proof fn lemma_axis_strict(o: int, d: int, lo: int, hi: int, t: Frac)
    requires
        d != 0,
        frac_wf(t),
        frac_lt(Frac { num: lo, den: 1 }, Frac { num: o * t.den + t.num * d, den: t.den }),
        frac_lt(Frac { num: o * t.den + t.num * d, den: t.den }, Frac { num: hi, den: 1 }),
    ensures
        frac_lt(axis_entry(o, d, lo, hi), t),
        frac_lt(t, axis_exit(o, d, lo, hi)),
{
    if d > 0 {
        assert((lo - o) * t.den < t.num * d && t.num * d < (hi - o) * t.den) by (nonlinear_arith)
            requires
                lo * t.den < (o * t.den + t.num * d) * 1,
                (o * t.den + t.num * d) * 1 < hi * t.den,
        ;
    } else {
        assert((o - hi) * t.den < t.num * (-d) && t.num * (-d) < (o - lo) * t.den)
            by (nonlinear_arith)
            requires
                lo * t.den < (o * t.den + t.num * d) * 1,
                (o * t.den + t.num * d) * 1 < hi * t.den,
        ;
    }
}

/// The folds strictly bracket a parameter that every axis strictly
/// brackets.
proof fn lemma_fold_strict(bb: AABB, r: Ray, t0: Frac, t1: Frac, t: Frac, k: int)
    requires
        frac_wf(t0),
        frac_wf(t1),
        frac_wf(t),
        frac_lt(t0, t),
        frac_lt(t, t1),
        0 <= k <= 3,
        forall|axis: int|
            0 <= axis < 3 && component_s(r.direction, axis) != 0 ==> frac_lt(
                #[trigger] axis_entry(
                    component_s(r.origin, axis),
                    component_s(r.direction, axis),
                    component_s(bb.minimum, axis),
                    component_s(bb.maximum, axis),
                ),
                t,
            ) && frac_lt(
                t,
                axis_exit(
                    component_s(r.origin, axis),
                    component_s(r.direction, axis),
                    component_s(bb.minimum, axis),
                    component_s(bb.maximum, axis),
                ),
            ),
    ensures
        frac_lt(entry_fold(bb, r, t0, k), t),
        frac_lt(t, exit_fold(bb, r, t1, k)),
    decreases k,
{
    if k > 0 {
        lemma_fold_strict(bb, r, t0, t1, t, k - 1);
        let d = component_s(r.direction, k - 1);
        if d != 0 {
            assert(frac_lt(
                axis_entry(
                    component_s(r.origin, k - 1),
                    d,
                    component_s(bb.minimum, k - 1),
                    component_s(bb.maximum, k - 1),
                ),
                t,
            ));
        }
    }
}

/// Completeness of the slab test: if the ray point at some parameter
/// strictly inside the query interval lies strictly inside every moving
/// slab (and the origin within every degenerate one), the test passes.
pub proof fn lemma_slab_complete(bb: AABB, r: Ray, t0: Frac, t1: Frac, t: Frac)
    requires
        frac_wf(t0),
        frac_wf(t1),
        frac_wf(t),
        frac_lt(t0, t),
        frac_lt(t, t1),
        forall|axis: int|
            0 <= axis < 3 && component_s(r.direction, axis) == 0 ==> component_s(bb.minimum, axis)
                <= component_s(r.origin, axis) <= component_s(bb.maximum, axis),
        forall|axis: int|
            0 <= axis < 3 && component_s(r.direction, axis) != 0 ==> frac_lt(
                Frac { num: component_s(bb.minimum, axis), den: 1 },
                #[trigger] ray_at(r, t, axis),
            ) && frac_lt(ray_at(r, t, axis), Frac { num: component_s(bb.maximum, axis), den: 1 }),
    ensures
        slab_hit(bb, r, t0, t1),
{
    assert forall|axis: int|
        0 <= axis < 3 && component_s(r.direction, axis) != 0 implies frac_lt(
        #[trigger] axis_entry(
            component_s(r.origin, axis),
            component_s(r.direction, axis),
            component_s(bb.minimum, axis),
            component_s(bb.maximum, axis),
        ),
        t,
    ) && frac_lt(
        t,
        axis_exit(
            component_s(r.origin, axis),
            component_s(r.direction, axis),
            component_s(bb.minimum, axis),
            component_s(bb.maximum, axis),
        ),
    ) by {
        assert(frac_lt(Frac { num: component_s(bb.minimum, axis), den: 1 }, ray_at(r, t, axis)));
        lemma_axis_strict(
            component_s(r.origin, axis),
            component_s(r.direction, axis),
            component_s(bb.minimum, axis),
            component_s(bb.maximum, axis),
            t,
        );
    }
    lemma_fold_strict(bb, r, t0, t1, t, 3);
    lemma_fold_wf(bb, r, t0, t1, 3);
    crate::scalar::lemma_frac_lt_trans(entry_fold(bb, r, t0, 3), t, exit_fold(bb, r, t1, 3));
}

/// A box is ordered when each minimum is at or below its maximum.
pub open spec fn aabb_ordered(bb: AABB) -> bool {
    bb.minimum.x <= bb.maximum.x && bb.minimum.y <= bb.maximum.y && bb.minimum.z <= bb.maximum.z
}

/// The surrounding box contains both arguments entirely: every one of
/// the eight corners of each ordered input box lies within the union.
pub proof fn lemma_surrounding_box_contains_corners(a: AABB, b: AABB)
    requires
        aabb_ordered(a),
        aabb_ordered(b),
    ensures
        forall|x: int, y: int, z: int|
            ((x == a.minimum.x || x == a.maximum.x) && (y == a.minimum.y || y == a.maximum.y) && (z
                == a.minimum.z || z == a.maximum.z)) ==> #[trigger] point_in_box(
                AABB::spec_surrounding(a, b),
                x,
                y,
                z,
            ),
        forall|x: int, y: int, z: int|
            ((x == b.minimum.x || x == b.maximum.x) && (y == b.minimum.y || y == b.maximum.y) && (z
                == b.minimum.z || z == b.maximum.z)) ==> #[trigger] point_in_box(
                AABB::spec_surrounding(a, b),
                x,
                y,
                z,
            ),
{
}

impl Default for AABB {
    /// The degenerate box at the origin.
    fn default() -> (r: AABB)
        ensures
            r.minimum == (Vec3 { x: 0i64, y: 0i64, z: 0i64 }),
            r.maximum == (Vec3 { x: 0i64, y: 0i64, z: 0i64 }),
            aabb_wf(r),
    {
        AABB {
            minimum: Vec3 { x: 0, y: 0, z: 0 },
            maximum: Vec3 { x: 0, y: 0, z: 0 },
        }
    }
}

/// The entry and exit parameters of one slab, as exact rationals.
fn axis_interval(o: i64, d: i64, lo: i64, hi: i64) -> (res: (Rat, Rat))
    requires
        d != 0,
        -COORD_MAX <= o <= COORD_MAX,
        -COORD_MAX <= d <= COORD_MAX,
        -BOX_MAX <= lo <= BOX_MAX,
        -BOX_MAX <= hi <= BOX_MAX,
    ensures
        res.0.wf(),
        res.1.wf(),
        res.0@ == axis_entry(o as int, d as int, lo as int, hi as int),
        res.1@ == axis_exit(o as int, d as int, lo as int, hi as int),
{
    if d > 0 {
        (
            Rat::new((lo as i128) - (o as i128), d as i128),
            Rat::new((hi as i128) - (o as i128), d as i128),
        )
    } else {
        (
            Rat::new((o as i128) - (hi as i128), -(d as i128)),
            Rat::new((o as i128) - (lo as i128), -(d as i128)),
        )
    }
}

/// If the running interval is already empty after `k` axes, the interval
/// after all three axes is empty too.
proof fn lemma_empty_interval_stays_empty(
    bb: AABB,
    r: Ray,
    t0: Frac,
    t1: Frac,
    k: int,
    cur_lo: Frac,
    cur_hi: Frac,
)
    requires
        frac_wf(t0),
        frac_wf(t1),
        0 <= k <= 3,
        cur_lo == entry_fold(bb, r, t0, k),
        cur_hi == exit_fold(bb, r, t1, k),
        !frac_lt(cur_lo, cur_hi),
    ensures
        !frac_lt(entry_fold(bb, r, t0, 3), exit_fold(bb, r, t1, 3)),
        !slab_hit(bb, r, t0, t1),
{
    lemma_fold_mono(bb, r, t0, t1, k, 3);
    lemma_fold_wf(bb, r, t0, t1, k);
    lemma_fold_wf(bb, r, t0, t1, 3);
    let l3 = entry_fold(bb, r, t0, 3);
    let h3 = exit_fold(bb, r, t1, 3);
    // cur_hi <= cur_lo, cur_lo <= l3, h3 <= cur_hi, hence h3 <= l3.
    lemma_frac_le_trans(h3, cur_hi, cur_lo);
    lemma_frac_le_trans(h3, cur_lo, l3);
}

} // verus!
