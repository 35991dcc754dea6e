//! The constant-density medium: a boundary shape filled with fog that
//! scatters a ray after a sampled free path.
//!
//! The exponential free-path draw itself is the shell's work (it needs a
//! logarithm); the medium takes the sampled distance as an argument and
//! decides, exactly, whether the ray scatters inside the boundary
//! segment — and the reported parameter never leaves the clamped
//! entry–exit interval.

use vstd::prelude::*;

use crate::hittable::{record_on_ray, record_wf, HitRecord};
use crate::primitive::{prim_hit_t, prim_wf, Primitive};
use crate::ray::{ray_wf, Ray};
use crate::scalar::{
    div_floor, frac_le, frac_max, frac_min, frac_of_int, isqrt, Frac, Rat, RAT_BOUND,
};
use crate::vec3::{Vec3, BOX_MAX, UNIT};

verus! {

/// The Q32.32 epsilon stepped past the entry before the exit search.
pub const MEDIUM_EPS_Q32: i128 = 0x6_8db9;  // about 1e-4

/// The Q32.32 magnitude bound on medium parameters.
pub const MEDIUM_T_BOUND: i128 = 0x800_0000_0000_0000;  // 2^59

/// One over 2^32, the denominator of the medium's parameter grid.
pub const Q32_ONE: i128 = 0x1_0000_0000;

pub struct ConstantMedium {
    pub boundary: Box<Primitive>,
    pub phase_function: usize,
    pub density_q: i64,
}

pub open spec fn medium_wf(m: ConstantMedium) -> bool {
    prim_wf(*m.boundary) && 0 < m.density_q
}

/// The medium's whole decision, written out: entry and re-entry of the
/// boundary, the clamped Q32.32 segment, the degenerate-direction and
/// grid checks, and the free-path comparison.  A scatter is reported
/// exactly when every step goes through, and its parameter is the
/// clamped entry plus the free path over the ray length, floored to
/// the Q32.32 grid.
pub open spec fn medium_hit_t(m: ConstantMedium, r: Ray, t0: Frac, t1: Frac, hd: int) -> Option<
    Frac,
> {
    let horizon = Frac { num: RAT_BOUND as int, den: 1 };
    let neg_horizon = Frac { num: -(RAT_BOUND as int), den: 1 };
    match prim_hit_t(*m.boundary, r, neg_horizon, horizon) {
        Option::None => None,
        Option::Some(t1f) => {
            let t1_floor = t1f.num * (Q32_ONE as int) / t1f.den;
            if t1_floor < -(MEDIUM_T_BOUND as int) || t1_floor > MEDIUM_T_BOUND as int {
                None
            } else {
                let restart = Frac { num: t1_floor + MEDIUM_EPS_Q32, den: Q32_ONE as int };
                match prim_hit_t(*m.boundary, r, restart, horizon) {
                    Option::None => None,
                    Option::Some(t2f) => {
                        let ta = frac_max(t1f, t0);
                        let tb = frac_min(t2f, t1);
                        let ta_ceil = -((-(ta.num * Q32_ONE as int)) / ta.den);
                        let tb_floor = tb.num * (Q32_ONE as int) / tb.den;
                        if ta_ceil < -(MEDIUM_T_BOUND as int) || ta_ceil > MEDIUM_T_BOUND as int
                            || tb_floor < -(MEDIUM_T_BOUND as int) || tb_floor > MEDIUM_T_BOUND as int {
                            None
                        } else if ta_ceil >= tb_floor {
                            None
                        } else {
                            let ta_q = if ta_ceil < 0 {
                                0
                            } else {
                                ta_ceil
                            };
                            if ta_q >= tb_floor {
                                None
                            } else {
                                let len = crate::scalar::sqrt_floor(
                                    crate::vec3::sq_len(r.direction) as nat,
                                ) as int;
                                if len == 0 {
                                    None
                                } else {
                                    let dist = (tb_floor - ta_q) * len;
                                    let hdq48 = hd * (Q32_ONE as int);
                                    if hdq48 > dist {
                                        None
                                    } else {
                                        Some(
                                            Frac {
                                                num: ta_q + hdq48 / len,
                                                den: Q32_ONE as int,
                                            },
                                        )
                                    }
                                }
                            }
                        }
                    },
                }
            }
        },
    }
}

impl ConstantMedium {
    pub fn new(boundary: Box<Primitive>, density_q: i64, phase_function: usize) -> (m:
        ConstantMedium)
        ensures
            m.boundary == boundary,
            m.density_q == density_q,
            m.phase_function == phase_function,
    {
        ConstantMedium { boundary, phase_function, density_q }
    }

    /// Sample a scattering event along the ray: find the boundary entry
    /// and exit, clamp them to the query interval and to zero, and
    /// scatter after `hit_distance_q` (a Q16.16 free-path length in
    /// world units, drawn outside) if the segment is long enough.  The
    /// reported parameter always lies between the clamped entry and
    /// exit.
    pub fn hit(&self, ray: &Ray, t_min: &Rat, t_max: &Rat, hit_distance_q: i64) -> (res: Option<
        HitRecord,
    >)
        requires
            medium_wf(*self),
            ray_wf(*ray),
            t_min.wf(),
            t_max.wf(),
            0 <= hit_distance_q <= 0x100_0000_0000,
        ensures
            res matches Some(rec) ==> medium_hit_t(
                *self,
                *ray,
                t_min@,
                t_max@,
                hit_distance_q as int,
            ) == Some(rec.t@),
            res is None ==> medium_hit_t(
                *self,
                *ray,
                t_min@,
                t_max@,
                hit_distance_q as int,
            ) is None,
            res matches Some(rec) ==> ({
                let horizon = Frac { num: RAT_BOUND as int, den: 1 };
                let neg_horizon = Frac { num: -(RAT_BOUND as int), den: 1 };
                let entry = prim_hit_t(*self.boundary, *ray, neg_horizon, horizon);
                &&& entry is Some
                &&& ({
                    let t1_floor = entry->Some_0.num * (Q32_ONE as int) / entry->Some_0.den;
                    let restart = Frac { num: t1_floor + MEDIUM_EPS_Q32, den: Q32_ONE as int };
                    let exit = prim_hit_t(*self.boundary, *ray, restart, horizon);
                    &&& exit is Some
                    &&& frac_le(frac_max(entry->Some_0, t_min@), rec.t@)
                    &&& frac_le(frac_of_int(0), rec.t@)
                    &&& frac_le(rec.t@, frac_min(exit->Some_0, t_max@))
                })
                &&& record_wf(rec)
                &&& record_on_ray(rec, *ray)
                &&& rec.material == self.phase_function
            }),
    {
        let horizon = Rat::new(RAT_BOUND, 1);
        let neg_horizon = Rat::new(-RAT_BOUND, 1);
        let rec1 = match self.boundary.hit(ray, &neg_horizon, &horizon) {
            Some(r1) => r1,
            None => {
                return None;
            },
        };
        // The re-entry search starts one epsilon past the entry, on the
        // Q32.32 grid.
        let t1_floor = div_floor(rec1.t.num * Q32_ONE, rec1.t.den);
        if t1_floor < -MEDIUM_T_BOUND || t1_floor > MEDIUM_T_BOUND {
            return None;
        }
        let restart = Rat::new(t1_floor + MEDIUM_EPS_Q32, Q32_ONE);
        let rec2 = match self.boundary.hit(ray, &restart, &horizon) {
            Some(r2) => r2,
            None => {
                return None;
            },
        };
        // Clamp the segment to the query interval, on the Q32.32 grid:
        // the entry rounds up, the exit rounds down, so the reported
        // parameter stays within the exact clamped segment.
        let ta = rec1.t.max(*t_min);
        let tb = rec2.t.min(*t_max);
        proof {
            crate::scalar::lemma_rat_products_fit(ta, tb);
        }
        let neg_floor = div_floor(-(ta.num * Q32_ONE), ta.den);
        proof {
            assert(-0x1_0000_0000_0000_0000_0000_0000_0000 < neg_floor
                < 0x1_0000_0000_0000_0000_0000_0000_0000) by (nonlinear_arith)
                requires
                    ta.den * neg_floor <= -(ta.num * Q32_ONE) < ta.den * (neg_floor + 1),
                    0 < ta.den <= 0x1000_0000_0000_0000,
                    -0x1000_0000_0000_0000 <= ta.num <= 0x1000_0000_0000_0000,
                    Q32_ONE == 0x1_0000_0000,
            ;
        }
        let ta_ceil = -neg_floor;
        proof {
            assert(ta.den * ta_ceil >= ta.num * Q32_ONE) by (nonlinear_arith)
                requires
                    ta.den * neg_floor <= -(ta.num * Q32_ONE),
                    ta_ceil == -neg_floor,
            ;
        }
        let tb_floor = div_floor(tb.num * Q32_ONE, tb.den);
        if ta_ceil < -MEDIUM_T_BOUND || ta_ceil > MEDIUM_T_BOUND || tb_floor < -MEDIUM_T_BOUND
            || tb_floor > MEDIUM_T_BOUND {
            return None;
        }
        if ta_ceil >= tb_floor {
            return None;
        }
        let ta_q = if ta_ceil < 0 {
            0
        } else {
            ta_ceil
        };
        if ta_q >= tb_floor {
            return None;
        }
        // The ray length on the grid; a degenerate direction never
        // scatters.
        proof {
            crate::vec3::lemma_dot_bound(ray.direction, ray.direction, BOX_MAX as int);
            assert(3 * ((BOX_MAX as int) * (BOX_MAX as int)) < 0x100_0000_0000_0000)
                by (nonlinear_arith)
                requires
                    BOX_MAX == 0x800_0000,
            ;
        }
        let len_sq = ray.direction.squared_length();
        if len_sq == 0 {
            return None;
        }
        let len_u = isqrt(len_sq as u128);
        proof {
            let lsu = len_sq as u128;
            assert(len_u * len_u <= lsu && lsu < 0x100_0000_0000_0000u128);
            assert(len_u <= 0x1000_0000u128) by (nonlinear_arith)
                requires
                    len_u * len_u <= lsu,
                    lsu < 0x100_0000_0000_0000u128,
            ;
        }
        let len = len_u as i128;
        if len == 0 {
            return None;
        }
        // Compare the free path with the segment length, both in Q48.
        proof {
            assert(0 <= (tb_floor - ta_q) * len <= MEDIUM_T_BOUND * 0x1000_0000)
                by (nonlinear_arith)
                requires
                    0 <= tb_floor - ta_q <= MEDIUM_T_BOUND,
                    0 < len <= 0x1000_0000,
                    MEDIUM_T_BOUND == 0x800_0000_0000_0000,
            ;
        }
        let distance_inside_q48 = (tb_floor - ta_q) * len;
        let hd_q48 = (hit_distance_q as i128) * Q32_ONE;
        if hd_q48 > distance_inside_q48 {
            return None;
        }
        let dt_q32 = div_floor(hd_q48, len);
        proof {
            assert(dt_q32 <= tb_floor - ta_q) by (nonlinear_arith)
                requires
                    len * dt_q32 <= hd_q48,
                    hd_q48 <= (tb_floor - ta_q) * len,
                    len > 0,
            ;
        }
        let t_q32 = ta_q + dt_q32;
        let t = Rat::new(t_q32, Q32_ONE);
        let p = ray.point_at_parameter(&t);
        proof {
            lemma_medium_entry_le(ta, ta_ceil as int, ta_q as int, dt_q32 as int, t@);
            lemma_medium_exit_ge(tb, tb_floor as int, t@);
        }
        Some(
            HitRecord {
                t,
                p,
                normal: Vec3 { x: 0, y: UNIT, z: 0 },
                front_face: true,
                u: 0,
                v: 0,
                material: self.phase_function,
            },
        )
    }

    /// The medium is bounded exactly by its boundary.
    pub fn bounding_box(&self, time0: i64, time1: i64) -> (res: Option<crate::aabb::AABB>)
        requires
            medium_wf(*self),
            -crate::vec3::COORD_MAX <= time0 <= crate::vec3::COORD_MAX,
            -crate::vec3::COORD_MAX <= time1 <= crate::vec3::COORD_MAX,
        ensures
            res == crate::primitive::prim_bbox(*self.boundary, time0 as int, time1 as int),
    {
        self.boundary.bounding_box(time0, time1)
    }
}

/// The reported parameter is at or past the clamped entry: rounding the
/// entry up and walking forward never goes back before it (or before
/// zero).
proof fn lemma_medium_entry_le(ta: Rat, ta_ceil: int, ta_q: int, dt: int, t: Frac)
    requires
        ta.wf(),
        ta.den * ta_ceil >= ta.num * Q32_ONE,
        ta_q == if ta_ceil < 0 {
            0
        } else {
            ta_ceil
        },
        dt >= 0,
        t.num == ta_q + dt,
        t.den == Q32_ONE as int,
    ensures
        frac_le(Frac { num: ta.num as int, den: ta.den as int }, t),
        frac_le(frac_of_int(0), t),
{
    assert(ta.num * t.den <= t.num * ta.den) by (nonlinear_arith)
        requires
            ta.den > 0,
            t.den == Q32_ONE as int,
            Q32_ONE == 0x1_0000_0000,
            ta.den * ta_ceil >= ta.num * Q32_ONE,
            t.num >= ta_ceil,
    ;
    assert(0 * t.den <= t.num * 1) by (nonlinear_arith)
        requires
            t.num >= 0,
            t.den > 0,
    ;
}

/// The reported parameter is at or before the clamped exit: it never
/// passes the rounded-down exit.
proof fn lemma_medium_exit_ge(tb: Rat, tb_floor: int, t: Frac)
    requires
        tb.wf(),
        tb.den * tb_floor <= tb.num * Q32_ONE,
        t.num <= tb_floor,
        t.den == Q32_ONE as int,
    ensures
        frac_le(t, Frac { num: tb.num as int, den: tb.den as int }),
{
    assert(t.num * tb.den <= tb.num * t.den) by (nonlinear_arith)
        requires
            tb.den > 0,
            t.den == Q32_ONE as int,
            Q32_ONE == 0x1_0000_0000,
            tb.den * tb_floor <= tb.num * Q32_ONE,
            t.num <= tb_floor,
    ;
}

} // verus!
