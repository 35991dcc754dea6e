//! Axis-aligned rectangles in the three coordinate planes.
//!
//! A rectangle solves the plane-crossing parameter exactly, then
//! bounds-checks the two in-plane coordinates (boundaries included, as
//! for the closed query interval).  A ray parallel to the plane never
//! hits.  The bounding box pads the thin axis by one grid step so the
//! slab test never sees a zero-width interval.

use vstd::prelude::*;

use crate::aabb::{aabb_wf, AABB};
use crate::hittable::{record_on_ray, record_wf, HitRecord};
use crate::ray::{ray_at, ray_wf, RatPoint, Ray};
use crate::scalar::{
    div_round, frac_le, frac_of_int, round_div, Frac, Rat, POW2_124, RAT_BOUND,
};
use crate::vec3::{component_s, Vec3, COORD_MAX, UNIT};

verus! {

/// The parameter at which the ray crosses `coordinate == k` on `axis`,
/// as a positive-denominator fraction; meaningful only when the
/// direction component is nonzero.
pub open spec fn plane_t(r: Ray, axis: int, k: int) -> Frac {
    let o = component_s(r.origin, axis);
    let d = component_s(r.direction, axis);
    if d > 0 {
        Frac { num: k - o, den: d }
    } else {
        Frac { num: o - k, den: -d }
    }
}

/// The rectangle test in the plane `plane_axis == k`, bounded by
/// `[a0, a1]` along `a_axis` and `[b0, b1]` along `b_axis`: the
/// plane-crossing parameter when it lies in the closed query interval
/// and both in-plane coordinates lie within their closed bounds.
pub open spec fn rect_hit_t(
    r: Ray,
    plane_axis: int,
    a_axis: int,
    b_axis: int,
    a0: int,
    a1: int,
    b0: int,
    b1: int,
    k: int,
    t0: Frac,
    t1: Frac,
) -> Option<Frac> {
    let d = component_s(r.direction, plane_axis);
    if d == 0 {
        None
    } else {
        let t = plane_t(r, plane_axis, k);
        if frac_le(t0, t) && frac_le(t, t1) && frac_le(frac_of_int(a0), ray_at(r, t, a_axis))
            && frac_le(ray_at(r, t, a_axis), frac_of_int(a1)) && frac_le(
            frac_of_int(b0),
            ray_at(r, t, b_axis),
        ) && frac_le(ray_at(r, t, b_axis), frac_of_int(b1)) {
            Some(t)
        } else {
            None
        }
    }
}

/// The Q16.16 texture coordinate of `coord` within `[lo, hi]`, rounded:
/// `round((coord - lo) / (hi - lo) * UNIT)` over the exact rational
/// coordinate `num / den`.
pub open spec fn rect_uv(num: int, den: int, lo: int, hi: int) -> int {
    round_div((num - lo * den) * UNIT, (hi - lo) * den)
}

/// The outward unit normal of the plane `plane_axis`, before orientation.
pub open spec fn axis_unit(plane_axis: int) -> Vec3 {
    if plane_axis == 0 {
        Vec3 { x: UNIT, y: 0, z: 0 }
    } else if plane_axis == 1 {
        Vec3 { x: 0, y: UNIT, z: 0 }
    } else {
        Vec3 { x: 0, y: 0, z: UNIT }
    }
}

/// The oriented unit normal of a rectangle hit: the plane's outward
/// unit, flipped to face the ray.
pub open spec fn rect_oriented_normal_s(r: Ray, plane_axis: int) -> Vec3 {
    if component_s(r.direction, plane_axis) < 0 {
        axis_unit(plane_axis)
    } else {
        Vec3 {
            x: -axis_unit(plane_axis).x as i64,
            y: -axis_unit(plane_axis).y as i64,
            z: -axis_unit(plane_axis).z as i64,
        }
    }
}

/// What every rectangle hit guarantees, shared by the three orientations.
pub open spec fn rect_record_ok(
    rec: HitRecord,
    r: Ray,
    plane_axis: int,
    a_axis: int,
    b_axis: int,
    a0: int,
    a1: int,
    b0: int,
    b1: int,
    mat: int,
) -> bool {
    &&& record_wf(rec)
    &&& record_on_ray(rec, r)
    &&& rec.material == mat
    &&& rec.front_face == (component_s(r.direction, plane_axis) < 0)
    &&& rec.normal == if rec.front_face {
        axis_unit(plane_axis)
    } else {
        (Vec3 {
            x: -axis_unit(plane_axis).x as i64,
            y: -axis_unit(plane_axis).y as i64,
            z: -axis_unit(plane_axis).z as i64,
        })
    }
    &&& rec.u == rect_uv(ray_at(r, rec.t@, a_axis).num, rec.t@.den, a0, a1)
    &&& rec.v == rect_uv(ray_at(r, rec.t@, b_axis).num, rec.t@.den, b0, b1)
}

/// The full record of a rectangle hit at parameter `t`.
pub open spec fn rect_rec_at(
    r: Ray,
    plane_axis: int,
    a_axis: int,
    b_axis: int,
    a0: int,
    a1: int,
    b0: int,
    b1: int,
    mp: int,
    t: Frac,
) -> HitRecord {
    HitRecord {
        t: Rat { num: t.num as i128, den: t.den as i128 },
        p: RatPoint {
            xn: ray_at(r, t, 0).num as i128,
            yn: ray_at(r, t, 1).num as i128,
            zn: ray_at(r, t, 2).num as i128,
            den: t.den as i128,
        },
        normal: rect_oriented_normal_s(r, plane_axis),
        front_face: component_s(r.direction, plane_axis) < 0,
        u: rect_uv(ray_at(r, t, a_axis).num, t.den, a0, a1) as i64,
        v: rect_uv(ray_at(r, t, b_axis).num, t.den, b0, b1) as i64,
        material: mp as usize,
    }
}

/// The whole report of the rectangle test.
pub open spec fn rect_hit_rec(
    r: Ray,
    plane_axis: int,
    a_axis: int,
    b_axis: int,
    a0: int,
    a1: int,
    b0: int,
    b1: int,
    k: int,
    mp: int,
    t0: Frac,
    t1: Frac,
) -> Option<HitRecord> {
    match rect_hit_t(r, plane_axis, a_axis, b_axis, a0, a1, b0, b1, k, t0, t1) {
        Option::Some(t) => Some(
            rect_rec_at(r, plane_axis, a_axis, b_axis, a0, a1, b0, b1, mp, t),
        ),
        Option::None => None,
    }
}

/// The shared rectangle test.
#[verifier::rlimit(100)]
fn rect_hit_core(
    ray: &Ray,
    plane_axis: usize,
    a_axis: usize,
    b_axis: usize,
    a0: i64,
    a1: i64,
    b0: i64,
    b1: i64,
    k: i64,
    mat: usize,
    t_min: &Rat,
    t_max: &Rat,
) -> (res: Option<HitRecord>)
    requires
        ray_wf(*ray),
        t_min.wf(),
        t_max.wf(),
        plane_axis < 3,
        a_axis < 3,
        b_axis < 3,
        -COORD_MAX <= a0 < a1 <= COORD_MAX,
        -COORD_MAX <= b0 < b1 <= COORD_MAX,
        -COORD_MAX <= k <= COORD_MAX,
    ensures
        res == rect_hit_rec(
            *ray,
            plane_axis as int,
            a_axis as int,
            b_axis as int,
            a0 as int,
            a1 as int,
            b0 as int,
            b1 as int,
            k as int,
            mat as int,
            t_min@,
            t_max@,
        ),
        res matches Some(rec) ==> rect_hit_t(
            *ray,
            plane_axis as int,
            a_axis as int,
            b_axis as int,
            a0 as int,
            a1 as int,
            b0 as int,
            b1 as int,
            k as int,
            t_min@,
            t_max@,
        ) == Some(rec.t@),
        res matches Some(rec) ==> rect_record_ok(
            rec,
            *ray,
            plane_axis as int,
            a_axis as int,
            b_axis as int,
            a0 as int,
            a1 as int,
            b0 as int,
            b1 as int,
            mat as int,
        ),
        res is None ==> rect_hit_t(
            *ray,
            plane_axis as int,
            a_axis as int,
            b_axis as int,
            a0 as int,
            a1 as int,
            b0 as int,
            b1 as int,
            k as int,
            t_min@,
            t_max@,
        ) is None,
{
    let d = ray.direction.component(plane_axis);
    if d == 0 {
        return None;
    }
    let o = ray.origin.component(plane_axis);
    let t = if d > 0 {
        Rat::new((k as i128) - (o as i128), d as i128)
    } else {
        Rat::new((o as i128) - (k as i128), -(d as i128))
    };
    proof {
        assert(t@ == plane_t(*ray, plane_axis as int, k as int));
    }
    if t.lt(t_min) || t_max.lt(&t) {
        return None;
    }
    let p = ray.point_at_parameter(&t);
    proof {
        assert(p.coord(a_axis as int) == ray_at(*ray, t@, a_axis as int));
        assert(p.coord(b_axis as int) == ray_at(*ray, t@, b_axis as int));
        lemma_coord_products(t.den, a0 as int, a1 as int, b0 as int, b1 as int);
    }
    let den = t.den;
    let an = p.component_num(a_axis);
    let bn = p.component_num(b_axis);
    proof {
        assert(an == ray_at(*ray, t@, a_axis as int).num);
        assert(bn == ray_at(*ray, t@, b_axis as int).num);
        assert(den == ray_at(*ray, t@, a_axis as int).den);
        assert(den == ray_at(*ray, t@, b_axis as int).den);
    }
    if an < (a0 as i128) * den || an > (a1 as i128) * den {
        proof {
            let ra = ray_at(*ray, t@, a_axis as int);
            assert(ra.num == an && ra.den == den);
            assert(frac_le(frac_of_int(a0 as int), ra) == (a0 * ra.den <= ra.num * 1));
            assert(frac_le(ra, frac_of_int(a1 as int)) == (ra.num * 1 <= a1 * ra.den));
            assert(an * 1 == an) by (nonlinear_arith);
            assert(!(frac_le(frac_of_int(a0 as int), ray_at(*ray, t@, a_axis as int)) && frac_le(
                ray_at(*ray, t@, a_axis as int),
                frac_of_int(a1 as int),
            )));
            assert(rect_hit_t(
                *ray,
                plane_axis as int,
                a_axis as int,
                b_axis as int,
                a0 as int,
                a1 as int,
                b0 as int,
                b1 as int,
                k as int,
                t_min@,
                t_max@,
            ) is None);
        }
        return None;
    }
    if bn < (b0 as i128) * den || bn > (b1 as i128) * den {
        proof {
            let rb = ray_at(*ray, t@, b_axis as int);
            assert(rb.num == bn && rb.den == den);
            assert(bn * 1 == bn) by (nonlinear_arith);
            assert(rect_hit_t(
                *ray,
                plane_axis as int,
                a_axis as int,
                b_axis as int,
                a0 as int,
                a1 as int,
                b0 as int,
                b1 as int,
                k as int,
                t_min@,
                t_max@,
            ) is None);
        }
        return None;
    }
    proof {
        let ra = ray_at(*ray, t@, a_axis as int);
        let rb = ray_at(*ray, t@, b_axis as int);
        assert(ra.num == an && ra.den == den && rb.num == bn && rb.den == den);
        assert(an * 1 == an && bn * 1 == bn) by (nonlinear_arith);
        assert(rect_hit_t(
            *ray,
            plane_axis as int,
            a_axis as int,
            b_axis as int,
            a0 as int,
            a1 as int,
            b0 as int,
            b1 as int,
            k as int,
            t_min@,
            t_max@,
        ) == Some(t@));
    }
    proof {
        lemma_uv_round(an as int, den as int, a0 as int, a1 as int);
        lemma_uv_round(bn as int, den as int, b0 as int, b1 as int);
    }
    let u = div_round((an - (a0 as i128) * den) * (UNIT as i128), ((a1 as i128) - (a0 as i128))
        * den) as i64;
    let v = div_round((bn - (b0 as i128) * den) * (UNIT as i128), ((b1 as i128) - (b0 as i128))
        * den) as i64;
    let front_face = d < 0;
    let unit_n = if plane_axis == 0 {
        Vec3 { x: UNIT, y: 0, z: 0 }
    } else if plane_axis == 1 {
        Vec3 { x: 0, y: UNIT, z: 0 }
    } else {
        Vec3 { x: 0, y: 0, z: UNIT }
    };
    let normal = if front_face {
        unit_n
    } else {
        unit_n.neg()
    };
    let built = HitRecord { t, p, normal, front_face, u, v, material: mat };
    proof {
        let model = rect_rec_at(
            *ray,
            plane_axis as int,
            a_axis as int,
            b_axis as int,
            a0 as int,
            a1 as int,
            b0 as int,
            b1 as int,
            mat as int,
            t@,
        );
        assert(built.t.num == model.t.num && built.t.den == model.t.den);
        assert(p.coord(0) == ray_at(*ray, t@, 0));
        assert(p.coord(1) == ray_at(*ray, t@, 1));
        assert(p.coord(2) == ray_at(*ray, t@, 2));
        assert(built.p.xn == model.p.xn && built.p.yn == model.p.yn && built.p.zn == model.p.zn
            && built.p.den == model.p.den);
        assert(built.normal == model.normal);
        assert(built == model);
    }
    Some(built)
}

/// The in-plane bound products fit in `i128`.
proof fn lemma_coord_products(den: i128, a0: int, a1: int, b0: int, b1: int)
    requires
        0 < den <= RAT_BOUND,
        -COORD_MAX <= a0 <= COORD_MAX,
        -COORD_MAX <= a1 <= COORD_MAX,
        -COORD_MAX <= b0 <= COORD_MAX,
        -COORD_MAX <= b1 <= COORD_MAX,
    ensures
        -0x40_0000_0000_0000_0000_0000 <= a0 * den <= 0x40_0000_0000_0000_0000_0000,  // 2^86
        -0x40_0000_0000_0000_0000_0000 <= a1 * den <= 0x40_0000_0000_0000_0000_0000,
        -0x40_0000_0000_0000_0000_0000 <= b0 * den <= 0x40_0000_0000_0000_0000_0000,
        -0x40_0000_0000_0000_0000_0000 <= b1 * den <= 0x40_0000_0000_0000_0000_0000,
{
    assert(-0x40_0000_0000_0000_0000_0000 <= a0 * den <= 0x40_0000_0000_0000_0000_0000
        && -0x40_0000_0000_0000_0000_0000 <= a1 * den <= 0x40_0000_0000_0000_0000_0000
        && -0x40_0000_0000_0000_0000_0000 <= b0 * den <= 0x40_0000_0000_0000_0000_0000
        && -0x40_0000_0000_0000_0000_0000 <= b1 * den <= 0x40_0000_0000_0000_0000_0000)
        by (nonlinear_arith)
        requires
            0 < den <= 0x1000_0000_0000_0000,
            -0x400_0000 <= a0 <= 0x400_0000,
            -0x400_0000 <= a1 <= 0x400_0000,
            -0x400_0000 <= b0 <= 0x400_0000,
            -0x400_0000 <= b1 <= 0x400_0000,
    ;
}

/// The rounded texture coordinate stays in `[0, UNIT]` and its inputs
/// fit the rounding division.
proof fn lemma_uv_round(num: int, den: int, lo: int, hi: int)
    requires
        0 < den <= RAT_BOUND,
        -COORD_MAX <= lo < hi <= COORD_MAX,
        lo * den <= num <= hi * den,
    ensures
        0 <= num - lo * den <= (hi - lo) * den,
        0 < (hi - lo) * den < POW2_124 as int,
        -(0x1000_0000_0000_0000_0000_0000_0000) < (num - lo * den) * UNIT
            < 0x1000_0000_0000_0000_0000_0000_0000,  // 2^108
        0 <= rect_uv(num, den, lo, hi) <= UNIT,
{
    assert(POW2_124 as int == 0x1000_0000_0000_0000_0000_0000_0000_0000);
    assert(num - lo * den <= (hi - lo) * den && 0 < (hi - lo) * den <= 0x80_0000_0000_0000_0000_0000)
        by (nonlinear_arith)  // 2^87
        requires
            0 < den <= 0x1000_0000_0000_0000,
            -0x400_0000 <= lo < hi <= 0x400_0000,
            num <= hi * den,
    ;
    let w = (hi - lo) * den;
    let x = num - lo * den;
    assert(0 <= x * UNIT <= 0x1000_0000_0000_0000_0000_0000_0000) by (nonlinear_arith)
        requires
            0 <= x <= 0x80_0000_0000_0000_0000_0000,
            UNIT == 0x1_0000,
    ;
    let q = round_div(x * UNIT, w);
    assert(2 * w * q == 2 * (x * UNIT) + w - (2 * (x * UNIT) + w) % (2 * w) && 0 <= (2 * (x * UNIT)
        + w) % (2 * w) < 2 * w) by (nonlinear_arith)
        requires
            0 < w,
            q == (2 * (x * UNIT) + w) / (2 * w),
    ;
    assert(0 <= q <= UNIT) by (nonlinear_arith)
        requires
            0 < w,
            0 <= x <= w,
            UNIT == 0x1_0000,
            2 * w * q <= 2 * (x * UNIT) + w,
            2 * (x * UNIT) + w < 2 * w * q + 2 * w,
    ;
}

/// A rectangle in the plane `z == k`.
#[derive(Clone, Copy, Debug)]
pub struct XyRect {
    pub x0: i64,
    pub x1: i64,
    pub y0: i64,
    pub y1: i64,
    pub k: i64,
    pub mp: usize,
}

pub open spec fn xy_rect_wf(rc: XyRect) -> bool {
    -COORD_MAX <= rc.x0 < rc.x1 <= COORD_MAX && -COORD_MAX <= rc.y0 < rc.y1 <= COORD_MAX
        && -COORD_MAX <= rc.k <= COORD_MAX
}

impl XyRect {
    pub fn hit(&self, ray: &Ray, t_min: &Rat, t_max: &Rat) -> (res: Option<HitRecord>)
        requires
            xy_rect_wf(*self),
            ray_wf(*ray),
            t_min.wf(),
            t_max.wf(),
        ensures
            res == rect_hit_rec(
                *ray,
                2,
                0,
                1,
                self.x0 as int,
                self.x1 as int,
                self.y0 as int,
                self.y1 as int,
                self.k as int,
                self.mp as int,
                t_min@,
                t_max@,
            ),
            match res {
                Some(rec) => rect_hit_t(
                    *ray,
                    2,
                    0,
                    1,
                    self.x0 as int,
                    self.x1 as int,
                    self.y0 as int,
                    self.y1 as int,
                    self.k as int,
                    t_min@,
                    t_max@,
                ) == Some(rec.t@) && rect_record_ok(
                    rec,
                    *ray,
                    2,
                    0,
                    1,
                    self.x0 as int,
                    self.x1 as int,
                    self.y0 as int,
                    self.y1 as int,
                    self.mp as int,
                ),
                None => rect_hit_t(
                    *ray,
                    2,
                    0,
                    1,
                    self.x0 as int,
                    self.x1 as int,
                    self.y0 as int,
                    self.y1 as int,
                    self.k as int,
                    t_min@,
                    t_max@,
                ) is None,
            },
    {
        rect_hit_core(ray, 2, 0, 1, self.x0, self.x1, self.y0, self.y1, self.k, self.mp, t_min, t_max)
    }

    /// The box of the rectangle, one grid step thick along `z`.
    pub fn bounding_box(&self, _t0: i64, _t1: i64) -> (res: Option<AABB>)
        requires
            xy_rect_wf(*self),
        ensures
            res == Some(
                AABB {
                    minimum: Vec3 { x: self.x0, y: self.y0, z: (self.k - 1) as i64 },
                    maximum: Vec3 { x: self.x1, y: self.y1, z: (self.k + 1) as i64 },
                },
            ),
            aabb_wf(res->Some_0),
    {
        Some(
            AABB {
                minimum: Vec3 { x: self.x0, y: self.y0, z: self.k - 1 },
                maximum: Vec3 { x: self.x1, y: self.y1, z: self.k + 1 },
            },
        )
    }
}

/// A rectangle in the plane `y == k`.
#[derive(Clone, Copy, Debug)]
pub struct XzRect {
    pub x0: i64,
    pub x1: i64,
    pub z0: i64,
    pub z1: i64,
    pub k: i64,
    pub mp: usize,
}

pub open spec fn xz_rect_wf(rc: XzRect) -> bool {
    -COORD_MAX <= rc.x0 < rc.x1 <= COORD_MAX && -COORD_MAX <= rc.z0 < rc.z1 <= COORD_MAX
        && -COORD_MAX <= rc.k <= COORD_MAX
}

impl XzRect {
    pub fn hit(&self, ray: &Ray, t_min: &Rat, t_max: &Rat) -> (res: Option<HitRecord>)
        requires
            xz_rect_wf(*self),
            ray_wf(*ray),
            t_min.wf(),
            t_max.wf(),
        ensures
            res == rect_hit_rec(
                *ray,
                1,
                0,
                2,
                self.x0 as int,
                self.x1 as int,
                self.z0 as int,
                self.z1 as int,
                self.k as int,
                self.mp as int,
                t_min@,
                t_max@,
            ),
            match res {
                Some(rec) => rect_hit_t(
                    *ray,
                    1,
                    0,
                    2,
                    self.x0 as int,
                    self.x1 as int,
                    self.z0 as int,
                    self.z1 as int,
                    self.k as int,
                    t_min@,
                    t_max@,
                ) == Some(rec.t@) && rect_record_ok(
                    rec,
                    *ray,
                    1,
                    0,
                    2,
                    self.x0 as int,
                    self.x1 as int,
                    self.z0 as int,
                    self.z1 as int,
                    self.mp as int,
                ),
                None => rect_hit_t(
                    *ray,
                    1,
                    0,
                    2,
                    self.x0 as int,
                    self.x1 as int,
                    self.z0 as int,
                    self.z1 as int,
                    self.k as int,
                    t_min@,
                    t_max@,
                ) is None,
            },
    {
        rect_hit_core(ray, 1, 0, 2, self.x0, self.x1, self.z0, self.z1, self.k, self.mp, t_min, t_max)
    }

    /// The box of the rectangle, one grid step thick along `y`.
    pub fn bounding_box(&self, _t0: i64, _t1: i64) -> (res: Option<AABB>)
        requires
            xz_rect_wf(*self),
        ensures
            res == Some(
                AABB {
                    minimum: Vec3 { x: self.x0, y: (self.k - 1) as i64, z: self.z0 },
                    maximum: Vec3 { x: self.x1, y: (self.k + 1) as i64, z: self.z1 },
                },
            ),
            aabb_wf(res->Some_0),
    {
        Some(
            AABB {
                minimum: Vec3 { x: self.x0, y: self.k - 1, z: self.z0 },
                maximum: Vec3 { x: self.x1, y: self.k + 1, z: self.z1 },
            },
        )
    }
}

/// A rectangle in the plane `x == k`.
#[derive(Clone, Copy, Debug)]
pub struct YzRect {
    pub y0: i64,
    pub y1: i64,
    pub z0: i64,
    pub z1: i64,
    pub k: i64,
    pub mp: usize,
}

pub open spec fn yz_rect_wf(rc: YzRect) -> bool {
    -COORD_MAX <= rc.y0 < rc.y1 <= COORD_MAX && -COORD_MAX <= rc.z0 < rc.z1 <= COORD_MAX
        && -COORD_MAX <= rc.k <= COORD_MAX
}

impl YzRect {
    pub fn hit(&self, ray: &Ray, t_min: &Rat, t_max: &Rat) -> (res: Option<HitRecord>)
        requires
            yz_rect_wf(*self),
            ray_wf(*ray),
            t_min.wf(),
            t_max.wf(),
        ensures
            res == rect_hit_rec(
                *ray,
                0,
                1,
                2,
                self.y0 as int,
                self.y1 as int,
                self.z0 as int,
                self.z1 as int,
                self.k as int,
                self.mp as int,
                t_min@,
                t_max@,
            ),
            match res {
                Some(rec) => rect_hit_t(
                    *ray,
                    0,
                    1,
                    2,
                    self.y0 as int,
                    self.y1 as int,
                    self.z0 as int,
                    self.z1 as int,
                    self.k as int,
                    t_min@,
                    t_max@,
                ) == Some(rec.t@) && rect_record_ok(
                    rec,
                    *ray,
                    0,
                    1,
                    2,
                    self.y0 as int,
                    self.y1 as int,
                    self.z0 as int,
                    self.z1 as int,
                    self.mp as int,
                ),
                None => rect_hit_t(
                    *ray,
                    0,
                    1,
                    2,
                    self.y0 as int,
                    self.y1 as int,
                    self.z0 as int,
                    self.z1 as int,
                    self.k as int,
                    t_min@,
                    t_max@,
                ) is None,
            },
    {
        rect_hit_core(ray, 0, 1, 2, self.y0, self.y1, self.z0, self.z1, self.k, self.mp, t_min, t_max)
    }

    /// The box of the rectangle, one grid step thick along `x`.
    pub fn bounding_box(&self, _t0: i64, _t1: i64) -> (res: Option<AABB>)
        requires
            yz_rect_wf(*self),
        ensures
            res == Some(
                AABB {
                    minimum: Vec3 { x: (self.k - 1) as i64, y: self.y0, z: self.z0 },
                    maximum: Vec3 { x: (self.k + 1) as i64, y: self.y1, z: self.z1 },
                },
            ),
            aabb_wf(res->Some_0),
    {
        Some(
            AABB {
                minimum: Vec3 { x: self.k - 1, y: self.y0, z: self.z0 },
                maximum: Vec3 { x: self.k + 1, y: self.y1, z: self.z1 },
            },
        )
    }
}

} // verus!
