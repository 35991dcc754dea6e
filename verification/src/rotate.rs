//! Rotation about the y axis: the ray is rotated into object space,
//! the wrapped shape queried, and the hit mapped back.
//!
//! The sine and cosine of the angle arrive as plain Q16.16 values (the
//! trigonometry itself is the shell's work); every rotation the wrapper
//! performs is the exact rounded formula its contract states.  The box
//! is folded once, at construction, from the eight rotated corners of
//! the wrapped shape's box.

use vstd::prelude::*;

use crate::aabb::{aabb_wf, AABB};
use crate::hittable::{record_on_ray, record_wf, HitRecord};
use crate::primitive::{prim_hit_t, prim_wf, Primitive};
use crate::ray::{ray_wf, Ray};
use crate::scalar::{div_round, frac_le, round_div, Frac, Rat};
use crate::vec3::{Vec3, BOX_MAX, COORD_MAX, UNIT};

verus! {

/// One rotated coordinate: `(a * x + b * z) / UNIT`, rounded.
pub open spec fn rot_coord(a: int, b: int, x: int, z: int) -> int {
    round_div(a * x + b * z, UNIT as int)
}

/// The ray rotated by the angle's negation, into object space, when it
/// stays on the grid.
pub open spec fn object_ray(r: Ray, sin_q: int, cos_q: int) -> Ray {
    Ray {
        origin: Vec3 {
            x: rot_coord(cos_q, -sin_q, r.origin.x as int, r.origin.z as int) as i64,
            y: r.origin.y,
            z: rot_coord(sin_q, cos_q, r.origin.x as int, r.origin.z as int) as i64,
        },
        direction: Vec3 {
            x: rot_coord(cos_q, -sin_q, r.direction.x as int, r.direction.z as int) as i64,
            y: r.direction.y,
            z: rot_coord(sin_q, cos_q, r.direction.x as int, r.direction.z as int) as i64,
        },
        time: r.time,
    }
}

/// Whether the rotated ray's components stay on the grid.
pub open spec fn object_ray_ok(r: Ray, sin_q: int, cos_q: int) -> bool {
    &&& -COORD_MAX <= rot_coord(cos_q, -sin_q, r.origin.x as int, r.origin.z as int) <= COORD_MAX
    &&& -COORD_MAX <= rot_coord(sin_q, cos_q, r.origin.x as int, r.origin.z as int) <= COORD_MAX
    &&& -COORD_MAX <= rot_coord(cos_q, -sin_q, r.direction.x as int, r.direction.z as int)
        <= COORD_MAX
    &&& -COORD_MAX <= rot_coord(sin_q, cos_q, r.direction.x as int, r.direction.z as int)
        <= COORD_MAX
}

/// A rotated corner coordinate, clamped onto the extended grid.
pub open spec fn clamp_box_s(x: int) -> int {
    if x < -BOX_MAX {
        -(BOX_MAX as int)
    } else if x > BOX_MAX {
        BOX_MAX as int
    } else {
        x
    }
}

pub open spec fn min4_s(a: int, b: int, c: int, d: int) -> int {
    let m1 = if a <= b {
        a
    } else {
        b
    };
    let m2 = if c <= d {
        c
    } else {
        d
    };
    if m1 <= m2 {
        m1
    } else {
        m2
    }
}

pub open spec fn max4_s(a: int, b: int, c: int, d: int) -> int {
    let m1 = if a >= b {
        a
    } else {
        b
    };
    let m2 = if c >= d {
        c
    } else {
        d
    };
    if m1 >= m2 {
        m1
    } else {
        m2
    }
}

/// The x coordinate of an object-space corner rotated into world space.
pub open spec fn world_corner_x(sin_q: int, cos_q: int, x: int, z: int) -> int {
    clamp_box_s(rot_coord(cos_q, sin_q, x, z))
}

/// The z coordinate of an object-space corner rotated into world space.
pub open spec fn world_corner_z(sin_q: int, cos_q: int, x: int, z: int) -> int {
    clamp_box_s(rot_coord(-sin_q, cos_q, x, z))
}

/// The world box of a rotated object box: the componentwise extrema of
/// the four rotated x-z corners, with the y extent unchanged.
pub open spec fn rotate_box_s(bb0: AABB, sin_q: int, cos_q: int) -> AABB {
    let x0 = bb0.minimum.x as int;
    let x1 = bb0.maximum.x as int;
    let z0 = bb0.minimum.z as int;
    let z1 = bb0.maximum.z as int;
    AABB {
        minimum: Vec3 {
            x: min4_s(
                world_corner_x(sin_q, cos_q, x0, z0),
                world_corner_x(sin_q, cos_q, x1, z0),
                world_corner_x(sin_q, cos_q, x0, z1),
                world_corner_x(sin_q, cos_q, x1, z1),
            ) as i64,
            y: bb0.minimum.y,
            z: min4_s(
                world_corner_z(sin_q, cos_q, x0, z0),
                world_corner_z(sin_q, cos_q, x1, z0),
                world_corner_z(sin_q, cos_q, x0, z1),
                world_corner_z(sin_q, cos_q, x1, z1),
            ) as i64,
        },
        maximum: Vec3 {
            x: max4_s(
                world_corner_x(sin_q, cos_q, x0, z0),
                world_corner_x(sin_q, cos_q, x1, z0),
                world_corner_x(sin_q, cos_q, x0, z1),
                world_corner_x(sin_q, cos_q, x1, z1),
            ) as i64,
            y: bb0.maximum.y,
            z: max4_s(
                world_corner_z(sin_q, cos_q, x0, z0),
                world_corner_z(sin_q, cos_q, x1, z0),
                world_corner_z(sin_q, cos_q, x0, z1),
                world_corner_z(sin_q, cos_q, x1, z1),
            ) as i64,
        },
    }
}

/// The wrapped shape's box at the given exposure, or the degenerate
/// default box when it has none.
pub open spec fn inner_box_or_default(p: Primitive, tm0: int, tm1: int) -> AABB {
    match crate::primitive::prim_bbox(p, tm0, tm1) {
        Some(bb) => bb,
        None => AABB {
            minimum: Vec3 { x: 0, y: 0, z: 0 },
            maximum: Vec3 { x: 0, y: 0, z: 0 },
        },
    }
}

/// The world-space normal: the object-space normal's x-z pair rotated
/// back by the angle, each rounded component clamped to the near-unit
/// range, the y component unchanged.
pub open spec fn back_rot_normal_s(sin_q: int, cos_q: int, n: Vec3) -> Vec3 {
    Vec3 {
        x: crate::material::clamp_comp_s(rot_coord(cos_q, sin_q, n.x as int, n.z as int), 2 * UNIT as int) as i64,
        y: n.y,
        z: crate::material::clamp_comp_s(rot_coord(-sin_q, cos_q, n.x as int, n.z as int), 2 * UNIT as int) as i64,
    }
}

/// A rotated hit's record: the inner record with the point taken on
/// the world ray and the normal rotated back; parameter, face flag,
/// texture coordinates and material pass through.
pub open spec fn rotate_rec(rt: RotateY, r: Ray, irec: HitRecord) -> HitRecord {
    HitRecord {
        t: irec.t,
        p: crate::ray::RatPoint {
            xn: crate::ray::ray_at(r, irec.t@, 0).num as i128,
            yn: crate::ray::ray_at(r, irec.t@, 1).num as i128,
            zn: crate::ray::ray_at(r, irec.t@, 2).num as i128,
            den: irec.t.den,
        },
        normal: back_rot_normal_s(rt.sin_q as int, rt.cos_q as int, irec.normal),
        front_face: irec.front_face,
        u: irec.u,
        v: irec.v,
        material: irec.material,
    }
}

pub struct RotateY {
    pub inner: Box<Primitive>,
    pub sin_q: i64,
    pub cos_q: i64,
    pub bbox: AABB,
}

pub open spec fn rotate_wf(rt: RotateY) -> bool
    decreases rt,
{
    &&& prim_wf(*rt.inner)
    &&& -UNIT <= rt.sin_q <= UNIT
    &&& -UNIT <= rt.cos_q <= UNIT
    &&& aabb_wf(rt.bbox)
}

/// What the wrapper reports: the wrapped shape's report on the rotated
/// ray, or nothing when the rotation leaves the grid.
pub open spec fn rotate_hit_t(rt: RotateY, r: Ray, t0: Frac, t1: Frac) -> Option<Frac>
    decreases rt,
{
    if object_ray_ok(r, rt.sin_q as int, rt.cos_q as int) {
        prim_hit_t(*rt.inner, object_ray(r, rt.sin_q as int, rt.cos_q as int), t0, t1)
    } else {
        None
    }
}

/// The wrapper's whole report, record and all: the wrapped shape's
/// record on the rotated ray, mapped back to world space.
pub open spec fn rotate_hit_rec(rt: RotateY, r: Ray, t0: Frac, t1: Frac) -> Option<HitRecord>
    decreases rt,
{
    if object_ray_ok(r, rt.sin_q as int, rt.cos_q as int) {
        match crate::primitive::prim_hit_rec(
            *rt.inner,
            object_ray(r, rt.sin_q as int, rt.cos_q as int),
            t0,
            t1,
        ) {
            Option::Some(irec) => Some(rotate_rec(rt, r, irec)),
            Option::None => None,
        }
    } else {
        None
    }
}

/// Rotated Q16.16 products fit, and a rounded rotation of values within
/// `m` stays within `2 * m + 1`.
proof fn lemma_rot_round(a: int, b: int, x: int, z: int, m: int)
    requires
        -UNIT <= a <= UNIT,
        -UNIT <= b <= UNIT,
        0 < m <= 0x4000_0000_0000,
        -m <= x <= m,
        -m <= z <= m,
    ensures
        -0x1000_0000_0000_0000_0000 < a * x + b * z < 0x1000_0000_0000_0000_0000,
        -(m * UNIT) <= a * x <= m * UNIT,
        -(m * UNIT) <= b * z <= m * UNIT,
        m * UNIT <= 0x4000_0000_0000_0000,
        -(2 * m + 1) <= rot_coord(a, b, x, z) <= 2 * m + 1,
{
    assert(-(m * UNIT) <= a * x <= m * UNIT && -(m * UNIT) <= b * z <= m * UNIT && 2 * (m * UNIT)
        < 0x1000_0000_0000_0000_0000 && m * UNIT <= 0x4000_0000_0000_0000) by (nonlinear_arith)
        requires
            -UNIT <= a <= UNIT,
            -UNIT <= b <= UNIT,
            0 < m <= 0x4000_0000_0000,
            -m <= x <= m,
            -m <= z <= m,
            UNIT == 0x1_0000,
    ;
    let q = round_div(a * x + b * z, UNIT as int);
    let w = a * x + b * z;
    assert(2 * UNIT * q == 2 * w + UNIT - (2 * w + UNIT) % (2 * UNIT) && 0 <= (2 * w + UNIT) % (2
        * UNIT) < 2 * UNIT) by (nonlinear_arith)
        requires
            UNIT == 0x1_0000,
            q == (2 * w + UNIT) / (2 * UNIT),
    ;
    assert(-(2 * m + 1) <= q <= 2 * m + 1) by (nonlinear_arith)
        requires
            -2 * (m * UNIT) <= w <= 2 * (m * UNIT),
            2 * UNIT * q <= 2 * w + UNIT,
            2 * w + UNIT < 2 * UNIT * q + 2 * UNIT,
            UNIT == 0x1_0000,
    ;
}

/// One rounded rotation step.
fn rot_exec(a: i64, b: i64, x: i64, z: i64) -> (r: i64)
    requires
        -UNIT <= a <= UNIT,
        -UNIT <= b <= UNIT,
        -BOX_MAX <= x <= BOX_MAX,
        -BOX_MAX <= z <= BOX_MAX,
    ensures
        r == rot_coord(a as int, b as int, x as int, z as int),
        -2 * BOX_MAX - 1 <= r <= 2 * BOX_MAX + 1,
{
    proof {
        lemma_rot_round(a as int, b as int, x as int, z as int, BOX_MAX as int);
    }
    div_round((a as i128) * (x as i128) + (b as i128) * (z as i128), UNIT as i128) as i64
}

impl RotateY {
    /// Wrap a shape, folding the rotated corners of its box (or of the
    /// degenerate default box) into the cached world box; the sine and
    /// cosine are Q16.16 values of one angle.
    #[verifier::rlimit(60)]
    pub fn new(inner: Box<Primitive>, sin_q: i64, cos_q: i64, time0: i64, time1: i64) -> (rt:
        RotateY)
        requires
            prim_wf(*inner),
            -UNIT <= sin_q <= UNIT,
            -UNIT <= cos_q <= UNIT,
            -COORD_MAX <= time0 <= COORD_MAX,
            -COORD_MAX <= time1 <= COORD_MAX,
        ensures
            rotate_wf(rt),
            rt.inner == inner,
            rt.sin_q == sin_q,
            rt.cos_q == cos_q,
            rt.bbox == rotate_box_s(
                inner_box_or_default(*inner, time0 as int, time1 as int),
                sin_q as int,
                cos_q as int,
            ),
    {
        let bb0 = match inner.bounding_box(time0, time1) {
            Some(bb) => bb,
            None => AABB::default(),
        };
        let wx0 = clamp_box(rot_exec(cos_q, sin_q, bb0.minimum.x, bb0.minimum.z));
        let wz0 = clamp_box(rot_exec(-sin_q, cos_q, bb0.minimum.x, bb0.minimum.z));
        let wx1 = clamp_box(rot_exec(cos_q, sin_q, bb0.maximum.x, bb0.minimum.z));
        let wz1 = clamp_box(rot_exec(-sin_q, cos_q, bb0.maximum.x, bb0.minimum.z));
        let wx2 = clamp_box(rot_exec(cos_q, sin_q, bb0.minimum.x, bb0.maximum.z));
        let wz2 = clamp_box(rot_exec(-sin_q, cos_q, bb0.minimum.x, bb0.maximum.z));
        let wx3 = clamp_box(rot_exec(cos_q, sin_q, bb0.maximum.x, bb0.maximum.z));
        let wz3 = clamp_box(rot_exec(-sin_q, cos_q, bb0.maximum.x, bb0.maximum.z));
        let minimum = Vec3 {
            x: min4_i64(wx0, wx1, wx2, wx3),
            y: bb0.minimum.y,
            z: min4_i64(wz0, wz1, wz2, wz3),
        };
        let maximum = Vec3 {
            x: max4_i64(wx0, wx1, wx2, wx3),
            y: bb0.maximum.y,
            z: max4_i64(wz0, wz1, wz2, wz3),
        };
        RotateY { inner, sin_q, cos_q, bbox: AABB { minimum, maximum } }
    }

    /// Rotate the ray into object space, query the wrapped shape, and
    /// report its parameter with the hit point taken on the unrotated
    /// ray and the normal rotated back to world space (clamped to the
    /// near-unit range).
    pub fn hit(&self, ray: &Ray, t_min: &Rat, t_max: &Rat) -> (res: Option<HitRecord>)
        requires
            rotate_wf(*self),
            ray_wf(*ray),
            t_min.wf(),
            t_max.wf(),
        ensures
            res matches Some(rec) ==> {
                &&& rotate_hit_t(*self, *ray, t_min@, t_max@) == Some(rec.t@)
                &&& record_wf(rec)
                &&& record_on_ray(rec, *ray)
                &&& frac_le(t_min@, rec.t@)
                &&& frac_le(rec.t@, t_max@)
                &&& rec.material == crate::primitive::prim_material(*self.inner)
            },
            res == rotate_hit_rec(*self, *ray, t_min@, t_max@),
            res is None ==> rotate_hit_t(*self, *ray, t_min@, t_max@) is None,
        decreases *self,
    {
        let ox = rot_exec(self.cos_q, -self.sin_q, ray.origin.x, ray.origin.z);
        let oz = rot_exec(self.sin_q, self.cos_q, ray.origin.x, ray.origin.z);
        let dx = rot_exec(self.cos_q, -self.sin_q, ray.direction.x, ray.direction.z);
        let dz = rot_exec(self.sin_q, self.cos_q, ray.direction.x, ray.direction.z);
        if ox < -COORD_MAX || ox > COORD_MAX || oz < -COORD_MAX || oz > COORD_MAX || dx < -COORD_MAX
            || dx > COORD_MAX || dz < -COORD_MAX || dz > COORD_MAX {
            return None;
        }
        let rotated = Ray {
            origin: Vec3 { x: ox, y: ray.origin.y, z: oz },
            direction: Vec3 { x: dx, y: ray.direction.y, z: dz },
            time: ray.time,
        };
        proof {
            assert(rotated == object_ray(*ray, self.sin_q as int, self.cos_q as int));
        }
        match self.inner.hit(&rotated, t_min, t_max) {
            Some(rec) => {
                let p = ray.point_at_parameter(&rec.t);
                let nx = rot_exec(self.cos_q, self.sin_q, rec.normal.x, rec.normal.z);
                let nz = rot_exec(-self.sin_q, self.cos_q, rec.normal.x, rec.normal.z);
                let normal = Vec3 {
                    x: clamp_unit2(nx),
                    y: rec.normal.y,
                    z: clamp_unit2(nz),
                };
                proof {
                    assert(normal == back_rot_normal_s(
                        self.sin_q as int,
                        self.cos_q as int,
                        rec.normal,
                    ));
                }
                let built = HitRecord {
                    t: rec.t,
                    p,
                    normal,
                    front_face: rec.front_face,
                    u: rec.u,
                    v: rec.v,
                    material: rec.material,
                };
                proof {
                    let model = rotate_rec(*self, *ray, rec);
                    assert(p.coord(0) == crate::ray::ray_at(*ray, rec.t@, 0));
                    assert(p.coord(1) == crate::ray::ray_at(*ray, rec.t@, 1));
                    assert(p.coord(2) == crate::ray::ray_at(*ray, rec.t@, 2));
                    assert(built.p.xn == model.p.xn && built.p.yn == model.p.yn && built.p.zn
                        == model.p.zn && built.p.den == model.p.den);
                    assert(built == model);
                }
                Some(built)
            },
            None => None,
        }
    }

    /// The cached box, folded at construction.
    pub fn bounding_box(&self, _t0: i64, _t1: i64) -> (res: Option<AABB>)
        ensures
            res == Some(self.bbox),
    {
        Some(self.bbox)
    }
}

/// The smaller four ways.
fn min4_i64(a: i64, b: i64, c: i64, d: i64) -> (r: i64)
    ensures
        r == min4_s(a as int, b as int, c as int, d as int),
{
    let m1 = if a <= b {
        a
    } else {
        b
    };
    let m2 = if c <= d {
        c
    } else {
        d
    };
    if m1 <= m2 {
        m1
    } else {
        m2
    }
}

/// The larger four ways.
fn max4_i64(a: i64, b: i64, c: i64, d: i64) -> (r: i64)
    ensures
        r == max4_s(a as int, b as int, c as int, d as int),
{
    let m1 = if a >= b {
        a
    } else {
        b
    };
    let m2 = if c >= d {
        c
    } else {
        d
    };
    if m1 >= m2 {
        m1
    } else {
        m2
    }
}

/// Clamp a rotated corner onto the extended grid.
fn clamp_box(x: i64) -> (r: i64)
    requires
        -3 * BOX_MAX <= x <= 3 * BOX_MAX,
    ensures
        r == clamp_box_s(x as int),
        -BOX_MAX <= r <= BOX_MAX,
        -BOX_MAX <= x <= BOX_MAX ==> r == x,
{
    if x < -BOX_MAX {
        -BOX_MAX
    } else if x > BOX_MAX {
        BOX_MAX
    } else {
        x
    }
}

/// Clamp a rotated normal component into the near-unit range.
fn clamp_unit2(x: i64) -> (r: i64)
    requires
        -3 * BOX_MAX <= x <= 3 * BOX_MAX,
    ensures
        r == crate::material::clamp_comp_s(x as int, 2 * UNIT as int),
        -2 * UNIT <= r <= 2 * UNIT,
        -2 * UNIT <= x <= 2 * UNIT ==> r == x,
{
    if x < -2 * UNIT {
        -2 * UNIT
    } else if x > 2 * UNIT {
        2 * UNIT
    } else {
        x
    }
}

} // verus!
