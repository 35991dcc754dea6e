//! The closed set of intersectable shapes, dispatched by pattern match.

use vstd::prelude::*;

use crate::aabb::{aabb_wf, AABB};
use crate::cube::{cube_hit_t, cube_wf, Cube};
use crate::hittable::{record_on_ray, record_wf, HitRecord};
use crate::ray::{ray_wf, Ray};
use crate::rect::{
    rect_hit_t, xy_rect_wf, xz_rect_wf, yz_rect_wf, XyRect, XzRect, YzRect,
};
use crate::scalar::{frac_le, frac_lt, Frac, Rat};
use crate::sphere::{
    moving_eff, moving_sphere_wf, sphere_bbox, sphere_hit_t, sphere_wf, MovingSphere, Sphere,
};
use crate::vec3::{in_range, Vec3, BOX_MAX, COORD_MAX};

verus! {

/// A shape moved by a fixed offset: the ray is shifted into object
/// space, the inner shape queried, and the hit point mapped back.
pub struct Translate {
    pub offset: Vec3,
    pub inner: Box<Primitive>,
}

/// Every intersectable shape of the scene.
pub enum Primitive {
    Sphere(Sphere),
    MovingSphere(MovingSphere),
    XyRect(XyRect),
    XzRect(XzRect),
    YzRect(YzRect),
    Cube(Cube),
    Translate(Translate),
    Rotate(crate::rotate::RotateY),
}

pub open spec fn prim_wf(p: Primitive) -> bool
    decreases p,
{
    match p {
        Primitive::Sphere(s) => sphere_wf(s),
        Primitive::MovingSphere(ms) => moving_sphere_wf(ms),
        Primitive::XyRect(rc) => xy_rect_wf(rc),
        Primitive::XzRect(rc) => xz_rect_wf(rc),
        Primitive::YzRect(rc) => yz_rect_wf(rc),
        Primitive::Cube(cb) => cube_wf(cb),
        Primitive::Translate(tr) => in_range(tr.offset, COORD_MAX as int) && prim_wf(*tr.inner),
        Primitive::Rotate(rt) => crate::rotate::rotate_wf(rt),
    }
}

/// Whether the ray origin, shifted by `-offset`, stays on the grid.
pub open spec fn moved_ok(r: Ray, off: Vec3) -> bool {
    -COORD_MAX <= r.origin.x - off.x <= COORD_MAX && -COORD_MAX <= r.origin.y - off.y <= COORD_MAX
        && -COORD_MAX <= r.origin.z - off.z <= COORD_MAX
}

/// The ray shifted into the translated shape's object space.
pub open spec fn moved_ray(r: Ray, off: Vec3) -> Ray {
    Ray {
        origin: Vec3 {
            x: (r.origin.x - off.x) as i64,
            y: (r.origin.y - off.y) as i64,
            z: (r.origin.z - off.z) as i64,
        },
        direction: r.direction,
        time: r.time,
    }
}

/// The parameter each shape reports; translation leaves parameters
/// unchanged, and rejects rays whose shifted origin leaves the grid.
pub open spec fn prim_hit_t(p: Primitive, r: Ray, t0: Frac, t1: Frac) -> Option<Frac>
    decreases p,
{
    match p {
        Primitive::Sphere(s) => sphere_hit_t(s, r, t0, t1),
        Primitive::MovingSphere(ms) => sphere_hit_t(moving_eff(ms, r.time as int), r, t0, t1),
        Primitive::XyRect(rc) => rect_hit_t(
            r,
            2,
            0,
            1,
            rc.x0 as int,
            rc.x1 as int,
            rc.y0 as int,
            rc.y1 as int,
            rc.k as int,
            t0,
            t1,
        ),
        Primitive::XzRect(rc) => rect_hit_t(
            r,
            1,
            0,
            2,
            rc.x0 as int,
            rc.x1 as int,
            rc.z0 as int,
            rc.z1 as int,
            rc.k as int,
            t0,
            t1,
        ),
        Primitive::YzRect(rc) => rect_hit_t(
            r,
            0,
            1,
            2,
            rc.y0 as int,
            rc.y1 as int,
            rc.z0 as int,
            rc.z1 as int,
            rc.k as int,
            t0,
            t1,
        ),
        Primitive::Cube(cb) => cube_hit_t(cb, r, t0, t1),
        Primitive::Translate(tr) => if moved_ok(r, tr.offset) {
            prim_hit_t(*tr.inner, moved_ray(r, tr.offset), t0, t1)
        } else {
            None
        },
        Primitive::Rotate(rt) => crate::rotate::rotate_hit_t(rt, r, t0, t1),
    }
}

/// The bounding box of each shape over the exposure interval, when it
/// stays on the grid.
pub open spec fn prim_bbox(p: Primitive, tm0: int, tm1: int) -> Option<AABB>
    decreases p,
{
    match p {
        Primitive::Sphere(s) => Some(sphere_bbox(s)),
        Primitive::MovingSphere(ms) => Some(
            AABB::spec_surrounding(
                sphere_bbox(moving_eff(ms, tm0)),
                sphere_bbox(moving_eff(ms, tm1)),
            ),
        ),
        Primitive::XyRect(rc) => Some(
            AABB {
                minimum: Vec3 { x: rc.x0, y: rc.y0, z: (rc.k - 1) as i64 },
                maximum: Vec3 { x: rc.x1, y: rc.y1, z: (rc.k + 1) as i64 },
            },
        ),
        Primitive::XzRect(rc) => Some(
            AABB {
                minimum: Vec3 { x: rc.x0, y: (rc.k - 1) as i64, z: rc.z0 },
                maximum: Vec3 { x: rc.x1, y: (rc.k + 1) as i64, z: rc.z1 },
            },
        ),
        Primitive::YzRect(rc) => Some(
            AABB {
                minimum: Vec3 { x: (rc.k - 1) as i64, y: rc.y0, z: rc.z0 },
                maximum: Vec3 { x: (rc.k + 1) as i64, y: rc.y1, z: rc.z1 },
            },
        ),
        Primitive::Cube(cb) => Some(AABB { minimum: cb.minimum, maximum: cb.maximum }),
        Primitive::Translate(tr) => match prim_bbox(*tr.inner, tm0, tm1) {
            Some(bb) => if shift_ok(bb, tr.offset) {
                Some(shift_box(bb, tr.offset))
            } else {
                None
            },
            None => None,
        },
        Primitive::Rotate(rt) => Some(rt.bbox),
    }
}

/// Whether the shifted box stays on the extended grid.
pub open spec fn shift_ok(bb: AABB, off: Vec3) -> bool {
    -BOX_MAX <= bb.minimum.x + off.x <= BOX_MAX && -BOX_MAX <= bb.minimum.y + off.y <= BOX_MAX
        && -BOX_MAX <= bb.minimum.z + off.z <= BOX_MAX && -BOX_MAX <= bb.maximum.x + off.x
        <= BOX_MAX && -BOX_MAX <= bb.maximum.y + off.y <= BOX_MAX && -BOX_MAX <= bb.maximum.z
        + off.z <= BOX_MAX
}

/// The box moved by `off`.
pub open spec fn shift_box(bb: AABB, off: Vec3) -> AABB {
    AABB {
        minimum: Vec3 {
            x: (bb.minimum.x + off.x) as i64,
            y: (bb.minimum.y + off.y) as i64,
            z: (bb.minimum.z + off.z) as i64,
        },
        maximum: Vec3 {
            x: (bb.maximum.x + off.x) as i64,
            y: (bb.maximum.y + off.y) as i64,
            z: (bb.maximum.z + off.z) as i64,
        },
    }
}

/// A translated hit's record: the inner record with the point taken on
/// the world ray at the same parameter; everything else passes through.
pub open spec fn translate_rec(r: Ray, irec: HitRecord) -> HitRecord {
    HitRecord {
        t: irec.t,
        p: crate::ray::RatPoint {
            xn: crate::ray::ray_at(r, irec.t@, 0).num as i128,
            yn: crate::ray::ray_at(r, irec.t@, 1).num as i128,
            zn: crate::ray::ray_at(r, irec.t@, 2).num as i128,
            den: irec.t.den,
        },
        normal: irec.normal,
        front_face: irec.front_face,
        u: irec.u,
        v: irec.v,
        material: irec.material,
    }
}

/// The whole report of each shape, record and all; translation passes
/// the record through with the point remapped onto the world ray.
pub open spec fn prim_hit_rec(p: Primitive, r: Ray, t0: Frac, t1: Frac) -> Option<HitRecord>
    decreases p,
{
    match p {
        Primitive::Sphere(s) => crate::sphere::sphere_hit_rec(s, r, t0, t1),
        Primitive::MovingSphere(ms) => crate::sphere::sphere_hit_rec(
            moving_eff(ms, r.time as int),
            r,
            t0,
            t1,
        ),
        Primitive::XyRect(rc) => crate::rect::rect_hit_rec(
            r,
            2,
            0,
            1,
            rc.x0 as int,
            rc.x1 as int,
            rc.y0 as int,
            rc.y1 as int,
            rc.k as int,
            rc.mp as int,
            t0,
            t1,
        ),
        Primitive::XzRect(rc) => crate::rect::rect_hit_rec(
            r,
            1,
            0,
            2,
            rc.x0 as int,
            rc.x1 as int,
            rc.z0 as int,
            rc.z1 as int,
            rc.k as int,
            rc.mp as int,
            t0,
            t1,
        ),
        Primitive::YzRect(rc) => crate::rect::rect_hit_rec(
            r,
            0,
            1,
            2,
            rc.y0 as int,
            rc.y1 as int,
            rc.z0 as int,
            rc.z1 as int,
            rc.k as int,
            rc.mp as int,
            t0,
            t1,
        ),
        Primitive::Cube(cb) => crate::cube::cube_hit_rec(cb, r, t0, t1),
        Primitive::Translate(tr) => if moved_ok(r, tr.offset) {
            match prim_hit_rec(*tr.inner, moved_ray(r, tr.offset), t0, t1) {
                Option::Some(irec) => Some(translate_rec(r, irec)),
                Option::None => None,
            }
        } else {
            None
        },
        Primitive::Rotate(rt) => crate::rotate::rotate_hit_rec(rt, r, t0, t1),
    }
}

/// The material a shape's hits carry: every shape holds one material,
/// and the wrappers pass their inner shape's through.
pub open spec fn prim_material(p: Primitive) -> usize
    decreases p,
{
    match p {
        Primitive::Sphere(s) => s.material,
        Primitive::MovingSphere(ms) => ms.material,
        Primitive::XyRect(rc) => rc.mp,
        Primitive::XzRect(rc) => rc.mp,
        Primitive::YzRect(rc) => rc.mp,
        Primitive::Cube(cb) => cb.material,
        Primitive::Translate(tr) => prim_material(*tr.inner),
        Primitive::Rotate(rt) => prim_material(*rt.inner),
    }
}

impl Primitive {
    /// Dispatch the intersection test to the shape.
    pub fn hit(&self, ray: &Ray, t_min: &Rat, t_max: &Rat) -> (res: Option<HitRecord>)
        requires
            prim_wf(*self),
            ray_wf(*ray),
            t_min.wf(),
            t_max.wf(),
        ensures
            res == prim_hit_rec(*self, *ray, t_min@, t_max@),
            res matches Some(rec) ==> {
                &&& prim_hit_t(*self, *ray, t_min@, t_max@) == Some(rec.t@)
                &&& record_wf(rec)
                &&& record_on_ray(rec, *ray)
                &&& frac_le(t_min@, rec.t@)
                &&& frac_le(rec.t@, t_max@)
                &&& rec.material == prim_material(*self)
            },
            res matches Some(rec) ==> (self matches Primitive::Sphere(s)
                ==> crate::sphere::sphere_record_ok(*s, *ray, rec)),
            res matches Some(rec) ==> (self matches Primitive::MovingSphere(ms)
                ==> crate::sphere::sphere_record_ok(
                moving_eff(*ms, ray.time as int),
                *ray,
                rec,
            )),
            res matches Some(rec) ==> (self matches Primitive::XyRect(rc)
                ==> crate::rect::rect_record_ok(
                rec,
                *ray,
                2,
                0,
                1,
                rc.x0 as int,
                rc.x1 as int,
                rc.y0 as int,
                rc.y1 as int,
                rc.mp as int,
            )),
            res matches Some(rec) ==> (self matches Primitive::XzRect(rc)
                ==> crate::rect::rect_record_ok(
                rec,
                *ray,
                1,
                0,
                2,
                rc.x0 as int,
                rc.x1 as int,
                rc.z0 as int,
                rc.z1 as int,
                rc.mp as int,
            )),
            res matches Some(rec) ==> (self matches Primitive::YzRect(rc)
                ==> crate::rect::rect_record_ok(
                rec,
                *ray,
                0,
                1,
                2,
                rc.y0 as int,
                rc.y1 as int,
                rc.z0 as int,
                rc.z1 as int,
                rc.mp as int,
            )),
            res is None ==> prim_hit_t(*self, *ray, t_min@, t_max@) is None,
        decreases *self,
    {
        match self {
            Primitive::Sphere(s) => {
                let res = s.hit(ray, t_min, t_max);
                proof {
                    if let Some(rec) = res {
                        lemma_lt_le(t_min@, rec.t@, t_max@);
                    }
                }
                res
            },
            Primitive::MovingSphere(ms) => {
                let res = ms.hit(ray, t_min, t_max);
                proof {
                    if let Some(rec) = res {
                        lemma_lt_le(t_min@, rec.t@, t_max@);
                    }
                }
                res
            },
            Primitive::XyRect(rc) => rc.hit(ray, t_min, t_max),
            Primitive::XzRect(rc) => rc.hit(ray, t_min, t_max),
            Primitive::YzRect(rc) => rc.hit(ray, t_min, t_max),
            Primitive::Cube(cb) => cb.hit(ray, t_min, t_max),
            Primitive::Rotate(rt) => rt.hit(ray, t_min, t_max),
            Primitive::Translate(tr) => {
                let ox = ray.origin.x - tr.offset.x;
                let oy = ray.origin.y - tr.offset.y;
                let oz = ray.origin.z - tr.offset.z;
                if ox < -COORD_MAX || ox > COORD_MAX || oy < -COORD_MAX || oy > COORD_MAX || oz
                    < -COORD_MAX || oz > COORD_MAX {
                    return None;
                }
                let moved = Ray {
                    origin: Vec3 { x: ox, y: oy, z: oz },
                    direction: ray.direction,
                    time: ray.time,
                };
                proof {
                    assert(moved == moved_ray(*ray, tr.offset));
                }
                match tr.inner.hit(&moved, t_min, t_max) {
                    Some(rec) => {
                        let p = ray.point_at_parameter(&rec.t);
                        let built = HitRecord {
                            t: rec.t,
                            p,
                            normal: rec.normal,
                            front_face: rec.front_face,
                            u: rec.u,
                            v: rec.v,
                            material: rec.material,
                        };
                        proof {
                            let model = translate_rec(*ray, rec);
                            assert(p.coord(0) == crate::ray::ray_at(*ray, rec.t@, 0));
                            assert(p.coord(1) == crate::ray::ray_at(*ray, rec.t@, 1));
                            assert(p.coord(2) == crate::ray::ray_at(*ray, rec.t@, 2));
                            assert(built.p.xn == model.p.xn && built.p.yn == model.p.yn
                                && built.p.zn == model.p.zn && built.p.den == model.p.den);
                            assert(built == model);
                        }
                        Some(built)
                    },
                    None => None,
                }
            },
        }
    }

    /// The shape's bounding box over the exposure interval.
    pub fn bounding_box(&self, time0: i64, time1: i64) -> (res: Option<AABB>)
        requires
            prim_wf(*self),
            -COORD_MAX <= time0 <= COORD_MAX,
            -COORD_MAX <= time1 <= COORD_MAX,
        ensures
            res == prim_bbox(*self, time0 as int, time1 as int),
            res matches Some(bb) ==> aabb_wf(bb),
        decreases *self,
    {
        match self {
            Primitive::Sphere(s) => s.bounding_box(time0, time1),
            Primitive::MovingSphere(ms) => ms.bounding_box(time0, time1),
            Primitive::XyRect(rc) => rc.bounding_box(time0, time1),
            Primitive::XzRect(rc) => rc.bounding_box(time0, time1),
            Primitive::YzRect(rc) => rc.bounding_box(time0, time1),
            Primitive::Cube(cb) => cb.bounding_box(time0, time1),
            Primitive::Rotate(rt) => {
                proof {
                    assert(crate::rotate::rotate_wf(*rt));
                }
                rt.bounding_box(time0, time1)
            },
            Primitive::Translate(tr) => match tr.inner.bounding_box(time0, time1) {
                Some(bb) => {
                    let mnx = bb.minimum.x + tr.offset.x;
                    let mny = bb.minimum.y + tr.offset.y;
                    let mnz = bb.minimum.z + tr.offset.z;
                    let mxx = bb.maximum.x + tr.offset.x;
                    let mxy = bb.maximum.y + tr.offset.y;
                    let mxz = bb.maximum.z + tr.offset.z;
                    if mnx < -BOX_MAX || mnx > BOX_MAX || mny < -BOX_MAX || mny > BOX_MAX || mnz
                        < -BOX_MAX || mnz > BOX_MAX || mxx < -BOX_MAX || mxx > BOX_MAX || mxy
                        < -BOX_MAX || mxy > BOX_MAX || mxz < -BOX_MAX || mxz > BOX_MAX {
                        None
                    } else {
                        Some(
                            AABB {
                                minimum: Vec3 { x: mnx, y: mny, z: mnz },
                                maximum: Vec3 { x: mxx, y: mxy, z: mxz },
                            },
                        )
                    }
                },
                None => None,
            },
        }
    }
}

/// A strict interval membership is also a loose one.
proof fn lemma_lt_le(t0: Frac, t: Frac, t1: Frac)
    requires
        frac_lt(t0, t),
        frac_lt(t, t1),
    ensures
        frac_le(t0, t),
        frac_le(t, t1),
{
}

} // verus!
