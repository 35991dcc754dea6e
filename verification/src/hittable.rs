//! Hit records: what a successful intersection reports.

use vstd::prelude::*;

use crate::ray::{ray_at, ray_wf, RatPoint, Ray};
use crate::scalar::{frac_lt, Frac, Rat};
use crate::vec3::{dot_s, in_range, Vec3, BOX_MAX, UNIT};

verus! {

/// A successful intersection: the ray parameter `t`, the exact hit point,
/// the oriented Q16.16 near-unit normal, which side was struck, Q16.16
/// texture coordinates, and the index of the surface material.
#[derive(Clone, Copy, Debug)]
pub struct HitRecord {
    pub t: Rat,
    pub p: RatPoint,
    pub normal: Vec3,
    pub front_face: bool,
    pub u: i64,
    pub v: i64,
    pub material: usize,
}

pub open spec fn record_wf(rec: HitRecord) -> bool {
    rec.t.wf() && rec.p.wf() && in_range(rec.normal, 2 * UNIT as int)
}

/// The stored point is exactly the point of `r` at the stored parameter.
pub open spec fn record_on_ray(rec: HitRecord, r: Ray) -> bool {
    rec.p.den == rec.t.den && forall|axis: int|
        0 <= axis < 3 ==> rec.p.coord(axis) == ray_at(r, rec.t@, axis)
}

/// The stored parameter lies strictly inside `(t0, t1)`.
pub open spec fn record_in_interval(rec: HitRecord, t0: Frac, t1: Frac) -> bool {
    frac_lt(t0, rec.t@) && frac_lt(rec.t@, t1)
}

/// Orient an outward normal against the incoming ray: the flag says
/// whether the ray struck the outside, and the normal is flipped to face
/// the ray.
pub fn make_facing_normal(ray: &Ray, outward_normal: Vec3) -> (res: (bool, Vec3))
    requires
        ray_wf(*ray),
        in_range(outward_normal, BOX_MAX as int),
    ensures
        res.0 == (dot_s(ray.direction, outward_normal) < 0),
        res.1 == if res.0 {
            outward_normal
        } else {
            (Vec3 { x: -outward_normal.x as i64, y: -outward_normal.y as i64, z: -outward_normal.z as i64 })
        },
{
    let front_face = ray.direction.dot(&outward_normal) < 0;
    (
        front_face,
        if front_face {
            outward_normal
        } else {
            outward_normal.neg()
        },
    )
}

} // verus!
