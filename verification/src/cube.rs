//! The axis-aligned box: six rectangle faces, nearest hit wins.

use vstd::prelude::*;

use crate::aabb::{aabb_wf, AABB};
use crate::hittable::{record_on_ray, record_wf, HitRecord};
use crate::ray::{ray_wf, Ray};
use crate::rect::{rect_hit_t, XyRect, XzRect, YzRect};
use crate::scalar::{frac_le, lemma_frac_le_trans, Frac, Rat};
use crate::vec3::{Vec3, COORD_MAX};

verus! {

/// An axis-aligned box between two opposite corners.
#[derive(Clone, Copy, Debug)]
pub struct Cube {
    pub minimum: Vec3,
    pub maximum: Vec3,
    pub material: usize,
}

pub open spec fn cube_wf(cb: Cube) -> bool {
    -COORD_MAX <= cb.minimum.x < cb.maximum.x <= COORD_MAX && -COORD_MAX <= cb.minimum.y
        < cb.maximum.y <= COORD_MAX && -COORD_MAX <= cb.minimum.z < cb.maximum.z <= COORD_MAX
}

/// The search window after a candidate: the candidate itself, or the
/// original upper bound when there is none.
pub open spec fn step_window(t1: Frac, prev: Option<Frac>) -> Frac {
    match prev {
        Some(t) => t,
        None => t1,
    }
}

/// The running best: a new hit replaces the old one (it was found within
/// the tightened window, so it is at least as near).
pub open spec fn step_best(prev: Option<Frac>, cur: Option<Frac>) -> Option<Frac> {
    match cur {
        Some(t) => Some(t),
        None => prev,
    }
}

/// The six face tests in order, each searched up to the best parameter
/// found so far.
pub open spec fn cube_hit_t(cb: Cube, r: Ray, t0: Frac, t1: Frac) -> Option<Frac> {
    let x0 = cb.minimum.x as int;
    let x1 = cb.maximum.x as int;
    let y0 = cb.minimum.y as int;
    let y1 = cb.maximum.y as int;
    let z0 = cb.minimum.z as int;
    let z1 = cb.maximum.z as int;
    let b1 = rect_hit_t(r, 2, 0, 1, x0, x1, y0, y1, z0, t0, t1);
    let b2 = step_best(b1, rect_hit_t(r, 2, 0, 1, x0, x1, y0, y1, z1, t0, step_window(t1, b1)));
    let b3 = step_best(b2, rect_hit_t(r, 1, 0, 2, x0, x1, z0, z1, y0, t0, step_window(t1, b2)));
    let b4 = step_best(b3, rect_hit_t(r, 1, 0, 2, x0, x1, z0, z1, y1, t0, step_window(t1, b3)));
    let b5 = step_best(b4, rect_hit_t(r, 0, 1, 2, y0, y1, z0, z1, x0, t0, step_window(t1, b4)));
    let b6 = step_best(b5, rect_hit_t(r, 0, 1, 2, y0, y1, z0, z1, x1, t0, step_window(t1, b5)));
    b6
}

/// The record-level running best: a new record replaces the old one.
pub open spec fn step_best_rec(prev: Option<HitRecord>, cur: Option<HitRecord>) -> Option<
    HitRecord,
> {
    match cur {
        Option::Some(c) => Some(c),
        Option::None => prev,
    }
}

/// The record-level search window: the best record's parameter, or the
/// original upper bound.
pub open spec fn step_window_rec(t1: Frac, prev: Option<HitRecord>) -> Frac {
    match prev {
        Option::Some(c) => c.t@,
        Option::None => t1,
    }
}

/// The six face reports in order, each searched up to the best
/// parameter found so far, as full records.
pub open spec fn cube_hit_rec(cb: Cube, r: Ray, t0: Frac, t1: Frac) -> Option<HitRecord> {
    let x0 = cb.minimum.x as int;
    let x1 = cb.maximum.x as int;
    let y0 = cb.minimum.y as int;
    let y1 = cb.maximum.y as int;
    let z0 = cb.minimum.z as int;
    let z1 = cb.maximum.z as int;
    let mp = cb.material as int;
    let b1 = crate::rect::rect_hit_rec(r, 2, 0, 1, x0, x1, y0, y1, z0, mp, t0, t1);
    let b2 = step_best_rec(
        b1,
        crate::rect::rect_hit_rec(r, 2, 0, 1, x0, x1, y0, y1, z1, mp, t0, step_window_rec(t1, b1)),
    );
    let b3 = step_best_rec(
        b2,
        crate::rect::rect_hit_rec(r, 1, 0, 2, x0, x1, z0, z1, y0, mp, t0, step_window_rec(t1, b2)),
    );
    let b4 = step_best_rec(
        b3,
        crate::rect::rect_hit_rec(r, 1, 0, 2, x0, x1, z0, z1, y1, mp, t0, step_window_rec(t1, b3)),
    );
    let b5 = step_best_rec(
        b4,
        crate::rect::rect_hit_rec(r, 0, 1, 2, y0, y1, z0, z1, x0, mp, t0, step_window_rec(t1, b4)),
    );
    let b6 = step_best_rec(
        b5,
        crate::rect::rect_hit_rec(r, 0, 1, 2, y0, y1, z0, z1, x1, mp, t0, step_window_rec(t1, b5)),
    );
    b6
}

impl Cube {
    pub fn new(minimum: Vec3, maximum: Vec3, material: usize) -> (cb: Cube)
        ensures
            cb == (Cube { minimum, maximum, material }),
    {
        Cube { minimum, maximum, material }
    }

    /// Test the six faces, keeping the nearest valid hit.
    pub fn hit(&self, ray: &Ray, t_min: &Rat, t_max: &Rat) -> (res: Option<HitRecord>)
        requires
            cube_wf(*self),
            ray_wf(*ray),
            t_min.wf(),
            t_max.wf(),
        ensures
            res == cube_hit_rec(*self, *ray, t_min@, t_max@),
            res matches Some(rec) ==> {
                &&& cube_hit_t(*self, *ray, t_min@, t_max@) == Some(rec.t@)
                &&& record_wf(rec)
                &&& record_on_ray(rec, *ray)
                &&& rec.material == self.material
                &&& frac_le(t_min@, rec.t@)
                &&& frac_le(rec.t@, t_max@)
            },
            res is None ==> cube_hit_t(*self, *ray, t_min@, t_max@) is None,
    {
        let side1 = XyRect {
            x0: self.minimum.x,
            x1: self.maximum.x,
            y0: self.minimum.y,
            y1: self.maximum.y,
            k: self.minimum.z,
            mp: self.material,
        };
        let side2 = XyRect {
            x0: self.minimum.x,
            x1: self.maximum.x,
            y0: self.minimum.y,
            y1: self.maximum.y,
            k: self.maximum.z,
            mp: self.material,
        };
        let side3 = XzRect {
            x0: self.minimum.x,
            x1: self.maximum.x,
            z0: self.minimum.z,
            z1: self.maximum.z,
            k: self.minimum.y,
            mp: self.material,
        };
        let side4 = XzRect {
            x0: self.minimum.x,
            x1: self.maximum.x,
            z0: self.minimum.z,
            z1: self.maximum.z,
            k: self.maximum.y,
            mp: self.material,
        };
        let side5 = YzRect {
            y0: self.minimum.y,
            y1: self.maximum.y,
            z0: self.minimum.z,
            z1: self.maximum.z,
            k: self.minimum.x,
            mp: self.material,
        };
        let side6 = YzRect {
            y0: self.minimum.y,
            y1: self.maximum.y,
            z0: self.minimum.z,
            z1: self.maximum.z,
            k: self.maximum.x,
            mp: self.material,
        };
        let mut best: Option<HitRecord> = None;
        let mut window: Rat = *t_max;
        let h = side1.hit(ray, t_min, &window);
        if let Some(rec) = h {
            best = Some(rec);
            window = rec.t;
        }
        let h = side2.hit(ray, t_min, &window);
        if let Some(rec) = h {
            proof {
                step_keeps_interval(t_min@, t_max@, window@, rec.t@);
            }
            best = Some(rec);
            window = rec.t;
        }
        let h = side3.hit(ray, t_min, &window);
        if let Some(rec) = h {
            proof {
                step_keeps_interval(t_min@, t_max@, window@, rec.t@);
            }
            best = Some(rec);
            window = rec.t;
        }
        let h = side4.hit(ray, t_min, &window);
        if let Some(rec) = h {
            proof {
                step_keeps_interval(t_min@, t_max@, window@, rec.t@);
            }
            best = Some(rec);
            window = rec.t;
        }
        let h = side5.hit(ray, t_min, &window);
        if let Some(rec) = h {
            proof {
                step_keeps_interval(t_min@, t_max@, window@, rec.t@);
            }
            best = Some(rec);
            window = rec.t;
        }
        let h = side6.hit(ray, t_min, &window);
        if let Some(rec) = h {
            proof {
                step_keeps_interval(t_min@, t_max@, window@, rec.t@);
            }
            best = Some(rec);
            window = rec.t;
        }
        best
    }

    /// The box between the two corners.
    pub fn bounding_box(&self, _t0: i64, _t1: i64) -> (res: Option<AABB>)
        requires
            cube_wf(*self),
        ensures
            res == Some(AABB { minimum: self.minimum, maximum: self.maximum }),
            aabb_wf(res->Some_0),
    {
        Some(AABB { minimum: self.minimum, maximum: self.maximum })
    }
}

/// A candidate found within a window inside `[t0, t1]` stays inside
/// `[t0, t1]`.
proof fn step_keeps_interval(t0: Frac, t1: Frac, window: Frac, t: Frac)
    requires
        crate::scalar::frac_wf(t0),
        crate::scalar::frac_wf(t1),
        crate::scalar::frac_wf(window),
        crate::scalar::frac_wf(t),
        frac_le(window, t1),
        frac_le(t0, t),
        frac_le(t, window),
    ensures
        frac_le(t, t1),
{
    lemma_frac_le_trans(t, window, t1);
}

} // verus!
