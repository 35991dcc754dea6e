//! Parametric rays and the exact rational points along them.

use vstd::prelude::*;

use crate::scalar::{Frac, Rat, RAT_BOUND};
use crate::vec3::{in_range, Vec3, COORD_MAX};

verus! {

/// A ray `origin + t * direction`, with a Q16.16 `time` for motion blur.
/// The direction is never normalized by the type itself.
#[derive(Clone, Copy, Debug, PartialEq, Eq, Structural)]
pub struct Ray {
    pub origin: Vec3,
    pub direction: Vec3,
    pub time: i64,
}

/// A well-formed ray keeps its origin, direction and time on the bounded
/// coordinate grid.
pub open spec fn ray_wf(r: Ray) -> bool {
    in_range(r.origin, COORD_MAX as int) && in_range(r.direction, COORD_MAX as int) && -COORD_MAX
        <= r.time <= COORD_MAX
}

/// The exact coordinate of the ray point at parameter `t`, along `axis`.
pub open spec fn ray_at(r: Ray, t: Frac, axis: int) -> Frac {
    Frac {
        num: crate::vec3::component_s(r.origin, axis) * t.den + t.num * crate::vec3::component_s(
            r.direction,
            axis,
        ),
        den: t.den,
    }
}

/// A point with exact rational coordinates over one shared denominator:
/// the coordinates are `xn / den`, `yn / den`, `zn / den`.
#[derive(Clone, Copy, Debug, PartialEq, Eq, Structural)]
pub struct RatPoint {
    pub xn: i128,
    pub yn: i128,
    pub zn: i128,
    pub den: i128,
}

/// Magnitude bound on the numerators of a well-formed `RatPoint`.
pub const POINT_NUM_BOUND: i128 = 0x10_0000_0000_0000_0000_0000_0000;  // 2^100

impl RatPoint {
    pub open spec fn wf(self) -> bool {
        0 < self.den <= RAT_BOUND && -POINT_NUM_BOUND <= self.xn <= POINT_NUM_BOUND
            && -POINT_NUM_BOUND <= self.yn <= POINT_NUM_BOUND && -POINT_NUM_BOUND <= self.zn
            <= POINT_NUM_BOUND
    }

    /// The numerator of the coordinate along `axis` (0 = x, 1 = y, 2 = z).
    pub fn component_num(&self, axis: usize) -> (r: i128)
        requires
            axis < 3,
        ensures
            r == self.coord(axis as int).num,
    {
        if axis == 0 {
            self.xn
        } else if axis == 1 {
            self.yn
        } else {
            self.zn
        }
    }

    /// The coordinate along `axis`, as a fraction.
    pub open spec fn coord(self, axis: int) -> Frac {
        if axis == 0 {
            Frac { num: self.xn as int, den: self.den as int }
        } else if axis == 1 {
            Frac { num: self.yn as int, den: self.den as int }
        } else {
            Frac { num: self.zn as int, den: self.den as int }
        }
    }
}

impl Ray {
    pub fn new(origin: Vec3, direction: Vec3, time: i64) -> (r: Ray)
        ensures
            r == (Ray { origin, direction, time }),
    {
        Ray { origin, direction, time }
    }

    /// The exact point on the ray at parameter `t`.
    pub fn point_at_parameter(&self, t: &Rat) -> (p: RatPoint)
        requires
            ray_wf(*self),
            t.wf(),
        ensures
            p.wf(),
            p.den == t.den,
            forall|axis: int| 0 <= axis < 3 ==> p.coord(axis) == ray_at(*self, t@, axis),
    {
        proof {
            lemma_ray_term_fits(self.origin.x as int, self.direction.x as int, *t);
            lemma_ray_term_fits(self.origin.y as int, self.direction.y as int, *t);
            lemma_ray_term_fits(self.origin.z as int, self.direction.z as int, *t);
        }
        RatPoint {
            xn: (self.origin.x as i128) * t.den + t.num * (self.direction.x as i128),
            yn: (self.origin.y as i128) * t.den + t.num * (self.direction.y as i128),
            zn: (self.origin.z as i128) * t.den + t.num * (self.direction.z as i128),
            den: t.den,
        }
    }
}

/// The two products in one ray-point numerator stay within half the
/// `RatPoint` bound each.
proof fn lemma_ray_term_fits(o: int, d: int, t: Rat)
    requires
        -COORD_MAX <= o <= COORD_MAX,
        -COORD_MAX <= d <= COORD_MAX,
        t.wf(),
    ensures
        -POINT_NUM_BOUND / 2 <= o * t.den <= POINT_NUM_BOUND / 2,
        -POINT_NUM_BOUND / 2 <= t.num * d <= POINT_NUM_BOUND / 2,
{
    assert(-POINT_NUM_BOUND / 2 <= o * t.den <= POINT_NUM_BOUND / 2 && -POINT_NUM_BOUND / 2 <= t.num
        * d <= POINT_NUM_BOUND / 2) by (nonlinear_arith)
        requires
            -COORD_MAX <= o <= COORD_MAX,
            -COORD_MAX <= d <= COORD_MAX,
            0 < t.den <= RAT_BOUND,
            -RAT_BOUND <= t.num <= RAT_BOUND,
            COORD_MAX == 0x400_0000,
            RAT_BOUND == 0x1000_0000_0000_0000,
            POINT_NUM_BOUND == 0x10_0000_0000_0000_0000_0000_0000,
    ;
}

} // verus!
