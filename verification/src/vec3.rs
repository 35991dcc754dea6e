//! Three-component vectors on the fixed-point grid.
//!
//! A coordinate is an `i64` in Q16.16: one world unit is `UNIT == 65536`
//! grid steps, and positions are kept within `COORD_MAX` so that every
//! product the intersection tests form fits comfortably in `i128`.
//! The same type carries RGB radiance, point and direction alike.

use vstd::prelude::*;

use crate::scalar::{div_round, isqrt, round_div, sqrt_floor};

verus! {

/// One world unit on the Q16.16 grid.
pub const UNIT: i64 = 0x1_0000;

/// Magnitude bound for scene coordinates (1024 world units).
pub const COORD_MAX: i64 = 0x400_0000;

/// Magnitude bound for box corners (`COORD_MAX` plus a radius).
pub const BOX_MAX: i64 = 0x800_0000;

#[derive(Clone, Copy, Debug, PartialEq, Eq, Structural)]
pub struct Vec3 {
    pub x: i64,
    pub y: i64,
    pub z: i64,
}

/// Every component of `v` has magnitude at most `b`.
pub open spec fn in_range(v: Vec3, b: int) -> bool {
    -b <= v.x <= b && -b <= v.y <= b && -b <= v.z <= b
}

/// The exact squared Euclidean length.
pub open spec fn sq_len(v: Vec3) -> int {
    v.x * v.x + v.y * v.y + v.z * v.z
}

/// The exact dot product.
pub open spec fn dot_s(a: Vec3, b: Vec3) -> int {
    a.x * b.x + a.y * b.y + a.z * b.z
}

/// Componentwise products of vectors within `b` stay within `b * b`.
pub proof fn lemma_dot_bound(a: Vec3, b: Vec3, bound: int)
    requires
        0 <= bound,
        in_range(a, bound),
        in_range(b, bound),
    ensures
        -3 * (bound * bound) <= dot_s(a, b) <= 3 * (bound * bound),
        0 <= sq_len(a) <= 3 * (bound * bound),
        -(bound * bound) <= a.x * b.x <= bound * bound,
        -(bound * bound) <= a.y * b.y <= bound * bound,
        -(bound * bound) <= a.z * b.z <= bound * bound,
        0 <= a.x * a.x <= bound * bound,
        0 <= a.y * a.y <= bound * bound,
        0 <= a.z * a.z <= bound * bound,
{
    assert(-3 * (bound * bound) <= dot_s(a, b) <= 3 * (bound * bound) && 0 <= sq_len(a) <= 3 * (
    bound * bound) && -(bound * bound) <= a.x * b.x <= bound * bound && -(bound * bound) <= a.y
        * b.y <= bound * bound && -(bound * bound) <= a.z * b.z <= bound * bound && 0 <= a.x * a.x
        <= bound * bound && 0 <= a.y * a.y <= bound * bound && 0 <= a.z * a.z <= bound * bound)
        by (nonlinear_arith)
        requires
            0 <= bound,
            -bound <= a.x <= bound,
            -bound <= a.y <= bound,
            -bound <= a.z <= bound,
            -bound <= b.x <= bound,
            -bound <= b.y <= bound,
            -bound <= b.z <= bound,
    ;
}

/// Dot-product bounds for vectors with different component bounds.
pub proof fn lemma_dot_bound_mixed(a: Vec3, b: Vec3, ba: int, bb: int)
    requires
        0 <= ba,
        0 <= bb,
        in_range(a, ba),
        in_range(b, bb),
    ensures
        -3 * (ba * bb) <= dot_s(a, b) <= 3 * (ba * bb),
        -(ba * bb) <= a.x * b.x <= ba * bb,
        -(ba * bb) <= a.y * b.y <= ba * bb,
        -(ba * bb) <= a.z * b.z <= ba * bb,
{
    assert(-3 * (ba * bb) <= dot_s(a, b) <= 3 * (ba * bb) && -(ba * bb) <= a.x * b.x <= ba * bb
        && -(ba * bb) <= a.y * b.y <= ba * bb && -(ba * bb) <= a.z * b.z <= ba * bb)
        by (nonlinear_arith)
        requires
            0 <= ba,
            0 <= bb,
            -ba <= a.x <= ba,
            -ba <= a.y <= ba,
            -ba <= a.z <= ba,
            -bb <= b.x <= bb,
            -bb <= b.y <= bb,
            -bb <= b.z <= bb,
    ;
}

impl Vec3 {
    pub fn new(x: i64, y: i64, z: i64) -> (v: Vec3)
        ensures
            v == (Vec3 { x, y, z }),
    {
        Vec3 { x, y, z }
    }

    pub fn x(&self) -> (r: i64)
        ensures
            r == self.x,
    {
        self.x
    }

    pub fn y(&self) -> (r: i64)
        ensures
            r == self.y,
    {
        self.y
    }

    pub fn z(&self) -> (r: i64)
        ensures
            r == self.z,
    {
        self.z
    }

    /// Red channel, when the vector carries a color.
    pub fn r(&self) -> (r: i64)
        ensures
            r == self.x,
    {
        self.x
    }

    /// Green channel, when the vector carries a color.
    pub fn g(&self) -> (r: i64)
        ensures
            r == self.y,
    {
        self.y
    }

    /// Blue channel, when the vector carries a color.
    pub fn b(&self) -> (r: i64)
        ensures
            r == self.z,
    {
        self.z
    }

    /// The component along the given axis (0 = x, 1 = y, 2 = z).
    pub fn component(&self, axis: usize) -> (r: i64)
        requires
            axis < 3,
        ensures
            r == component_s(*self, axis as int),
    {
        if axis == 0 {
            self.x
        } else if axis == 1 {
            self.y
        } else {
            self.z
        }
    }

    pub fn neg(self) -> (r: Vec3)
        requires
            in_range(self, i64::MAX as int),
        ensures
            r == (Vec3 { x: -self.x as i64, y: -self.y as i64, z: -self.z as i64 }),
    {
        Vec3 { x: -self.x, y: -self.y, z: -self.z }
    }

    pub fn add(self, rhs: Vec3) -> (r: Vec3)
        requires
            -i64::MAX <= self.x + rhs.x <= i64::MAX,
            -i64::MAX <= self.y + rhs.y <= i64::MAX,
            -i64::MAX <= self.z + rhs.z <= i64::MAX,
        ensures
            r == (Vec3 {
                x: (self.x + rhs.x) as i64,
                y: (self.y + rhs.y) as i64,
                z: (self.z + rhs.z) as i64,
            }),
    {
        Vec3 { x: self.x + rhs.x, y: self.y + rhs.y, z: self.z + rhs.z }
    }

    pub fn sub(self, rhs: Vec3) -> (r: Vec3)
        requires
            -i64::MAX <= self.x - rhs.x <= i64::MAX,
            -i64::MAX <= self.y - rhs.y <= i64::MAX,
            -i64::MAX <= self.z - rhs.z <= i64::MAX,
        ensures
            r == (Vec3 {
                x: (self.x - rhs.x) as i64,
                y: (self.y - rhs.y) as i64,
                z: (self.z - rhs.z) as i64,
            }),
    {
        Vec3 { x: self.x - rhs.x, y: self.y - rhs.y, z: self.z - rhs.z }
    }

    /// The exact squared length; the value is small enough to be exact in
    /// `i128` because the components are bounded.
    pub fn squared_length(&self) -> (r: i128)
        requires
            in_range(*self, BOX_MAX as int),
        ensures
            r == sq_len(*self),
    {
        proof {
            lemma_dot_bound(*self, *self, BOX_MAX as int);
        }
        (self.x as i128) * (self.x as i128) + (self.y as i128) * (self.y as i128) + (self.z as i128)
            * (self.z as i128)
    }

    /// The exact dot product.
    pub fn dot(&self, other: &Vec3) -> (r: i128)
        requires
            in_range(*self, BOX_MAX as int),
            in_range(*other, BOX_MAX as int),
        ensures
            r == dot_s(*self, *other),
    {
        proof {
            lemma_dot_bound(*self, *other, BOX_MAX as int);
        }
        (self.x as i128) * (other.x as i128) + (self.y as i128) * (other.y as i128) + (self.z
            as i128) * (other.z as i128)
    }

    /// The exact cross product.
    pub fn cross(&self, other: &Vec3) -> (r: Vec3)
        requires
            in_range(*self, COORD_MAX as int),
            in_range(*other, COORD_MAX as int),
        ensures
            r.x == self.y * other.z - self.z * other.y,
            r.y == self.z * other.x - self.x * other.z,
            r.z == self.x * other.y - self.y * other.x,
    {
        proof {
            lemma_cross_fits(*self, *other);
        }
        Vec3 {
            x: self.y * other.z - self.z * other.y,
            y: self.z * other.x - self.x * other.z,
            z: self.x * other.y - self.y * other.x,
        }
    }

    /// The floor of the Euclidean length on the grid.
    pub fn length(&self) -> (r: i64)
        requires
            in_range(*self, BOX_MAX as int),
        ensures
            r == sqrt_floor(sq_len(*self) as nat),
            r * r <= sq_len(*self) < (r + 1) * (r + 1),
            0 <= r <= 3 * BOX_MAX,
    {
        let s = self.squared_length();
        proof {
            lemma_dot_bound(*self, *self, BOX_MAX as int);
            assert((3 * (BOX_MAX as i128)) * (3 * (BOX_MAX as i128)) >= 3 * ((BOX_MAX as i128) * (
            BOX_MAX as i128)) > 0) by (nonlinear_arith)
                requires
                    BOX_MAX == 0x800_0000,
            ;
            assert(s < crate::scalar::POW2_112);
        }
        let r = isqrt(s as u128);
        proof {
            let rr = r as nat;
            let b3 = (3 * BOX_MAX) as nat;
            assert(rr <= b3) by (nonlinear_arith)
                requires
                    rr * rr <= (b3 * b3),
                    rr >= 0,
                    b3 > 0,
                ;
        }
        r as i64
    }

    /// The rounded Q16.16 unit vector in the direction of `self`: each
    /// component is `round(c * UNIT / |self|)` with the floor length.
    pub fn unit_vector(&self) -> (r: Vec3)
        requires
            in_range(*self, BOX_MAX as int),
            sq_len(*self) > 0,
        ensures
            ({
                let len = sqrt_floor(sq_len(*self) as nat) as int;
                r.x == round_div(self.x * UNIT, len) && r.y == round_div(self.y * UNIT, len)
                    && r.z == round_div(self.z * UNIT, len)
            }),
            in_range(r, 4 * UNIT as int),
    {
        let len = self.length();
        proof {
            lemma_unit_component_bounds(*self);
        }
        let rx = div_round((self.x as i128) * (UNIT as i128), len as i128) as i64;
        let ry = div_round((self.y as i128) * (UNIT as i128), len as i128) as i64;
        let rz = div_round((self.z as i128) * (UNIT as i128), len as i128) as i64;
        Vec3 { x: rx, y: ry, z: rz }
    }

    /// Rescale `self` in place to the rounded Q16.16 unit vector.
    pub fn make_unit_vector(&mut self)
        requires
            in_range(*old(self), BOX_MAX as int),
            sq_len(*old(self)) > 0,
        ensures
            ({
                let len = sqrt_floor(sq_len(*old(self)) as nat) as int;
                final(self).x == round_div(old(self).x * UNIT, len) && final(self).y == round_div(
                    old(self).y * UNIT,
                    len,
                ) && final(self).z == round_div(old(self).z * UNIT, len)
            }),
            in_range(*final(self), 4 * UNIT as int),
    {
        let u = self.unit_vector();
        *self = u;
    }

    /// Half of `self` shifted up by one unit per channel: maps a direction
    /// with components in `[-1, 1]` to a color in `[0, 1]`.
    pub fn make_color(&self) -> (r: Vec3)
        requires
            in_range(*self, UNIT as int),
        ensures
            r.x == (self.x + UNIT) / 2,
            r.y == (self.y + UNIT) / 2,
            r.z == (self.z + UNIT) / 2,
    {
        Vec3 { x: (self.x + UNIT) / 2, y: (self.y + UNIT) / 2, z: (self.z + UNIT) / 2 }
    }
}

/// The component of `v` along `axis`.
pub open spec fn component_s(v: Vec3, axis: int) -> int {
    if axis == 0 {
        v.x as int
    } else if axis == 1 {
        v.y as int
    } else {
        v.z as int
    }
}

/// Cross-product terms of coordinate-bounded vectors fit in `i64`.
proof fn lemma_cross_fits(a: Vec3, b: Vec3)
    requires
        in_range(a, COORD_MAX as int),
        in_range(b, COORD_MAX as int),
    ensures
        forall|p: int, q: int|
            -COORD_MAX <= p <= COORD_MAX && -COORD_MAX <= q <= COORD_MAX ==> -0x10_0000_0000_0000
                <= #[trigger] (p * q) <= 0x10_0000_0000_0000,
{
    assert forall|p: int, q: int|
        -COORD_MAX <= p <= COORD_MAX && -COORD_MAX <= q <= COORD_MAX implies -0x10_0000_0000_0000
        <= #[trigger] (p * q) <= 0x10_0000_0000_0000 by {
        assert(-0x10_0000_0000_0000 <= p * q <= 0x10_0000_0000_0000) by (nonlinear_arith)
            requires
                -COORD_MAX <= p <= COORD_MAX,
                -COORD_MAX <= q <= COORD_MAX,
                COORD_MAX == 0x400_0000,
        ;
    }
}

/// The rounded unit components of a bounded vector fit in `i64` and lie
/// within four units.
proof fn lemma_unit_component_bounds(v: Vec3)
    requires
        in_range(v, BOX_MAX as int),
        sq_len(v) > 0,
    ensures
        ({
            let len = sqrt_floor(sq_len(v) as nat) as int;
            0 < len <= 3 * BOX_MAX && -4 * UNIT <= round_div(v.x * UNIT, len) <= 4 * UNIT && -4
                * UNIT <= round_div(v.y * UNIT, len) <= 4 * UNIT && -4 * UNIT <= round_div(
                v.z * UNIT,
                len,
            ) <= 4 * UNIT
        }),
{
    crate::scalar::lemma_sqrt_floor_bracket(sq_len(v) as nat);
    let len = sqrt_floor(sq_len(v) as nat) as int;
    lemma_dot_bound(v, v, BOX_MAX as int);
    assert(len > 0) by (nonlinear_arith)
        requires
            (len + 1) * (len + 1) > sq_len(v),
            sq_len(v) > 0,
            len >= 0,
    ;
    assert(len <= 3 * BOX_MAX) by (nonlinear_arith)
        requires
            len * len <= sq_len(v),
            sq_len(v) <= 3 * ((BOX_MAX as int) * (BOX_MAX as int)),
            len >= 0,
            BOX_MAX == 0x800_0000,
    ;
    assert(v.x * v.x <= sq_len(v) && v.y * v.y <= sq_len(v) && v.z * v.z <= sq_len(v))
        by (nonlinear_arith);
    lemma_round_unit_bound(v.x as int, len, sq_len(v));
    lemma_round_unit_bound(v.y as int, len, sq_len(v));
    lemma_round_unit_bound(v.z as int, len, sq_len(v));
}

/// `round(c * UNIT / len)` lies within four units when `c * c <= s` and
/// `len` is the floor square root of `s`.
proof fn lemma_round_unit_bound(c: int, len: int, s: int)
    requires
        0 < len,
        c * c <= s,
        s < (len + 1) * (len + 1),
    ensures
        -4 * UNIT <= round_div(c * UNIT, len) <= 4 * UNIT,
{
    assert(-2 * len <= c <= 2 * len) by (nonlinear_arith)
        requires
            0 < len,
            c * c <= s,
            s < (len + 1) * (len + 1),
    ;
    let q = round_div(c * UNIT, len);
    assert(2 * len * q == 2 * (c * UNIT) + len - (2 * (c * UNIT) + len) % (2 * len)
        && 0 <= (2 * (c * UNIT) + len) % (2 * len) < 2 * len) by (nonlinear_arith)
        requires
            0 < len,
            q == (2 * (c * UNIT) + len) / (2 * len),
    ;
    assert(-4 * UNIT <= q <= 4 * UNIT) by (nonlinear_arith)
        requires
            0 < len,
            -2 * len <= c <= 2 * len,
            UNIT == 0x1_0000,
            2 * len * q <= 2 * (c * UNIT) + len,
            2 * (c * UNIT) + len < 2 * len * q + 2 * len,
    ;
}

} // verus!
