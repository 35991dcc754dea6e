//! The source of randomness: one trusted word-sized draw, and verified
//! shaping of its bits.

use vstd::prelude::*;

use crate::vec3::{in_range, sq_len, Vec3, BOX_MAX, UNIT};

verus! {

/// Relies on `rand::random`: a machine word drawn from the thread-local
/// generator.  Nothing can be promised of a random value, so the
/// contract is empty; everything built on top takes the word as given.
#[verifier::external_body]
fn random_bits() -> u64 {
    rand::random::<u64>()
}

/// A uniformly random axis index.
pub fn random_axis() -> (r: usize)
    ensures
        r < 3,
{
    (random_bits() % 3) as usize
}

/// A random Q16.16 sample in `[0, 1)`: the top sixteen bits of a draw.
pub fn random_unit_q16() -> (r: i64)
    ensures
        0 <= r < 0x1_0000,
{
    let bits = random_bits();
    let top = bits >> 48;
    proof {
        assert(bits >> 48 < 0x1_0000u64) by (bit_vector);
    }
    top as i64
}

/// A random Q16.16 sample in `[-1, 1)`.
pub fn random_signed_q16() -> (r: i64)
    ensures
        -0x1_0000 <= r < 0x1_0000,
{
    let bits = random_bits();
    let top = bits >> 47;
    proof {
        assert(bits >> 47 < 0x2_0000u64) by (bit_vector);
    }
    (top as i64) - 0x1_0000
}

/// A uniformly random index below `n`.
pub fn random_below(n: usize) -> (r: usize)
    requires
        n > 0,
    ensures
        r < n,
{
    (random_bits() % (n as u64)) as usize
}

/// A random point strictly inside the unit ball, by rejection from the
/// cube; after a bounded number of rejected draws a fixed interior
/// point stands in, so the function always returns.
pub fn random_in_unit_sphere() -> (v: Vec3)
    ensures
        in_range(v, UNIT as int),
        sq_len(v) < (UNIT * UNIT) as int,
{
    let mut attempts: usize = 0;
    while attempts < 64
        invariant
            attempts <= 64,
        decreases 64 - attempts,
    {
        let x = random_signed_q16();
        let y = random_signed_q16();
        let z = random_signed_q16();
        let p = Vec3 { x, y, z };
        let s = p.squared_length();
        if s < (UNIT as i128) * (UNIT as i128) {
            return p;
        }
        attempts = attempts + 1;
    }
    let f = Vec3 { x: UNIT / 2, y: 0, z: 0 };
    proof {
        assert(sq_len(f) < (UNIT * UNIT) as int) by (nonlinear_arith)
            requires
                f.x == UNIT / 2,
                f.y == 0,
                f.z == 0,
                UNIT == 0x1_0000,
        ;
    }
    f
}

impl Vec3 {
    /// A random vector with channels in `[0, 1)`.
    pub fn random() -> (v: Vec3)
        ensures
            0 <= v.x < UNIT,
            0 <= v.y < UNIT,
            0 <= v.z < UNIT,
    {
        Vec3 { x: random_unit_q16(), y: random_unit_q16(), z: random_unit_q16() }
    }

    /// A random vector with channels in `[min, max]` (Q16.16).
    pub fn random_in_limit(min: i64, max: i64) -> (v: Vec3)
        requires
            -0x100_0000_0000 <= min < max <= 0x100_0000_0000,
        ensures
            min <= v.x <= max,
            min <= v.y <= max,
            min <= v.z <= max,
    {
        Vec3 {
            x: random_range_q16(min, max),
            y: random_range_q16(min, max),
            z: random_range_q16(min, max),
        }
    }
}

/// A random Q16.16 value in `[min, max]`: `min + (max - min) * q / UNIT`
/// for a unit sample `q`.
fn random_range_q16(min: i64, max: i64) -> (r: i64)
    requires
        -0x100_0000_0000 <= min < max <= 0x100_0000_0000,
    ensures
        min <= r <= max,
{
    let q = random_unit_q16();
    let span = (max - min) as u128;
    proof {
        assert(span * (q as u128) <= span * 0x1_0000 && span * 0x1_0000u128
            <= 0x200_0000_0000u128 * 0x1_0000) by (nonlinear_arith)
            requires
                0 <= q < 0x1_0000,
                0 < span <= 0x200_0000_0000u128,
        ;
        assert((span * 0x1_0000u128) / 0x1_0000 == span) by (nonlinear_arith);
        assert((span * (q as u128)) / 0x1_0000 <= (span * 0x1_0000u128) / 0x1_0000)
            by (nonlinear_arith)
            requires
                span * (q as u128) <= span * 0x1_0000u128,
        ;
    }
    let off = (span * (q as u128)) / (UNIT as u128);
    min + (off as i64)
}

} // verus!
