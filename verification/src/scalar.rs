//! Exact scalars for the intersection core.
//!
//! A ray parameter (`t` value) is an exact rational: an `i128` numerator
//! over a positive `i128` denominator.  Comparisons cross-multiply, so they
//! never round.  The ghost type `Frac` is the mathematical model of such a
//! rational; every contract about `t` values is stated over it.

use vstd::prelude::*;

verus! {

/// Bound on the numerator and denominator of a well-formed `Rat`: products
/// of two such fields stay well inside `i128`.
pub const RAT_BOUND: i128 = 0x1000_0000_0000_0000; // 2^60

/// 2^56, the first power of two whose square exceeds every valid `isqrt` input.
pub const POW2_56: u128 = 0x100_0000_0000_0000;

/// 2^112, the exclusive bound on `isqrt` inputs.
pub const POW2_112: u128 = 0x1_0000_0000_0000_0000_0000_0000_0000;

/// 2^124, the magnitude bound for rounding division inputs.
pub const POW2_124: i128 = 0x1000_0000_0000_0000_0000_0000_0000_0000;

/// 2^126, the magnitude bound for floor division inputs.
pub const POW2_126: i128 = 0x4000_0000_0000_0000_0000_0000_0000_0000;

/// Mathematical model of a rational number: `num / den` with `den > 0`.
pub ghost struct Frac {
    pub num: int,
    pub den: int,
}

pub open spec fn frac_wf(a: Frac) -> bool {
    a.den > 0
}

pub open spec fn frac_le(a: Frac, b: Frac) -> bool {
    a.num * b.den <= b.num * a.den
}

pub open spec fn frac_lt(a: Frac, b: Frac) -> bool {
    a.num * b.den < b.num * a.den
}

pub open spec fn frac_eq(a: Frac, b: Frac) -> bool {
    a.num * b.den == b.num * a.den
}

pub open spec fn frac_of_int(n: int) -> Frac {
    Frac { num: n, den: 1 }
}

/// `frac_le` is transitive over well-formed fractions.
pub proof fn lemma_frac_le_trans(a: Frac, b: Frac, c: Frac)
    requires
        frac_wf(a),
        frac_wf(b),
        frac_wf(c),
        frac_le(a, b),
        frac_le(b, c),
    ensures
        frac_le(a, c),
{
    assert(a.num * c.den <= c.num * a.den) by (nonlinear_arith)
        requires
            a.den > 0,
            b.den > 0,
            c.den > 0,
            a.num * b.den <= b.num * a.den,
            b.num * c.den <= c.num * b.den,
    ;
}

/// A strict comparison followed by a loose one stays strict.
pub proof fn lemma_frac_lt_le_trans(a: Frac, b: Frac, c: Frac)
    requires
        frac_wf(a),
        frac_wf(b),
        frac_wf(c),
        frac_lt(a, b),
        frac_le(b, c),
    ensures
        frac_lt(a, c),
{
    assert(a.num * c.den < c.num * a.den) by (nonlinear_arith)
        requires
            a.den > 0,
            b.den > 0,
            c.den > 0,
            a.num * b.den < b.num * a.den,
            b.num * c.den <= c.num * b.den,
    ;
}

/// A loose comparison followed by a strict one stays strict.
pub proof fn lemma_frac_le_lt_trans(a: Frac, b: Frac, c: Frac)
    requires
        frac_wf(a),
        frac_wf(b),
        frac_wf(c),
        frac_le(a, b),
        frac_lt(b, c),
    ensures
        frac_lt(a, c),
{
    assert(a.num * c.den < c.num * a.den) by (nonlinear_arith)
        requires
            a.den > 0,
            b.den > 0,
            c.den > 0,
            a.num * b.den <= b.num * a.den,
            b.num * c.den < c.num * b.den,
    ;
}

/// Two strict comparisons compose.
pub proof fn lemma_frac_lt_trans(a: Frac, b: Frac, c: Frac)
    requires
        frac_wf(a),
        frac_wf(b),
        frac_wf(c),
        frac_lt(a, b),
        frac_lt(b, c),
    ensures
        frac_lt(a, c),
{
    assert(a.num * c.den < c.num * a.den) by (nonlinear_arith)
        requires
            a.den > 0,
            b.den > 0,
            c.den > 0,
            a.num * b.den < b.num * a.den,
            b.num * c.den < c.num * b.den,
    ;
}

/// Between two strictly ordered rationals lies their mediant-style midpoint.
pub proof fn lemma_frac_dense(a: Frac, b: Frac) -> (m: Frac)
    requires
        frac_wf(a),
        frac_wf(b),
        frac_lt(a, b),
    ensures
        frac_wf(m),
        frac_lt(a, m),
        frac_lt(m, b),
{
    let m = Frac { num: a.num * b.den + b.num * a.den, den: 2 * a.den * b.den };
    assert(m.den > 0 && frac_lt(a, m) && frac_lt(m, b)) by (nonlinear_arith)
        requires
            a.den > 0,
            b.den > 0,
            a.num * b.den < b.num * a.den,
            m.num == a.num * b.den + b.num * a.den,
            m.den == 2 * a.den * b.den,
    ;
    m
}

/// An exact rational with bounded fields, the executable form of `Frac`.
#[derive(Clone, Copy, Debug)]
pub struct Rat {
    pub num: i128,
    pub den: i128,
}

impl View for Rat {
    type V = Frac;

    open spec fn view(&self) -> Frac {
        Frac { num: self.num as int, den: self.den as int }
    }
}

impl Rat {
    pub open spec fn wf(self) -> bool {
        0 < self.den <= RAT_BOUND && -RAT_BOUND <= self.num <= RAT_BOUND
    }

    /// The rational `num / den`; the denominator must be positive.
    pub fn new(num: i128, den: i128) -> (r: Rat)
        requires
            0 < den <= RAT_BOUND,
            -RAT_BOUND <= num <= RAT_BOUND,
        ensures
            r.wf(),
            r@ == (Frac { num: num as int, den: den as int }),
    {
        Rat { num, den }
    }

    /// The rational with value `n`.
    pub fn from_int(n: i64) -> (r: Rat)
        requires
            -RAT_BOUND <= n as int <= RAT_BOUND,
        ensures
            r.wf(),
            r@ == frac_of_int(n as int),
    {
        Rat { num: n as i128, den: 1 }
    }

    /// Exact comparison `self <= other` by cross-multiplication.
    pub fn le(&self, other: &Rat) -> (r: bool)
        requires
            self.wf(),
            other.wf(),
        ensures
            r == frac_le(self@, other@),
    {
        proof {
            lemma_rat_products_fit(*self, *other);
        }
        self.num * other.den <= other.num * self.den
    }

    /// Exact comparison `self < other` by cross-multiplication.
    pub fn lt(&self, other: &Rat) -> (r: bool)
        requires
            self.wf(),
            other.wf(),
        ensures
            r == frac_lt(self@, other@),
    {
        proof {
            lemma_rat_products_fit(*self, *other);
        }
        self.num * other.den < other.num * self.den
    }

    /// The larger of the two rationals (the first on ties).
    pub fn max(self, other: Rat) -> (r: Rat)
        requires
            self.wf(),
            other.wf(),
        ensures
            r.wf(),
            r@ == frac_max(self@, other@),
    {
        if self.lt(&other) {
            other
        } else {
            self
        }
    }

    /// The smaller of the two rationals (the first on ties).
    pub fn min(self, other: Rat) -> (r: Rat)
        requires
            self.wf(),
            other.wf(),
        ensures
            r.wf(),
            r@ == frac_min(self@, other@),
    {
        if other.lt(&self) {
            other
        } else {
            self
        }
    }
}

/// Cross-multiplied terms of two well-formed `Rat`s stay inside `i128`.
pub proof fn lemma_rat_products_fit(a: Rat, b: Rat)
    requires
        a.wf(),
        b.wf(),
    ensures
        -(RAT_BOUND * RAT_BOUND) <= a.num * b.den <= RAT_BOUND * RAT_BOUND,
        -(RAT_BOUND * RAT_BOUND) <= b.num * a.den <= RAT_BOUND * RAT_BOUND,
{
    assert(-(RAT_BOUND * RAT_BOUND) <= a.num * b.den <= RAT_BOUND * RAT_BOUND
        && -(RAT_BOUND * RAT_BOUND) <= b.num * a.den <= RAT_BOUND * RAT_BOUND)
        by (nonlinear_arith)
        requires
            -RAT_BOUND <= a.num <= RAT_BOUND,
            -RAT_BOUND <= b.num <= RAT_BOUND,
            0 < a.den <= RAT_BOUND,
            0 < b.den <= RAT_BOUND,
    ;
}

pub open spec fn frac_max(a: Frac, b: Frac) -> Frac {
    if frac_lt(a, b) {
        b
    } else {
        a
    }
}

pub open spec fn frac_min(a: Frac, b: Frac) -> Frac {
    if frac_lt(b, a) {
        b
    } else {
        a
    }
}

/// The integer square root, defined by recursion on `n`.
pub open spec fn sqrt_floor(n: nat) -> nat
    decreases n,
{
    if n == 0 {
        0
    } else {
        let p = sqrt_floor((n - 1) as nat);
        if (p + 1) * (p + 1) <= n {
            p + 1
        } else {
            p
        }
    }
}

/// `sqrt_floor(n)` brackets `n` between consecutive squares.
pub proof fn lemma_sqrt_floor_bracket(n: nat)
    ensures
        sqrt_floor(n) * sqrt_floor(n) <= n,
        n < (sqrt_floor(n) + 1) * (sqrt_floor(n) + 1),
    decreases n,
{
    if n == 0 {
        assert(sqrt_floor(0) == 0);
        assert(n < (sqrt_floor(n) + 1) * (sqrt_floor(n) + 1)) by (nonlinear_arith)
            requires
                n == 0,
                sqrt_floor(n) == 0,
        ;
    } else {
        lemma_sqrt_floor_bracket((n - 1) as nat);
        let p = sqrt_floor((n - 1) as nat);
        let s = sqrt_floor(n);
        assert(p * p <= n - 1 < (p + 1) * (p + 1));
        if (p + 1) * (p + 1) <= n {
            assert(s == p + 1);
            assert(s * s <= n && n < (s + 1) * (s + 1)) by (nonlinear_arith)
                requires
                    s == p + 1,
                    (p + 1) * (p + 1) <= n,
                    n - 1 < (p + 1) * (p + 1),
                    p >= 0,
            ;
        } else {
            assert(s == p);
            assert(s * s <= n && n < (s + 1) * (s + 1)) by (nonlinear_arith)
                requires
                    s == p,
                    p * p <= n - 1,
                    !((p + 1) * (p + 1) <= n),
                    n >= 1,
            ;
        }
    }
}

/// Any value bracketed between consecutive squares is the integer square root.
pub proof fn lemma_sqrt_floor_unique(n: nat, r: nat)
    requires
        r * r <= n,
        n < (r + 1) * (r + 1),
    ensures
        r == sqrt_floor(n),
{
    lemma_sqrt_floor_bracket(n);
    let s = sqrt_floor(n);
    assert(r == s) by (nonlinear_arith)
        requires
            r * r <= n,
            n < (r + 1) * (r + 1),
            s * s <= n,
            n < (s + 1) * (s + 1),
            r >= 0,
            s >= 0,
    ;
}

/// The integer square root of `n`, by binary search over the answer.
pub fn isqrt(n: u128) -> (r: u128)
    requires
        n < POW2_112,
    ensures
        r * r <= n < (r + 1) * (r + 1),
        r == sqrt_floor(n as nat),
{
    let mut lo: u128 = 0;
    let mut hi: u128 = POW2_56;
    proof {
        assert(POW2_56 * POW2_56 == POW2_112) by (nonlinear_arith);
    }
    while lo + 1 < hi
        invariant
            lo < hi <= POW2_56,
            lo * lo <= n,
            n < hi * hi,
        decreases hi - lo,
    {
        let mid = lo + (hi - lo) / 2;
        proof {
            assert(mid * mid <= POW2_56 * POW2_56) by (nonlinear_arith)
                requires
                    0 <= mid <= POW2_56,
            ;
            assert(POW2_56 * POW2_56 < u128::MAX) by (nonlinear_arith);
        }
        if mid * mid <= n {
            lo = mid;
        } else {
            hi = mid;
        }
    }
    proof {
        lemma_sqrt_floor_unique(n as nat, lo as nat);
    }
    lo
}

/// For a positive divisor, the floor-division bracket pins the quotient.
pub proof fn lemma_floor_div_unique(a: int, b: int, q: int)
    requires
        0 < b,
        b * q <= a < b * (q + 1),
    ensures
        q == a / b,
{
    assert(q == a / b) by (nonlinear_arith)
        requires
            0 < b,
            b * q <= a,
            a < b * (q + 1),
    ;
}

/// Rounding `a / b` to the nearest integer, half away from zero upward.
pub open spec fn round_div(a: int, b: int) -> int {
    (2 * a + b) / (2 * b)
}

/// Floor division of `a` by the positive `b`, written out for `i128`
/// because only unsigned machine division carries a specification.
pub fn div_floor(a: i128, b: i128) -> (q: i128)
    requires
        0 < b < POW2_126,
        -POW2_126 < a < POW2_126,
    ensures
        b * q <= a < b * (q + 1),
        q == a as int / b as int,
{
    let q = div_floor_bracket(a, b);
    proof {
        lemma_floor_div_unique(a as int, b as int, q as int);
    }
    q
}

/// The bracketing form of floor division.
fn div_floor_bracket(a: i128, b: i128) -> (q: i128)
    requires
        0 < b < POW2_126,
        -POW2_126 < a < POW2_126,
    ensures
        b * q <= a < b * (q + 1),
{
    let ub = b as u128;
    if a >= 0 {
        let ua = a as u128;
        let uq = ua / ub;
        proof {
            assert(ub * (ua / ub) <= ua < ub * (ua / ub + 1)) by (nonlinear_arith)
                requires
                    0 < ub,
            ;
        }
        uq as i128
    } else {
        let ua = (-a) as u128;
        let uq = ua / ub;
        let ur = ua % ub;
        proof {
            assert(ub * (ua / ub) + ua % ub == ua && 0 <= ua % ub < ub) by (nonlinear_arith)
                requires
                    0 < ub,
            ;
        }
        if ur == 0 {
            let q = -(uq as i128);
            proof {
                assert(b * q <= a < b * (q + 1)) by (nonlinear_arith)
                    requires
                        ub == b,
                        ua == -a,
                        0 < b,
                        ub * uq == ua,
                        q == -uq,
                ;
            }
            q
        } else {
            let q = -(uq as i128) - 1;
            proof {
                assert(b * q <= a < b * (q + 1)) by (nonlinear_arith)
                    requires
                        ub == b,
                        ua == -a,
                        0 < b,
                        ub * uq + ur == ua,
                        0 < ur < ub,
                        q == -uq - 1,
                ;
            }
            q
        }
    }
}

/// Division of `a` by the positive `b`, rounded to the nearest integer
/// (half-up).
pub fn div_round(a: i128, b: i128) -> (q: i128)
    requires
        0 < b < POW2_124,
        -POW2_124 < a < POW2_124,
    ensures
        2 * b * q <= 2 * a + b,
        2 * a + b < 2 * b * (q + 1),
        q == round_div(a as int, b as int),
{
    let q = div_floor(2 * a + b, 2 * b);
    proof {
        assert(2 * b * q <= 2 * a + b < 2 * b * (q + 1)) by (nonlinear_arith)
            requires
                (2 * b) * q <= 2 * a + b,
                2 * a + b < (2 * b) * (q + 1),
        ;
    }
    q
}

} // verus!
