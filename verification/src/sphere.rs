//! Spheres, still and moving: the quadratic intersection test.
//!
//! The discriminant of `|O + tD - C|^2 = r^2` is an exact integer on the
//! grid; its square root is taken as the integer floor, so both candidate
//! roots are exact rationals and the whole hit decision is pinned by the
//! contract.  The nearer root is preferred, the farther one tried when
//! the nearer falls outside the query interval.

use vstd::prelude::*;

use crate::hittable::{record_in_interval, record_on_ray, record_wf, HitRecord};
use crate::ray::{ray_at, ray_wf, RatPoint, Ray};
use crate::scalar::{
    div_round, frac_lt, isqrt, round_div, sqrt_floor, Frac, Rat, POW2_112, POW2_124, RAT_BOUND,
};
use crate::vec3::{
    component_s, dot_s, in_range, lemma_dot_bound, lemma_dot_bound_mixed, sq_len, Vec3, BOX_MAX,
    COORD_MAX, UNIT,
};
use crate::aabb::{aabb_wf, AABB};

verus! {

#[derive(Clone, Copy, Debug)]
pub struct Sphere {
    pub center: Vec3,
    pub radius: i64,
    pub material: usize,
}

pub open spec fn sphere_wf(s: Sphere) -> bool {
    in_range(s.center, COORD_MAX as int) && 0 < s.radius <= COORD_MAX
}

/// One component of the centre-to-origin vector.
pub open spec fn oc_s(s: Sphere, r: Ray, axis: int) -> int {
    component_s(r.origin, axis) - component_s(s.center, axis)
}

/// The quadratic's leading coefficient: `|D|^2`.
pub open spec fn sp_a(r: Ray) -> int {
    sq_len(r.direction)
}

/// Half the linear coefficient: `OC . D`.
pub open spec fn sp_hb(s: Sphere, r: Ray) -> int {
    oc_s(s, r, 0) * component_s(r.direction, 0) + oc_s(s, r, 1) * component_s(r.direction, 1)
        + oc_s(s, r, 2) * component_s(r.direction, 2)
}

/// The constant coefficient: `|OC|^2 - r^2`.
pub open spec fn sp_c(s: Sphere, r: Ray) -> int {
    oc_s(s, r, 0) * oc_s(s, r, 0) + oc_s(s, r, 1) * oc_s(s, r, 1) + oc_s(s, r, 2) * oc_s(s, r, 2)
        - s.radius * s.radius
}

/// The quadratic discriminant (with the half-coefficient convention).
pub open spec fn sp_disc(s: Sphere, r: Ray) -> int {
    sp_hb(s, r) * sp_hb(s, r) - sp_a(r) * sp_c(s, r)
}

/// The nearer candidate root, with the floor square root of the
/// discriminant.
pub open spec fn sphere_near(s: Sphere, r: Ray) -> Frac {
    Frac { num: -sp_hb(s, r) - sqrt_floor(sp_disc(s, r) as nat), den: sp_a(r) }
}

/// The farther candidate root.
pub open spec fn sphere_far(s: Sphere, r: Ray) -> Frac {
    Frac { num: -sp_hb(s, r) + sqrt_floor(sp_disc(s, r) as nat), den: sp_a(r) }
}

/// The parameter the sphere test reports over the open interval
/// `(t0, t1)`: the nearer root when it lies inside, else the farther
/// root when it lies inside, else nothing; and nothing at all when the
/// discriminant is not positive.
pub open spec fn sphere_hit_t(s: Sphere, r: Ray, t0: Frac, t1: Frac) -> Option<Frac> {
    if sp_disc(s, r) > 0 {
        if frac_lt(t0, sphere_near(s, r)) && frac_lt(sphere_near(s, r), t1) {
            Some(sphere_near(s, r))
        } else if frac_lt(t0, sphere_far(s, r)) && frac_lt(sphere_far(s, r), t1) {
            Some(sphere_far(s, r))
        } else {
            None
        }
    } else {
        None
    }
}

/// The numerator (over `t.den`) of the hit point minus the centre, along
/// `axis`.
pub open spec fn sphere_outward_num(s: Sphere, r: Ray, t: Frac, axis: int) -> int {
    ray_at(r, t, axis).num - component_s(s.center, axis) * t.den
}

/// Whether the ray strikes the sphere from outside at parameter `t`.
pub open spec fn sphere_front(s: Sphere, r: Ray, t: Frac) -> bool {
    component_s(r.direction, 0) * sphere_outward_num(s, r, t, 0) + component_s(r.direction, 1)
        * sphere_outward_num(s, r, t, 1) + component_s(r.direction, 2) * sphere_outward_num(
        s,
        r,
        t,
        2,
    ) < 0
}

/// The rounded Q16.16 outward unit normal at parameter `t`, along `axis`:
/// the outward direction divided by `radius * t.den`.
pub open spec fn sphere_normal_pre(s: Sphere, r: Ray, t: Frac, axis: int) -> int {
    round_div(sphere_outward_num(s, r, t, axis) * UNIT, s.radius * t.den)
}

/// The turn fraction of the direction `(x, z)` around the y axis, in
/// Q16.16: a piecewise-rational stand-in for the transcendental
/// longitude `(atan2(-z, x) + pi) / (2 pi)`, exact at the four axis
/// directions and within about one percent of a turn elsewhere.  The
/// degenerate direction answers one half.
pub open spec fn turn_u_s(nx: int, nz: int) -> int {
    let yy = -nz;
    let ax = if nx < 0 {
        -nx
    } else {
        nx
    };
    let ay = if yy < 0 {
        -yy
    } else {
        yy
    };
    if ax + ay == 0 {
        (UNIT as int) / 2
    } else {
        let s = round_div(yy * UNIT, ax + ay);
        let tau = if nx >= 0 {
            s
        } else {
            2 * UNIT - s
        };
        let u0 = (tau + 2 * UNIT) / 4;
        if u0 >= UNIT {
            u0 - UNIT
        } else {
            u0
        }
    }
}

/// The latitude fraction of the direction `(x, y, z)`, in Q16.16: a
/// piecewise-rational stand-in for `acos(-y) / pi`, exact at the poles
/// and the equator.  The zero direction answers one half.
pub open spec fn lat_v_s(nx: int, ny: int, nz: int) -> int {
    let rh = crate::scalar::sqrt_floor((nx * nx + nz * nz) as nat) as int;
    let xx = -ny;
    let ax = if xx < 0 {
        -xx
    } else {
        xx
    };
    if ax + rh == 0 {
        (UNIT as int) / 2
    } else {
        let s = round_div(rh * UNIT, ax + rh);
        if xx >= 0 {
            s / 2
        } else {
            (2 * UNIT - s) / 2
        }
    }
}

/// A rounded ratio of a part to a whole stays within the unit.
proof fn lemma_ratio_round(y: int, den: int)
    requires
        0 < den,
        -den <= y <= den,
    ensures
        -UNIT <= round_div(y * UNIT, den) <= UNIT,
        0 <= y ==> 0 <= round_div(y * UNIT, den),
{
    let q = round_div(y * UNIT, den);
    assert(2 * den * q == 2 * (y * UNIT) + den - (2 * (y * UNIT) + den) % (2 * den) && 0 <= (2 * (y
        * UNIT) + den) % (2 * den) < 2 * den) by (nonlinear_arith)
        requires
            0 < den,
            q == (2 * (y * UNIT) + den) / (2 * den),
    ;
    assert(-UNIT <= q <= UNIT && (0 <= y ==> 0 <= q)) by (nonlinear_arith)
        requires
            0 < den,
            -den <= y <= den,
            UNIT == 0x1_0000,
            2 * den * q <= 2 * (y * UNIT) + den,
            2 * (y * UNIT) + den < 2 * den * q + 2 * den,
    ;
}

/// Bounds on the quadratic's coefficients over well-formed inputs.
proof fn lemma_sphere_bounds(s: Sphere, r: Ray)
    requires
        sphere_wf(s),
        ray_wf(r),
    ensures
        0 <= sp_a(r) <= 0x30_0000_0000_0000,  // 3 * 2^52
        -0x60_0000_0000_0000 <= sp_hb(s, r) <= 0x60_0000_0000_0000,  // 3 * 2^53
        -0x100_0000_0000_0000 <= sp_c(s, r) <= 0x100_0000_0000_0000,  // 2^56
        0 <= sp_hb(s, r) * sp_hb(s, r) <= 0x4000_0000_0000_0000_0000_0000_0000,  // 2^110
        -0x4000_0000_0000_0000_0000_0000_0000 <= sp_a(r) * sp_c(s, r)
            <= 0x4000_0000_0000_0000_0000_0000_0000,
        -0x1_0000_0000_0000_0000_0000_0000_0000 < sp_disc(s, r)
            < 0x1_0000_0000_0000_0000_0000_0000_0000,  // 2^112
{
    let oc = Vec3 {
        x: (r.origin.x - s.center.x) as i64,
        y: (r.origin.y - s.center.y) as i64,
        z: (r.origin.z - s.center.z) as i64,
    };
    lemma_dot_bound(r.direction, r.direction, COORD_MAX as int);
    lemma_dot_bound_mixed(oc, r.direction, BOX_MAX as int, COORD_MAX as int);
    lemma_dot_bound(oc, oc, BOX_MAX as int);
    assert(sp_a(r) == dot_s(r.direction, r.direction));
    assert(sp_hb(s, r) == dot_s(oc, r.direction));
    assert(sp_c(s, r) == dot_s(oc, oc) - s.radius * s.radius);
    assert(0 <= s.radius * s.radius <= 0x10_0000_0000_0000) by (nonlinear_arith)
        requires
            0 < s.radius <= COORD_MAX,
            COORD_MAX == 0x400_0000,
    ;
    let hb = sp_hb(s, r);
    let a = sp_a(r);
    let c = sp_c(s, r);
    assert(0 <= a <= 0x30_0000_0000_0000) by (nonlinear_arith)
        requires
            a == dot_s(r.direction, r.direction),
            a == sq_len(r.direction),
            -0x400_0000 <= r.direction.x <= 0x400_0000,
            -0x400_0000 <= r.direction.y <= 0x400_0000,
            -0x400_0000 <= r.direction.z <= 0x400_0000,
    ;
    assert(0 <= hb * hb <= 0x4000_0000_0000_0000_0000_0000_0000 && -0x4000_0000_0000_0000_0000_0000_0000
        <= a * c <= 0x4000_0000_0000_0000_0000_0000_0000) by (nonlinear_arith)
        requires
            0 <= a <= 0x30_0000_0000_0000,
            -0x60_0000_0000_0000 <= hb <= 0x60_0000_0000_0000,
            -0x100_0000_0000_0000 <= c <= 0x100_0000_0000_0000,
    ;
}

/// A positive discriminant forces a nonzero direction.
pub proof fn lemma_disc_pos_a_pos(s: Sphere, r: Ray)
    requires
        sp_disc(s, r) > 0,
    ensures
        sp_a(r) > 0,
{
    let d = r.direction;
    assert(d.x * d.x >= 0 && d.y * d.y >= 0 && d.z * d.z >= 0) by (nonlinear_arith);
    if sp_a(r) == 0 {
        assert(d.x * d.x == 0 && d.y * d.y == 0 && d.z * d.z == 0);
        assert(d.x == 0 && d.y == 0 && d.z == 0) by (nonlinear_arith)
            requires
                d.x * d.x == 0,
                d.y * d.y == 0,
                d.z * d.z == 0,
        ;
        assert(sp_hb(s, r) == oc_s(s, r, 0) * 0 + oc_s(s, r, 1) * 0 + oc_s(s, r, 2) * 0);
        assert(oc_s(s, r, 0) * 0 == 0) by (nonlinear_arith);
        assert(oc_s(s, r, 1) * 0 == 0) by (nonlinear_arith);
        assert(oc_s(s, r, 2) * 0 == 0) by (nonlinear_arith);
        assert(sp_hb(s, r) == 0);
        assert(sp_disc(s, r) == 0 * 0 - 0 * sp_c(s, r));
        assert(0 * 0 == 0 && 0 * sp_c(s, r) == 0) by (nonlinear_arith);
    }
}

/// A root of the (floor-rooted) quadratic yields a point inside the
/// closed ball: every outward component is within the radius.
pub proof fn lemma_sphere_point_in_ball(s: Sphere, r: Ray, t: Frac)
    requires
        sphere_wf(s),
        ray_wf(r),
        t.den == sp_a(r),
        sp_a(r) > 0,
        (t.num + sp_hb(s, r)) * (t.num + sp_hb(s, r)) <= sp_disc(s, r),
    ensures
        forall|axis: int|
            0 <= axis < 3 ==> -(s.radius * t.den) <= #[trigger] sphere_outward_num(s, r, t, axis)
                <= s.radius * t.den,
{
    let a = sp_a(r);
    let hb = sp_hb(s, r);
    let c = sp_c(s, r);
    let n = t.num;
    let rad = s.radius as int;
    let on0 = sphere_outward_num(s, r, t, 0);
    let on1 = sphere_outward_num(s, r, t, 1);
    let on2 = sphere_outward_num(s, r, t, 2);
    let oc0 = oc_s(s, r, 0);
    let oc1 = oc_s(s, r, 1);
    let oc2 = oc_s(s, r, 2);
    let d0 = component_s(r.direction, 0);
    let d1 = component_s(r.direction, 1);
    let d2 = component_s(r.direction, 2);
    // The outward numerator is `oc * a + n * d` on each axis.
    lemma_sub_factor(component_s(r.origin, 0), component_s(s.center, 0), a);
    lemma_sub_factor(component_s(r.origin, 1), component_s(s.center, 1), a);
    lemma_sub_factor(component_s(r.origin, 2), component_s(s.center, 2), a);
    assert(on0 == oc0 * a + n * d0);
    assert(on1 == oc1 * a + n * d1);
    assert(on2 == oc2 * a + n * d2);
    // Expand each squared outward numerator.
    lemma_axis_expand(oc0, d0, a, n, on0);
    lemma_axis_expand(oc1, d1, a, n, on1);
    lemma_axis_expand(oc2, d2, a, n, on2);
    let k1 = a * a;
    let k2 = 2 * (a * n);
    let k3 = n * n;
    let q2 = oc0 * oc0 + oc1 * oc1 + oc2 * oc2;
    let sum_sq = on0 * on0 + on1 * on1 + on2 * on2;
    // Collect the three expansions over the named coefficients.
    lemma_distrib3(k1, oc0 * oc0, oc1 * oc1, oc2 * oc2);
    lemma_distrib3(k2, oc0 * d0, oc1 * d1, oc2 * d2);
    lemma_distrib3(k3, d0 * d0, d1 * d1, d2 * d2);
    assert(sum_sq == k1 * q2 + k2 * hb + k3 * a);
    assert(q2 == c + rad * rad);
    // The root bound controls the linear-in-`n` part.
    assert(k3 + 2 * (n * hb) <= -(a * c)) by (nonlinear_arith)
        requires
            (n + hb) * (n + hb) <= hb * hb - a * c,
            k3 == n * n,
    ;
    // Fold everything into `sum_sq <= (a * rad)^2`.
    assert(k1 * q2 == k1 * c + k1 * (rad * rad)) by (nonlinear_arith)
        requires
            q2 == c + rad * rad,
    ;
    assert(k2 * hb + k3 * a == a * (2 * (n * hb) + k3)) by (nonlinear_arith)
        requires
            k2 == 2 * (a * n),
            k3 == n * n,
    ;
    assert(a * (2 * (n * hb) + k3) <= a * (-(a * c))) by (nonlinear_arith)
        requires
            2 * (n * hb) + k3 <= -(a * c),
            a > 0,
    ;
    assert(a * (-(a * c)) == -(k1 * c)) by (nonlinear_arith)
        requires
            k1 == a * a,
    ;
    assert(sum_sq <= k1 * (rad * rad));
    assert(k1 * (rad * rad) == (a * rad) * (a * rad)) by (nonlinear_arith)
        requires
            k1 == a * a,
    ;
    // Each square is at most the sum of squares.
    assert(on0 * on0 <= sum_sq && on1 * on1 <= sum_sq && on2 * on2 <= sum_sq) by (nonlinear_arith)
        requires
            sum_sq == on0 * on0 + on1 * on1 + on2 * on2,
    ;
    assert(-(rad * a) <= on0 <= rad * a && -(rad * a) <= on1 <= rad * a && -(rad * a) <= on2 <= rad
        * a) by (nonlinear_arith)
        requires
            on0 * on0 <= (a * rad) * (a * rad),
            on1 * on1 <= (a * rad) * (a * rad),
            on2 * on2 <= (a * rad) * (a * rad),
            a > 0,
            rad > 0,
    ;
    assert forall|axis: int| 0 <= axis < 3 implies -(s.radius * t.den)
        <= #[trigger] sphere_outward_num(s, r, t, axis) <= s.radius * t.den by {
        assert(rad * a == s.radius * t.den) by (nonlinear_arith)
            requires
                rad == s.radius,
                a == t.den,
        ;
    }
}

/// `(o - c) * a == o * a - c * a`.
pub proof fn lemma_sub_factor(o: int, c: int, a: int)
    ensures
        (o - c) * a == o * a - c * a,
{
    assert((o - c) * a == o * a - c * a) by (nonlinear_arith);
}

/// The square of `oc * a + n * d`, collected by coefficient.
pub proof fn lemma_axis_expand(oc: int, d: int, a: int, n: int, on: int)
    requires
        on == oc * a + n * d,
    ensures
        on * on == (a * a) * (oc * oc) + (2 * (a * n)) * (oc * d) + (n * n) * (d * d),
{
    let u = oc * a;
    let v = n * d;
    assert(on * on == u * u + 2 * (u * v) + v * v) by (nonlinear_arith)
        requires
            on == u + v,
    ;
    assert(u * u == (a * a) * (oc * oc)) by (nonlinear_arith)
        requires
            u == oc * a,
    ;
    assert(u * v == (a * n) * (oc * d)) by (nonlinear_arith)
        requires
            u == oc * a,
            v == n * d,
    ;
    assert(2 * (u * v) == (2 * (a * n)) * (oc * d)) by (nonlinear_arith)
        requires
            u * v == (a * n) * (oc * d),
    ;
    assert(v * v == (n * n) * (d * d)) by (nonlinear_arith)
        requires
            v == n * d,
    ;
}

/// Multiplication distributes over a three-part sum.
pub proof fn lemma_distrib3(k: int, x: int, y: int, z: int)
    ensures
        k * (x + y + z) == k * x + k * y + k * z,
{
    assert(k * (x + y + z) == k * x + k * y + k * z) by (nonlinear_arith);
}

/// The oriented rounded-unit normal of a sphere hit at parameter `t`:
/// the rounded outward normal, flipped to face the ray.
pub open spec fn sphere_oriented_normal_s(s: Sphere, r: Ray, t: Frac) -> Vec3 {
    let ff = sphere_front(s, r, t);
    Vec3 {
        x: (if ff {
            sphere_normal_pre(s, r, t, 0)
        } else {
            -sphere_normal_pre(s, r, t, 0)
        }) as i64,
        y: (if ff {
            sphere_normal_pre(s, r, t, 1)
        } else {
            -sphere_normal_pre(s, r, t, 1)
        }) as i64,
        z: (if ff {
            sphere_normal_pre(s, r, t, 2)
        } else {
            -sphere_normal_pre(s, r, t, 2)
        }) as i64,
    }
}

/// The full record of a sphere hit at parameter `t`: the exact point on
/// the ray, the oriented rounded-unit normal, the face flag, the
/// texture coordinates and the material.
pub open spec fn sphere_rec_at(s: Sphere, r: Ray, t: Frac) -> HitRecord {
    HitRecord {
        t: Rat { num: t.num as i128, den: t.den as i128 },
        p: RatPoint {
            xn: ray_at(r, t, 0).num as i128,
            yn: ray_at(r, t, 1).num as i128,
            zn: ray_at(r, t, 2).num as i128,
            den: t.den as i128,
        },
        normal: sphere_oriented_normal_s(s, r, t),
        front_face: sphere_front(s, r, t),
        u: turn_u_s(sphere_normal_pre(s, r, t, 0), sphere_normal_pre(s, r, t, 2)) as i64,
        v: lat_v_s(
            sphere_normal_pre(s, r, t, 0),
            sphere_normal_pre(s, r, t, 1),
            sphere_normal_pre(s, r, t, 2),
        ) as i64,
        material: s.material,
    }
}

/// The whole report of the sphere test: the record at the reported
/// parameter, when there is one.
pub open spec fn sphere_hit_rec(s: Sphere, r: Ray, t0: Frac, t1: Frac) -> Option<HitRecord> {
    match sphere_hit_t(s, r, t0, t1) {
        Option::Some(t) => Some(sphere_rec_at(s, r, t)),
        Option::None => None,
    }
}

/// What a sphere hit's record pins beyond the parameter: the oriented
/// rounded-unit normal, the face flag, the material, and the texture
/// coordinates.
pub open spec fn sphere_record_ok(s: Sphere, r: Ray, rec: HitRecord) -> bool {
    &&& rec.material == s.material
    &&& rec.u == turn_u_s(sphere_normal_pre(s, r, rec.t@, 0), sphere_normal_pre(s, r, rec.t@, 2))
    &&& rec.v == lat_v_s(
        sphere_normal_pre(s, r, rec.t@, 0),
        sphere_normal_pre(s, r, rec.t@, 1),
        sphere_normal_pre(s, r, rec.t@, 2),
    )
    &&& rec.front_face == sphere_front(s, r, rec.t@)
    &&& rec.normal.x == if rec.front_face {
        sphere_normal_pre(s, r, rec.t@, 0)
    } else {
        -sphere_normal_pre(s, r, rec.t@, 0)
    }
    &&& rec.normal.y == if rec.front_face {
        sphere_normal_pre(s, r, rec.t@, 1)
    } else {
        -sphere_normal_pre(s, r, rec.t@, 1)
    }
    &&& rec.normal.z == if rec.front_face {
        sphere_normal_pre(s, r, rec.t@, 2)
    } else {
        -sphere_normal_pre(s, r, rec.t@, 2)
    }
}

impl Sphere {
    pub fn new(center: Vec3, radius: i64, material: usize) -> (s: Sphere)
        ensures
            s == (Sphere { center, radius, material }),
    {
        Sphere { center, radius, material }
    }

    /// The quadratic slab test: the reported parameter, point, normal and
    /// face flag are all pinned by `sphere_hit_t` and its companions.
    pub fn hit(&self, ray: &Ray, t_min: &Rat, t_max: &Rat) -> (res: Option<HitRecord>)
        requires
            sphere_wf(*self),
            ray_wf(*ray),
            t_min.wf(),
            t_max.wf(),
        ensures
            res == sphere_hit_rec(*self, *ray, t_min@, t_max@),
            match res {
                Some(rec) => {
                    &&& sphere_hit_t(*self, *ray, t_min@, t_max@) == Some(rec.t@)
                    &&& record_wf(rec)
                    &&& record_on_ray(rec, *ray)
                    &&& record_in_interval(rec, t_min@, t_max@)
                    &&& rec.material == self.material
                    &&& rec.front_face == sphere_front(*self, *ray, rec.t@)
                    &&& rec.normal.x == if rec.front_face {
                        sphere_normal_pre(*self, *ray, rec.t@, 0)
                    } else {
                        -sphere_normal_pre(*self, *ray, rec.t@, 0)
                    }
                    &&& rec.normal.y == if rec.front_face {
                        sphere_normal_pre(*self, *ray, rec.t@, 1)
                    } else {
                        -sphere_normal_pre(*self, *ray, rec.t@, 1)
                    }
                    &&& rec.normal.z == if rec.front_face {
                        sphere_normal_pre(*self, *ray, rec.t@, 2)
                    } else {
                        -sphere_normal_pre(*self, *ray, rec.t@, 2)
                    }
                    &&& rec.u == turn_u_s(
                        sphere_normal_pre(*self, *ray, rec.t@, 0),
                        sphere_normal_pre(*self, *ray, rec.t@, 2),
                    )
                    &&& rec.v == lat_v_s(
                        sphere_normal_pre(*self, *ray, rec.t@, 0),
                        sphere_normal_pre(*self, *ray, rec.t@, 1),
                        sphere_normal_pre(*self, *ray, rec.t@, 2),
                    )
                },
                None => sphere_hit_t(*self, *ray, t_min@, t_max@) is None,
            },
    {
        proof {
            lemma_sphere_bounds(*self, *ray);
        }
        let oc = ray.origin.sub(self.center);
        let a = ray.direction.squared_length();
        let half_b = oc.dot(&ray.direction);
        let oc_sq = oc.squared_length();
        proof {
            assert(oc_s(*self, *ray, 0) == oc.x && oc_s(*self, *ray, 1) == oc.y && oc_s(
                *self,
                *ray,
                2,
            ) == oc.z);
            assert(a == sp_a(*ray));
            assert(half_b == sp_hb(*self, *ray));
            assert(0 < (self.radius as i128) * (self.radius as i128) <= 0x10_0000_0000_0000)
                by (nonlinear_arith)
                requires
                    0 < self.radius <= 0x400_0000,
            ;
        }
        let c = oc_sq - (self.radius as i128) * (self.radius as i128);
        proof {
            assert(c == sp_c(*self, *ray));
        }
        let discriminant = half_b * half_b - a * c;
        proof {
            assert(discriminant == sp_disc(*self, *ray));
        }
        if discriminant > 0 {
            proof {
                lemma_disc_pos_a_pos(*self, *ray);
            }
            let squ = isqrt(discriminant as u128);
            proof {
                assert(squ <= 0x100_0000_0000_0000u128) by (nonlinear_arith)  // 2^56
                    requires
                        squ * squ <= discriminant as u128,
                        (discriminant as u128) < 0x1_0000_0000_0000_0000_0000_0000_0000u128,
                ;
            }
            let sq = squ as i128;
            proof {
                assert(sq * sq <= discriminant) by (nonlinear_arith)
                    requires
                        squ * squ <= discriminant as u128,
                        sq == squ,
                        0 <= discriminant as u128,
                        discriminant > 0,
                        discriminant as u128 == discriminant,
                ;
            }
            let near = Rat::new(-half_b - sq, a);
            if t_min.lt(&near) && near.lt(t_max) {
                proof {
                    assert(near@ == sphere_near(*self, *ray));
                    assert((near.num + half_b) * (near.num + half_b) <= discriminant)
                        by (nonlinear_arith)
                        requires
                            near.num == -half_b - sq,
                            sq * sq <= discriminant,
                    ;
                }
                return Some(self.make_record(ray, near));
            }
            let far = Rat::new(-half_b + sq, a);
            if t_min.lt(&far) && far.lt(t_max) {
                proof {
                    assert(far@ == sphere_far(*self, *ray));
                    assert((far.num + half_b) * (far.num + half_b) <= discriminant)
                        by (nonlinear_arith)
                        requires
                            far.num == -half_b + sq,
                            sq * sq <= discriminant,
                    ;
                }
                return Some(self.make_record(ray, far));
            }
            None
        } else {
            None
        }
    }

    /// The box `centre - r .. centre + r`; a sphere is always bounded.
    pub fn bounding_box(&self, _time0: i64, _time1: i64) -> (res: Option<AABB>)
        requires
            sphere_wf(*self),
        ensures
            res == Some(sphere_bbox(*self)),
            aabb_wf(sphere_bbox(*self)),
    {
        Some(
            AABB {
                minimum: Vec3 {
                    x: self.center.x - self.radius,
                    y: self.center.y - self.radius,
                    z: self.center.z - self.radius,
                },
                maximum: Vec3 {
                    x: self.center.x + self.radius,
                    y: self.center.y + self.radius,
                    z: self.center.z + self.radius,
                },
            },
        )
    }

    /// Assemble the record for a root `t` of the quadratic.
    fn make_record(&self, ray: &Ray, t: Rat) -> (rec: HitRecord)
        requires
            sphere_wf(*self),
            ray_wf(*ray),
            t.wf(),
            t.den == sp_a(*ray),
            sp_a(*ray) > 0,
            (t.num + sp_hb(*self, *ray)) * (t.num + sp_hb(*self, *ray)) <= sp_disc(*self, *ray),
        ensures
            rec == sphere_rec_at(*self, *ray, t@),
            rec.t == t,
            record_wf(rec),
            record_on_ray(rec, *ray),
            rec.material == self.material,
            rec.front_face == sphere_front(*self, *ray, t@),
            rec.normal.x == if rec.front_face {
                sphere_normal_pre(*self, *ray, t@, 0)
            } else {
                -sphere_normal_pre(*self, *ray, t@, 0)
            },
            rec.normal.y == if rec.front_face {
                sphere_normal_pre(*self, *ray, t@, 1)
            } else {
                -sphere_normal_pre(*self, *ray, t@, 1)
            },
            rec.normal.z == if rec.front_face {
                sphere_normal_pre(*self, *ray, t@, 2)
            } else {
                -sphere_normal_pre(*self, *ray, t@, 2)
            },
            rec.u == turn_u_s(
                sphere_normal_pre(*self, *ray, t@, 0),
                sphere_normal_pre(*self, *ray, t@, 2),
            ),
            rec.v == lat_v_s(
                sphere_normal_pre(*self, *ray, t@, 0),
                sphere_normal_pre(*self, *ray, t@, 1),
                sphere_normal_pre(*self, *ray, t@, 2),
            ),
    {
        proof {
            lemma_sphere_point_in_ball(*self, *ray, t@);
        }
        let p = ray.point_at_parameter(&t);
        let den = t.den;
        proof {
            assert(-0x40_0000_0000_0000_0000_0000 <= (self.center.x as int) * den
                <= 0x40_0000_0000_0000_0000_0000 && -0x40_0000_0000_0000_0000_0000 <= (
            self.center.y as int) * den <= 0x40_0000_0000_0000_0000_0000
                && -0x40_0000_0000_0000_0000_0000 <= (self.center.z as int) * den
                <= 0x40_0000_0000_0000_0000_0000) by (nonlinear_arith)  // 2^86
                requires
                    -0x400_0000 <= self.center.x <= 0x400_0000,
                    -0x400_0000 <= self.center.y <= 0x400_0000,
                    -0x400_0000 <= self.center.z <= 0x400_0000,
                    0 < den <= 0x1000_0000_0000_0000,
            ;
        }
        let on_x = p.xn - (self.center.x as i128) * den;
        let on_y = p.yn - (self.center.y as i128) * den;
        let on_z = p.zn - (self.center.z as i128) * den;
        proof {
            assert(p.coord(0) == ray_at(*ray, t@, 0));
            assert(p.coord(1) == ray_at(*ray, t@, 1));
            assert(p.coord(2) == ray_at(*ray, t@, 2));
            assert(on_x == sphere_outward_num(*self, *ray, t@, 0));
            assert(on_y == sphere_outward_num(*self, *ray, t@, 1));
            assert(on_z == sphere_outward_num(*self, *ray, t@, 2));
            lemma_outward_products_fit(*self, *ray, t@, on_x as int, on_y as int, on_z as int);
        }
        let dot_dir = (ray.direction.x as i128) * on_x + (ray.direction.y as i128) * on_y + (
        ray.direction.z as i128) * on_z;
        let front_face = dot_dir < 0;
        let rad_den = (self.radius as i128) * den;
        let nx = div_round(on_x * (UNIT as i128), rad_den) as i64;
        let ny = div_round(on_y * (UNIT as i128), rad_den) as i64;
        let nz = div_round(on_z * (UNIT as i128), rad_den) as i64;
        let u = sphere_turn_u(nx, nz);
        let v = sphere_lat_v(nx, ny, nz);
        let normal = if front_face {
            Vec3 { x: nx, y: ny, z: nz }
        } else {
            Vec3 { x: -nx, y: -ny, z: -nz }
        };
        let built = HitRecord { t, p, normal, front_face, u, v, material: self.material };
        proof {
            let model = sphere_rec_at(*self, *ray, t@);
            assert(built.t.num == model.t.num && built.t.den == model.t.den);
            assert(built.p.xn == model.p.xn && built.p.yn == model.p.yn && built.p.zn == model.p.zn
                && built.p.den == model.p.den);
            assert(built.normal == model.normal);
            assert(built == model);
        }
        built
    }
}

/// The spec-level bounding box of a sphere.
pub open spec fn sphere_bbox(s: Sphere) -> AABB {
    AABB {
        minimum: Vec3 {
            x: (s.center.x - s.radius) as i64,
            y: (s.center.y - s.radius) as i64,
            z: (s.center.z - s.radius) as i64,
        },
        maximum: Vec3 {
            x: (s.center.x + s.radius) as i64,
            y: (s.center.y + s.radius) as i64,
            z: (s.center.z + s.radius) as i64,
        },
    }
}

/// Everything `make_record` multiplies stays inside `i128`, and the
/// rounded normal components stay within one unit.
proof fn lemma_outward_products_fit(s: Sphere, r: Ray, t: Frac, on_x: int, on_y: int, on_z: int)
    requires
        sphere_wf(s),
        ray_wf(r),
        crate::scalar::frac_wf(t),
        t.den <= RAT_BOUND,
        -(s.radius * t.den) <= on_x <= s.radius * t.den,
        -(s.radius * t.den) <= on_y <= s.radius * t.den,
        -(s.radius * t.den) <= on_z <= s.radius * t.den,
    ensures
        ({
            let lim: int = 0x1_0000_0000_0000_0000_0000_0000_0000;  // 2^112
            &&& -lim <= r.direction.x * on_x <= lim
            &&& -lim <= r.direction.y * on_y <= lim
            &&& -lim <= r.direction.z * on_z <= lim
            &&& -lim <= on_x * UNIT <= lim
            &&& -lim <= on_y * UNIT <= lim
            &&& -lim <= on_z * UNIT <= lim
            &&& 0 < s.radius * t.den < POW2_124 as int
            &&& -(UNIT as int) <= round_div(on_x * UNIT, s.radius * t.den) <= UNIT as int
            &&& -(UNIT as int) <= round_div(on_y * UNIT, s.radius * t.den) <= UNIT as int
            &&& -(UNIT as int) <= round_div(on_z * UNIT, s.radius * t.den) <= UNIT as int
        }),
{
    let rd = s.radius * t.den;
    assert(0 < rd <= 0x40_0000_0000_0000_0000_0000) by (nonlinear_arith)  // 2^86
        requires
            0 < s.radius <= 0x400_0000,
            0 < t.den <= 0x1000_0000_0000_0000,
            rd == s.radius * t.den,
    ;
    assert(POW2_124 as int == 0x1000_0000_0000_0000_0000_0000_0000_0000);
    lemma_outward_term(r.direction.x as int, on_x, rd);
    lemma_outward_term(r.direction.y as int, on_y, rd);
    lemma_outward_term(r.direction.z as int, on_z, rd);
    lemma_normal_round(on_x, rd);
    lemma_normal_round(on_y, rd);
    lemma_normal_round(on_z, rd);
}

/// Products of a direction component and an outward numerator fit.
proof fn lemma_outward_term(d: int, on: int, rd: int)
    requires
        -COORD_MAX <= d <= COORD_MAX,
        0 < rd <= 0x40_0000_0000_0000_0000_0000,  // 2^86
        -rd <= on <= rd,
    ensures
        -0x1_0000_0000_0000_0000_0000_0000_0000 <= d * on <= 0x1_0000_0000_0000_0000_0000_0000_0000,
        -0x1_0000_0000_0000_0000_0000_0000_0000 <= on * UNIT
            <= 0x1_0000_0000_0000_0000_0000_0000_0000,
{
    assert(-0x1_0000_0000_0000_0000_0000_0000_0000 <= d * on
        <= 0x1_0000_0000_0000_0000_0000_0000_0000 && -0x1_0000_0000_0000_0000_0000_0000_0000 <= on
        * UNIT <= 0x1_0000_0000_0000_0000_0000_0000_0000) by (nonlinear_arith)
        requires
            -0x400_0000 <= d <= 0x400_0000,
            0 < rd <= 0x40_0000_0000_0000_0000_0000,
            -rd <= on <= rd,
            UNIT == 0x1_0000,
    ;
}

/// The rounded normal component stays within one unit when the outward
/// numerator is within the radius.
proof fn lemma_normal_round(on: int, rd: int)
    requires
        0 < rd,
        -rd <= on <= rd,
    ensures
        -(UNIT as int) <= round_div(on * UNIT, rd) <= UNIT as int,
{
    let q = round_div(on * UNIT, rd);
    assert(2 * rd * q == 2 * (on * UNIT) + rd - (2 * (on * UNIT) + rd) % (2 * rd) && 0 <= (2 * (on
        * UNIT) + rd) % (2 * rd) < 2 * rd) by (nonlinear_arith)
        requires
            0 < rd,
            q == (2 * (on * UNIT) + rd) / (2 * rd),
    ;
    assert(-(UNIT as int) <= q <= UNIT as int) by (nonlinear_arith)
        requires
            0 < rd,
            -rd <= on <= rd,
            UNIT == 0x1_0000,
            2 * rd * q <= 2 * (on * UNIT) + rd,
            2 * (on * UNIT) + rd < 2 * rd * q + 2 * rd,
    ;
}

/// A sphere whose centre moves linearly between two positions over the
/// exposure interval `[time0, time1]`.  A query time outside the
/// interval is clamped to its nearer end rather than extrapolated, so
/// the centre never leaves the segment between the two endpoints.
#[derive(Clone, Copy, Debug)]
pub struct MovingSphere {
    pub center0: Vec3,
    pub center1: Vec3,
    pub time0: i64,
    pub time1: i64,
    pub radius: i64,
    pub material: usize,
}

pub open spec fn moving_sphere_wf(ms: MovingSphere) -> bool {
    in_range(ms.center0, COORD_MAX as int) && in_range(ms.center1, COORD_MAX as int) && 0
        < ms.radius <= COORD_MAX && -COORD_MAX <= ms.time0 < ms.time1 <= COORD_MAX
}

/// The query time, clamped to the exposure interval.
pub open spec fn clamp_time(ms: MovingSphere, time: int) -> int {
    if time < ms.time0 {
        ms.time0 as int
    } else if time > ms.time1 {
        ms.time1 as int
    } else {
        time
    }
}

/// The centre at a clamped time: each coordinate interpolates between the
/// two endpoints, rounded to the grid.
pub open spec fn moving_center(ms: MovingSphere, time: int) -> Vec3 {
    let ct = clamp_time(ms, time);
    Vec3 {
        x: (ms.center0.x + round_div(
            (ms.center1.x - ms.center0.x) * (ct - ms.time0),
            ms.time1 - ms.time0,
        )) as i64,
        y: (ms.center0.y + round_div(
            (ms.center1.y - ms.center0.y) * (ct - ms.time0),
            ms.time1 - ms.time0,
        )) as i64,
        z: (ms.center0.z + round_div(
            (ms.center1.z - ms.center0.z) * (ct - ms.time0),
            ms.time1 - ms.time0,
        )) as i64,
    }
}

/// The still sphere standing in for the moving one at `time`.
pub open spec fn moving_eff(ms: MovingSphere, time: int) -> Sphere {
    Sphere { center: moving_center(ms, time), radius: ms.radius, material: ms.material }
}

/// The interpolant stays between `0` and the full step `delta`.
proof fn lemma_interp_bounds(delta: int, x: int, y: int)
    requires
        0 <= x <= y,
        0 < y,
    ensures
        delta >= 0 ==> 0 <= round_div(delta * x, y) <= delta,
        delta < 0 ==> delta <= round_div(delta * x, y) <= 0,
{
    let q = round_div(delta * x, y);
    assert(2 * y * q == 2 * (delta * x) + y - (2 * (delta * x) + y) % (2 * y) && 0 <= (2 * (delta
        * x) + y) % (2 * y) < 2 * y) by (nonlinear_arith)
        requires
            0 < y,
            q == (2 * (delta * x) + y) / (2 * y),
    ;
    assert((delta >= 0 ==> 0 <= q <= delta) && (delta < 0 ==> delta <= q <= 0))
        by (nonlinear_arith)
        requires
            0 <= x <= y,
            0 < y,
            2 * y * q <= 2 * (delta * x) + y,
            2 * (delta * x) + y < 2 * y * q + 2 * y,
    ;
}

/// The effective sphere of a well-formed moving sphere is well formed:
/// the clamped, rounded centre stays between the two endpoint centres.
pub proof fn lemma_moving_eff_wf(ms: MovingSphere, time: int)
    requires
        moving_sphere_wf(ms),
    ensures
        sphere_wf(moving_eff(ms, time)),
{
    let ct = clamp_time(ms, time);
    assert(ms.time0 <= ct <= ms.time1);
    lemma_interp_bounds(ms.center1.x - ms.center0.x, ct - ms.time0, ms.time1 - ms.time0);
    lemma_interp_bounds(ms.center1.y - ms.center0.y, ct - ms.time0, ms.time1 - ms.time0);
    lemma_interp_bounds(ms.center1.z - ms.center0.z, ct - ms.time0, ms.time1 - ms.time0);
}

impl MovingSphere {
    pub fn new(
        center0: Vec3,
        center1: Vec3,
        time0: i64,
        time1: i64,
        radius: i64,
        material: usize,
    ) -> (ms: MovingSphere)
        ensures
            ms == (MovingSphere { center0, center1, time0, time1, radius, material }),
    {
        MovingSphere { center0, center1, time0, time1, radius, material }
    }

    /// The centre at `time` (clamped to the exposure interval).
    fn center(&self, time: i64) -> (c: Vec3)
        requires
            moving_sphere_wf(*self),
        ensures
            c == moving_center(*self, time as int),
            in_range(c, COORD_MAX as int),
    {
        let ct = if time < self.time0 {
            self.time0
        } else if time > self.time1 {
            self.time1
        } else {
            time
        };
        let dt = (self.time1 as i128) - (self.time0 as i128);
        let xq = (ct as i128) - (self.time0 as i128);
        proof {
            lemma_interp_bounds(
                self.center1.x as int - self.center0.x as int,
                xq as int,
                dt as int,
            );
            lemma_interp_bounds(
                self.center1.y as int - self.center0.y as int,
                xq as int,
                dt as int,
            );
            lemma_interp_bounds(
                self.center1.z as int - self.center0.z as int,
                xq as int,
                dt as int,
            );
            lemma_interp_products(
                *self,
                xq as int,
            );
        }
        let cx = self.center0.x + (div_round(((self.center1.x as i128) - (self.center0.x as i128))
            * xq, dt) as i64);
        let cy = self.center0.y + (div_round(((self.center1.y as i128) - (self.center0.y as i128))
            * xq, dt) as i64);
        let cz = self.center0.z + (div_round(((self.center1.z as i128) - (self.center0.z as i128))
            * xq, dt) as i64);
        Vec3 { x: cx, y: cy, z: cz }
    }

    /// The moving-sphere test: the still test against the centre at the
    /// ray's (clamped) time.
    pub fn hit(&self, ray: &Ray, t_min: &Rat, t_max: &Rat) -> (res: Option<HitRecord>)
        requires
            moving_sphere_wf(*self),
            ray_wf(*ray),
            t_min.wf(),
            t_max.wf(),
        ensures
            res == sphere_hit_rec(moving_eff(*self, ray.time as int), *ray, t_min@, t_max@),
            ({
                let eff = moving_eff(*self, ray.time as int);
                match res {
                    Some(rec) => {
                        &&& sphere_hit_t(eff, *ray, t_min@, t_max@) == Some(rec.t@)
                        &&& record_wf(rec)
                        &&& record_on_ray(rec, *ray)
                        &&& record_in_interval(rec, t_min@, t_max@)
                        &&& rec.material == self.material
                        &&& sphere_record_ok(eff, *ray, rec)
                        &&& rec.u == turn_u_s(
                            sphere_normal_pre(eff, *ray, rec.t@, 0),
                            sphere_normal_pre(eff, *ray, rec.t@, 2),
                        )
                        &&& rec.v == lat_v_s(
                            sphere_normal_pre(eff, *ray, rec.t@, 0),
                            sphere_normal_pre(eff, *ray, rec.t@, 1),
                            sphere_normal_pre(eff, *ray, rec.t@, 2),
                        )
                    },
                    None => sphere_hit_t(eff, *ray, t_min@, t_max@) is None,
                }
            }),
    {
        let eff = Sphere {
            center: self.center(ray.time),
            radius: self.radius,
            material: self.material,
        };
        eff.hit(ray, t_min, t_max)
    }

    /// The union of the boxes at the two ends of the exposure interval.
    pub fn bounding_box(&self, time0: i64, time1: i64) -> (res: Option<AABB>)
        requires
            moving_sphere_wf(*self),
        ensures
            res == Some(
                AABB::spec_surrounding(
                    sphere_bbox(moving_eff(*self, time0 as int)),
                    sphere_bbox(moving_eff(*self, time1 as int)),
                ),
            ),
            aabb_wf(res->Some_0),
    {
        let s0 = Sphere {
            center: self.center(time0),
            radius: self.radius,
            material: self.material,
        };
        let s1 = Sphere {
            center: self.center(time1),
            radius: self.radius,
            material: self.material,
        };
        let b0 = s0.bounding_box(time0, time1);
        let b1 = s1.bounding_box(time0, time1);
        match (b0, b1) {
            (Some(b0), Some(b1)) => Some(AABB::surrounding_box(b0, b1)),
            _ => None,
        }
    }
}

/// The interpolation products fit the rounding division.
proof fn lemma_interp_products(ms: MovingSphere, x: int)
    requires
        moving_sphere_wf(ms),
        0 <= x <= ms.time1 - ms.time0,
    ensures
        -(POW2_124 as int) < (ms.center1.x - ms.center0.x) * x < (POW2_124 as int),
        -(POW2_124 as int) < (ms.center1.y - ms.center0.y) * x < (POW2_124 as int),
        -(POW2_124 as int) < (ms.center1.z - ms.center0.z) * x < (POW2_124 as int),
        0 < ms.time1 - ms.time0 < (POW2_124 as int),
{
    assert(POW2_124 as int == 0x1000_0000_0000_0000_0000_0000_0000_0000);
    assert((-0x1000_0000_0000_0000_0000_0000_0000_0000 < (ms.center1.x - ms.center0.x) * x
        && (ms.center1.x - ms.center0.x) * x < 0x1000_0000_0000_0000_0000_0000_0000_0000)
        && (-0x1000_0000_0000_0000_0000_0000_0000_0000 < (ms.center1.y - ms.center0.y) * x
        && (ms.center1.y - ms.center0.y) * x < 0x1000_0000_0000_0000_0000_0000_0000_0000)
        && (-0x1000_0000_0000_0000_0000_0000_0000_0000 < (ms.center1.z - ms.center0.z) * x
        && (ms.center1.z - ms.center0.z) * x < 0x1000_0000_0000_0000_0000_0000_0000_0000))
        by (nonlinear_arith)
        requires
            -0x800_0000 <= ms.center1.x - ms.center0.x <= 0x800_0000,
            -0x800_0000 <= ms.center1.y - ms.center0.y <= 0x800_0000,
            -0x800_0000 <= ms.center1.z - ms.center0.z <= 0x800_0000,
            0 <= x <= 0x800_0000,
    ;
}

/// The turn fraction of the rounded outward normal's `(x, z)`.
fn sphere_turn_u(nx: i64, nz: i64) -> (u: i64)
    requires
        -UNIT <= nx <= UNIT,
        -UNIT <= nz <= UNIT,
    ensures
        u == turn_u_s(nx as int, nz as int),
        0 <= u < UNIT,
{
    let yy = -nz;
    let ax = if nx < 0 {
        -nx
    } else {
        nx
    };
    let ay = if yy < 0 {
        -yy
    } else {
        yy
    };
    if ax + ay == 0 {
        UNIT / 2
    } else {
        proof {
            lemma_ratio_round(yy as int, (ax + ay) as int);
        }
        let s = div_round((yy as i128) * (UNIT as i128), (ax + ay) as i128) as i64;
        let tau = if nx >= 0 {
            s
        } else {
            2 * UNIT - s
        };
        let u0 = (((tau + 2 * UNIT) as u64) / 4) as i64;
        if u0 >= UNIT {
            u0 - UNIT
        } else {
            u0
        }
    }
}

/// The latitude fraction of the rounded outward normal.
fn sphere_lat_v(nx: i64, ny: i64, nz: i64) -> (v: i64)
    requires
        -UNIT <= nx <= UNIT,
        -UNIT <= ny <= UNIT,
        -UNIT <= nz <= UNIT,
    ensures
        v == lat_v_s(nx as int, ny as int, nz as int),
        0 <= v <= UNIT,
{
    proof {
        assert(0 <= (nx as int) * (nx as int) <= 0x1_0000_0000 && 0 <= (nz as int) * (nz as int)
            <= 0x1_0000_0000 && 0x2_0000_0000 < POW2_112 as int) by (nonlinear_arith)
            requires
                -UNIT <= nx <= UNIT,
                -UNIT <= nz <= UNIT,
                UNIT == 0x1_0000,
                POW2_112 == 0x1_0000_0000_0000_0000_0000_0000_0000u128,
        ;
    }
    let rh_u = isqrt(((nx as i128) * (nx as i128) + (nz as i128) * (nz as i128)) as u128);
    proof {
        assert(rh_u <= 0x2_0000u128) by (nonlinear_arith)
            requires
                rh_u * rh_u <= 0x2_0000_0000u128,
        ;
    }
    let rh = rh_u as i64;
    let xx = -ny;
    let ax = if xx < 0 {
        -xx
    } else {
        xx
    };
    if ax + rh == 0 {
        UNIT / 2
    } else {
        proof {
            lemma_ratio_round(rh as int, (ax + rh) as int);
        }
        let s = div_round((rh as i128) * (UNIT as i128), (ax + rh) as i128) as i64;
        if xx >= 0 {
            ((s as u64) / 2) as i64
        } else {
            (((2 * UNIT - s) as u64) / 2) as i64
        }
    }
}

} // verus!
