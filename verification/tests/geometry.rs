//! Exact-value checks for the scalar, vector, ray and box layers.

use raytracer::aabb::AABB;
use raytracer::ray::Ray;
use raytracer::scalar::{div_floor, div_round, isqrt, Rat};
use raytracer::vec3::{Vec3, UNIT};

fn rat_eq_int(t: &Rat, n: i128) -> bool {
    t.num == n * t.den
}

#[test]
fn isqrt_exact_squares() {
    assert_eq!(isqrt(0), 0);
    assert_eq!(isqrt(1), 1);
    assert_eq!(isqrt(15), 3);
    assert_eq!(isqrt(16), 4);
    assert_eq!(isqrt(17), 4);
    let big: u128 = 1 << 54;
    assert_eq!(isqrt(big * big), big);
    assert_eq!(isqrt(big * big + 1), big);
    assert_eq!(isqrt(big * big - 1), big - 1);
}

#[test]
fn floor_and_round_division() {
    assert_eq!(div_floor(7, 2), 3);
    assert_eq!(div_floor(-7, 2), -4);
    assert_eq!(div_floor(-8, 2), -4);
    assert_eq!(div_round(7, 2), 4);
    assert_eq!(div_round(-7, 2), -3);
    assert_eq!(div_round(5, 3), 2);
    assert_eq!(div_round(-5, 3), -2);
}

#[test]
fn rational_comparisons_cross_multiply() {
    let a = Rat::new(1, 3);
    let b = Rat::new(2, 6);
    let c = Rat::new(1, 2);
    assert!(a.le(&b));
    assert!(b.le(&a));
    assert!(a.lt(&c));
    assert!(!c.lt(&a));
    let m = a.max(c);
    assert!(rat_eq_int(&Rat::new(m.num * 2, m.den * 2), 1) == false);
    assert_eq!(m.num, 1);
    assert_eq!(m.den, 2);
}

#[test]
fn vector_arithmetic_is_exact() {
    let a = Vec3::new(3 * UNIT, 4 * UNIT, 0);
    let b = Vec3::new(UNIT, -UNIT, 2 * UNIT);
    let s = a.add(b);
    assert_eq!((s.x, s.y, s.z), (4 * UNIT, 3 * UNIT, 2 * UNIT));
    let d = a.sub(b);
    assert_eq!((d.x, d.y, d.z), (2 * UNIT, 5 * UNIT, -2 * UNIT));
    let u = UNIT as i128;
    assert_eq!(a.dot(&b), 3 * u * u - 4 * u * u);
    let c = a.cross(&b);
    assert_eq!(c.x, 4 * UNIT * (2 * UNIT) - 0 * (-UNIT));
    assert_eq!(c.z, 3 * UNIT * (-UNIT) - 4 * UNIT * UNIT);
}

#[test]
fn length_and_unit_vector_of_three_four_five() {
    let v = Vec3::new(3 * UNIT, 4 * UNIT, 0);
    assert_eq!(v.length(), 5 * UNIT);
    let uv = v.unit_vector();
    // 3/5 and 4/5 in Q16.16, rounded half-up.
    assert_eq!(uv.x, 39322);
    assert_eq!(uv.y, 52429);
    assert_eq!(uv.z, 0);
    let len = ((uv.x as f64).powi(2) + (uv.y as f64).powi(2)).sqrt() / UNIT as f64;
    assert!((len - 1.0).abs() < 1e-4);
}

#[test]
fn make_color_maps_directions_into_unit_range() {
    let v = Vec3::new(-UNIT, 0, UNIT);
    let c = v.make_color();
    assert_eq!((c.x, c.y, c.z), (0, UNIT / 2, UNIT));
}

#[test]
fn surrounding_box_takes_componentwise_extremes() {
    let a = AABB {
        minimum: Vec3::new(-UNIT, 0, 5),
        maximum: Vec3::new(UNIT, 2 * UNIT, 10),
    };
    let b = AABB {
        minimum: Vec3::new(-2 * UNIT, UNIT, 7),
        maximum: Vec3::new(0, 3 * UNIT, 8),
    };
    let s = AABB::surrounding_box(a, b);
    assert_eq!(s.minimum.x, -2 * UNIT);
    assert_eq!(s.minimum.y, 0);
    assert_eq!(s.minimum.z, 5);
    assert_eq!(s.maximum.x, UNIT);
    assert_eq!(s.maximum.y, 3 * UNIT);
    assert_eq!(s.maximum.z, 10);
    // Both boxes lie within the union, corner by corner.
    for &x in &[a.minimum.x, a.maximum.x] {
        for &y in &[a.minimum.y, a.maximum.y] {
            for &z in &[a.minimum.z, a.maximum.z] {
                assert!(s.minimum.x <= x && x <= s.maximum.x);
                assert!(s.minimum.y <= y && y <= s.maximum.y);
                assert!(s.minimum.z <= z && z <= s.maximum.z);
            }
        }
    }
}

#[test]
fn slab_test_agrees_with_per_axis_intervals() {
    let bb = AABB {
        minimum: Vec3::new(-UNIT, -UNIT, -UNIT),
        maximum: Vec3::new(UNIT, UNIT, UNIT),
    };
    let t_min = Rat::new(1, 10000);
    let t_max = Rat::new(1 << 40, 1);
    // Straight through the middle: the z interval is (4, 6).
    let through = Ray::new(Vec3::new(0, 0, -5 * UNIT), Vec3::new(0, 0, UNIT), 0);
    assert!(bb.hit(&through, &t_min, &t_max));
    // Offset outside the x slab with a zero x direction: rejected.
    let offset = Ray::new(Vec3::new(2 * UNIT, 0, -5 * UNIT), Vec3::new(0, 0, UNIT), 0);
    assert!(!bb.hit(&offset, &t_min, &t_max));
    // Diagonal that misses: x leaves the slab before z enters it.
    let miss = Ray::new(Vec3::new(-5 * UNIT, 0, -5 * UNIT), Vec3::new(UNIT, 0, 8 * UNIT), 0);
    assert!(!bb.hit(&miss, &t_min, &t_max));
    // The same intervals computed independently agree.
    let brute = |r: &Ray| -> bool {
        let (mut lo, mut hi) = (0.0001_f64, 1e9_f64);
        for axis in 0..3 {
            let o = [r.origin.x, r.origin.y, r.origin.z][axis] as f64;
            let d = [r.direction.x, r.direction.y, r.direction.z][axis] as f64;
            let (bmin, bmax) = (-(UNIT as f64), UNIT as f64);
            if d == 0.0 {
                if o < bmin || o > bmax {
                    return false;
                }
                continue;
            }
            let (t0, t1) = ((bmin - o) / d, (bmax - o) / d);
            let (t0, t1) = if t0 < t1 { (t0, t1) } else { (t1, t0) };
            lo = lo.max(t0);
            hi = hi.min(t1);
        }
        lo < hi
    };
    for r in [&through, &offset, &miss] {
        assert_eq!(bb.hit(r, &t_min, &t_max), brute(r));
    }
}

#[test]
fn point_at_parameter_is_exact() {
    let r = Ray::new(Vec3::new(UNIT, 0, -5 * UNIT), Vec3::new(0, 0, UNIT), 0);
    let t = Rat::new(4, 1);
    let p = r.point_at_parameter(&t);
    assert_eq!(p.den, 1);
    assert_eq!(p.xn, UNIT as i128);
    assert_eq!(p.yn, 0);
    assert_eq!(p.zn, -(UNIT as i128));
}
