//! Intersection tests for the shapes, the aggregate, the tree and the
//! medium.

use raytracer::bvh::BvhNode;
use raytracer::cube::Cube;
use raytracer::hittable_list::HittableList;
use raytracer::primitive::{Primitive, Translate};
use raytracer::ray::Ray;
use raytracer::rect::{XyRect, XzRect};
use raytracer::scalar::Rat;
use raytracer::sphere::{MovingSphere, Sphere};
use raytracer::vec3::{Vec3, UNIT};
use raytracer::volume::ConstantMedium;

fn t_min() -> Rat {
    Rat::new(1, 10000)
}

fn t_max() -> Rat {
    Rat::new(1 << 40, 1)
}

fn rat_is(t: &Rat, n: i128) -> bool {
    t.num == n * t.den
}

fn rat_f64(t: &Rat) -> f64 {
    t.num as f64 / t.den as f64
}

#[test]
fn unit_sphere_head_on_hit() {
    // Unit sphere at the origin, ray from (0,0,-5) towards +z:
    // the hit is at t = 4, point (0,0,-1), normal (0,0,-1), outside.
    let s = Sphere::new(Vec3::new(0, 0, 0), UNIT, 0);
    let r = Ray::new(Vec3::new(0, 0, -5 * UNIT), Vec3::new(0, 0, UNIT), 0);
    let rec = s.hit(&r, &t_min(), &t_max()).expect("head-on ray must hit");
    assert!(rat_is(&rec.t, 4));
    assert_eq!(rec.p.xn, 0);
    assert_eq!(rec.p.yn, 0);
    assert_eq!(rec.p.zn, -(UNIT as i128) * rec.p.den);
    assert!(rec.front_face);
    assert_eq!((rec.normal.x, rec.normal.y, rec.normal.z), (0, 0, -UNIT));
    // The texture coordinates of the (0,0,-1) normal: three quarters of
    // a turn, half the latitude — exact on the axis directions.
    assert_eq!(rec.u, 3 * UNIT / 4);
    assert_eq!(rec.v, UNIT / 2);
}

#[test]
fn sphere_round_trip_matches_analytic_root() {
    // A sphere of radius 1.5 units: the analytic entry is t = 3.5.
    let s = Sphere::new(Vec3::new(0, 0, 0), 3 * UNIT / 2, 0);
    let r = Ray::new(Vec3::new(0, 0, -5 * UNIT), Vec3::new(0, 0, UNIT), 0);
    let rec = s.hit(&r, &t_min(), &t_max()).expect("must hit");
    assert!((rat_f64(&rec.t) - 3.5).abs() < 1e-6);
    // The normal is within a grid step of unit length and points away
    // from the centre.
    let n = (
        rec.normal.x as f64 / UNIT as f64,
        rec.normal.y as f64 / UNIT as f64,
        rec.normal.z as f64 / UNIT as f64,
    );
    let len = (n.0 * n.0 + n.1 * n.1 + n.2 * n.2).sqrt();
    assert!((len - 1.0).abs() < 1e-3);
    assert!(n.2 < 0.0);
}

#[test]
fn sphere_inside_uses_far_root() {
    let s = Sphere::new(Vec3::new(0, 0, 0), UNIT, 0);
    let r = Ray::new(Vec3::new(0, 0, 0), Vec3::new(0, 0, UNIT), 0);
    let rec = s.hit(&r, &t_min(), &t_max()).expect("must exit the sphere");
    assert!(rat_is(&rec.t, 1));
    assert!(!rec.front_face);
}

#[test]
fn sphere_miss_reports_nothing() {
    let s = Sphere::new(Vec3::new(0, 0, 0), UNIT, 0);
    let r = Ray::new(Vec3::new(3 * UNIT, 0, -5 * UNIT), Vec3::new(0, 0, UNIT), 0);
    assert!(s.hit(&r, &t_min(), &t_max()).is_none());
}

#[test]
fn rect_hit_center_and_uv() {
    let rc = XyRect { x0: -UNIT, x1: UNIT, y0: -UNIT, y1: UNIT, k: 0, mp: 7 };
    let r = Ray::new(Vec3::new(0, 0, -4 * UNIT), Vec3::new(0, 0, UNIT), 0);
    let rec = rc.hit(&r, &t_min(), &t_max()).expect("must hit the plane");
    assert!(rat_is(&rec.t, 4));
    assert_eq!(rec.material, 7);
    // The ray travels along +z into the plane's +z outward normal, so
    // it strikes the back face and the normal is flipped towards it.
    assert!(!rec.front_face);
    assert_eq!((rec.normal.x, rec.normal.y, rec.normal.z), (0, 0, -UNIT));
    // Dead centre: both texture coordinates are one half.
    assert_eq!(rec.u, UNIT / 2);
    assert_eq!(rec.v, UNIT / 2);
}

#[test]
fn rect_parallel_ray_never_hits() {
    // A ray travelling inside the rectangle's own plane reports nothing,
    // even though it crosses the padded box.
    let rc = XyRect { x0: -UNIT, x1: UNIT, y0: -UNIT, y1: UNIT, k: 0, mp: 0 };
    let r = Ray::new(Vec3::new(-5 * UNIT, 0, 0), Vec3::new(UNIT, 0, 0), 0);
    assert!(rc.hit(&r, &t_min(), &t_max()).is_none());
}

#[test]
fn thin_faces_reject_parallel_rays() {
    // Two rectangles forming a thin face pair; rays parallel to the thin
    // axis hit only when they cross the face area.
    let mut world = HittableList::new();
    world.add(Primitive::XyRect(XyRect { x0: 0, x1: UNIT, y0: 0, y1: UNIT, k: 0, mp: 0 }));
    world.add(Primitive::XyRect(XyRect { x0: 0, x1: UNIT, y0: 0, y1: UNIT, k: 10, mp: 0 }));
    // Parallel to the thin axis but outside the face: nothing, despite
    // the one-grid-step box padding.
    let outside = Ray::new(Vec3::new(3 * UNIT, 0, -4 * UNIT), Vec3::new(0, 0, UNIT), 0);
    assert!(world.hit(&outside, &t_min(), &t_max()).is_none());
    // Sliding within the face plane: still nothing.
    let sliding = Ray::new(Vec3::new(-5 * UNIT, UNIT / 2, 0), Vec3::new(UNIT, 0, 0), 0);
    assert!(world.hit(&sliding, &t_min(), &t_max()).is_none());
    // Crossing the faces: the nearer face answers.
    let crossing = Ray::new(Vec3::new(UNIT / 2, UNIT / 2, -4 * UNIT), Vec3::new(0, 0, UNIT), 0);
    let rec = world.hit(&crossing, &t_min(), &t_max()).expect("must hit the near face");
    assert!(rat_is(&rec.t, 4));
}

#[test]
fn cube_front_face_is_nearest() {
    let cb = Cube::new(Vec3::new(-UNIT, -UNIT, -UNIT), Vec3::new(UNIT, UNIT, UNIT), 3);
    let r = Ray::new(Vec3::new(0, 0, -5 * UNIT), Vec3::new(0, 0, UNIT), 0);
    let rec = cb.hit(&r, &t_min(), &t_max()).expect("must hit the box");
    assert!(rat_is(&rec.t, 4));
    assert_eq!(rec.material, 3);
}

#[test]
fn translate_shifts_the_hit() {
    let inner = Primitive::Sphere(Sphere::new(Vec3::new(0, 0, 0), UNIT, 0));
    let moved = Primitive::Translate(Translate {
        offset: Vec3::new(0, 0, 2 * UNIT),
        inner: Box::new(inner),
    });
    let r = Ray::new(Vec3::new(0, 0, -5 * UNIT), Vec3::new(0, 0, UNIT), 0);
    let rec = moved.hit(&r, &t_min(), &t_max()).expect("must hit the moved sphere");
    assert!(rat_is(&rec.t, 6));
    // The reported point lies on the original ray.
    assert_eq!(rec.p.zn, (UNIT as i128) * rec.p.den);
}

#[test]
fn moving_sphere_follows_its_centers() {
    let ms = MovingSphere::new(
        Vec3::new(0, 0, 0),
        Vec3::new(0, 0, 2 * UNIT),
        0,
        UNIT,
        UNIT,
        0,
    );
    // At the start of the exposure the centre is at the origin.
    let r0 = Ray::new(Vec3::new(0, 0, -5 * UNIT), Vec3::new(0, 0, UNIT), 0);
    let rec0 = ms.hit(&r0, &t_min(), &t_max()).expect("must hit at time zero");
    assert!(rat_is(&rec0.t, 4));
    // At the end it has moved two units along z.
    let r1 = Ray::new(Vec3::new(0, 0, -5 * UNIT), Vec3::new(0, 0, UNIT), UNIT);
    let rec1 = ms.hit(&r1, &t_min(), &t_max()).expect("must hit at time one");
    assert!(rat_is(&rec1.t, 6));
}

#[test]
fn closest_hit_wins_among_overlapping_spheres() {
    let mut world = HittableList::new();
    world.add(Primitive::Sphere(Sphere::new(Vec3::new(0, 0, 5 * UNIT), UNIT, 2)));
    world.add(Primitive::Sphere(Sphere::new(Vec3::new(0, 0, 0), UNIT, 1)));
    world.add(Primitive::Sphere(Sphere::new(Vec3::new(0, 0, 2 * UNIT), UNIT, 3)));
    let r = Ray::new(Vec3::new(0, 0, -5 * UNIT), Vec3::new(0, 0, UNIT), 0);
    let rec = world.hit(&r, &t_min(), &t_max()).expect("must hit something");
    // The sphere at the origin is nearest: t = 4, strictly smaller than
    // the others' entries at 6 and 9.
    assert!(rat_is(&rec.t, 4));
    assert_eq!(rec.material, 1);
}

#[test]
fn list_bounding_box_unions_members() {
    let mut world = HittableList::new();
    world.add(Primitive::Sphere(Sphere::new(Vec3::new(0, 0, 0), UNIT, 0)));
    world.add(Primitive::Sphere(Sphere::new(Vec3::new(3 * UNIT, 0, 0), UNIT, 0)));
    let bb = world.bounding_box(0, UNIT).expect("spheres are bounded");
    assert_eq!(bb.minimum.x, -UNIT);
    assert_eq!(bb.maximum.x, 4 * UNIT);
    let empty = HittableList::new();
    assert!(empty.bounding_box(0, UNIT).is_none());
}

fn sample_scene() -> Vec<Primitive> {
    let mut prims: Vec<Primitive> = Vec::new();
    prims.push(Primitive::Sphere(Sphere::new(Vec3::new(0, 0, 0), UNIT, 0)));
    prims.push(Primitive::Sphere(Sphere::new(Vec3::new(3 * UNIT, UNIT, 4 * UNIT), 2 * UNIT, 1)));
    prims.push(Primitive::Sphere(Sphere::new(Vec3::new(-4 * UNIT, -2 * UNIT, 6 * UNIT), UNIT, 2)));
    prims.push(Primitive::XyRect(XyRect {
        x0: -6 * UNIT,
        x1: 6 * UNIT,
        y0: -6 * UNIT,
        y1: 6 * UNIT,
        k: 8 * UNIT,
        mp: 3,
    }));
    prims.push(Primitive::XzRect(XzRect {
        x0: -6 * UNIT,
        x1: 6 * UNIT,
        z0: -6 * UNIT,
        z1: 6 * UNIT,
        k: -3 * UNIT,
        mp: 4,
    }));
    prims.push(Primitive::Cube(Cube::new(
        Vec3::new(4 * UNIT, -2 * UNIT, -2 * UNIT),
        Vec3::new(6 * UNIT, 0, 0),
        5,
    )));
    prims
}

#[test]
fn bvh_agrees_with_linear_scan() {
    let prims = sample_scene();
    let mut world = HittableList::new();
    for p in sample_scene() {
        world.add(p);
    }
    let root = BvhNode::new(&prims, 0, UNIT);
    // A deterministic congruential sweep of ray directions and origins.
    let mut seed: i64 = 0x12345;
    let mut next = || {
        seed = seed.wrapping_mul(6364136223846793005).wrapping_add(1442695040888963407);
        (seed >> 40) as i64 % (8 * UNIT)
    };
    let mut hits = 0usize;
    for _ in 0..400 {
        let origin = Vec3::new(next(), next(), -10 * UNIT + next() / 8);
        let mut dir = Vec3::new(next() / 8, next() / 8, UNIT + next() / 4);
        if dir.z == 0 {
            dir.z = UNIT;
        }
        let r = Ray::new(origin, dir, 0);
        let from_list = world.hit(&r, &t_min(), &t_max());
        let from_tree = root.hit(&prims, &r, &t_min(), &t_max());
        match (&from_list, &from_tree) {
            (None, None) => {},
            (Some(a), Some(b)) => {
                // The nearest parameters agree exactly, as rationals.
                assert_eq!(a.t.num * b.t.den, b.t.num * a.t.den);
                hits += 1;
            },
            _ => panic!("tree and scan disagree on whether the ray hits"),
        }
    }
    assert!(hits > 20, "the sweep should produce a fair number of hits");
}

#[test]
fn rotate_quarter_turn_maps_the_box_onto_itself() {
    // A cube symmetric about the y axis, rotated a quarter turn: the
    // rotation is exact in Q16.16 (sine one, cosine zero), so the hit
    // parameter is exactly what the unrotated cube reports.
    let cube = Primitive::Cube(Cube::new(
        Vec3::new(-UNIT, -UNIT, -UNIT),
        Vec3::new(UNIT, UNIT, UNIT),
        4,
    ));
    let rotated = raytracer::rotate::RotateY::new(Box::new(cube), UNIT, 0, 0, UNIT);
    let r = Ray::new(Vec3::new(0, 0, -5 * UNIT), Vec3::new(0, 0, UNIT), 0);
    let rec = rotated.hit(&r, &t_min(), &t_max()).expect("must hit the rotated box");
    assert!(rat_is(&rec.t, 4));
    assert_eq!(rec.material, 4);
    // The reported point lies on the unrotated ray.
    assert_eq!(rec.p.xn, 0);
    assert_eq!(rec.p.zn, -(UNIT as i128) * rec.p.den);
    // The record passes through whole: the struck face's normal comes
    // back rotated into world space, facing the incoming ray.
    assert!(rec.front_face);
    assert_eq!((rec.normal.x, rec.normal.y, rec.normal.z), (0, 0, -UNIT));
    // The cached box still contains the (symmetric) cube.
    let bb = rotated.bounding_box(0, UNIT).unwrap();
    assert!(bb.minimum.x <= -UNIT && UNIT <= bb.maximum.x);
    assert!(bb.minimum.z <= -UNIT && UNIT <= bb.maximum.z);
}

#[test]
fn sphere_texture_coordinates_at_the_axes() {
    // The turn and latitude fractions are exact on the axis normals.
    let s = Sphere::new(Vec3::new(0, 0, 0), UNIT, 0);
    // +x normal: half a turn, half the latitude.
    let rec = s
        .hit(&Ray::new(Vec3::new(5 * UNIT, 0, 0), Vec3::new(-UNIT, 0, 0), 0), &t_min(), &t_max())
        .unwrap();
    assert_eq!((rec.u, rec.v), (UNIT / 2, UNIT / 2));
    // -x normal: the seam at zero.
    let rec = s
        .hit(&Ray::new(Vec3::new(-5 * UNIT, 0, 0), Vec3::new(UNIT, 0, 0), 0), &t_min(), &t_max())
        .unwrap();
    assert_eq!((rec.u, rec.v), (0, UNIT / 2));
    // +z normal: a quarter turn.
    let rec = s
        .hit(&Ray::new(Vec3::new(0, 0, 5 * UNIT), Vec3::new(0, 0, -UNIT), 0), &t_min(), &t_max())
        .unwrap();
    assert_eq!((rec.u, rec.v), (UNIT / 4, UNIT / 2));
    // The poles: latitude zero at the bottom, one at the top.
    let rec = s
        .hit(&Ray::new(Vec3::new(0, -5 * UNIT, 0), Vec3::new(0, UNIT, 0), 0), &t_min(), &t_max())
        .unwrap();
    assert_eq!(rec.v, 0);
    let rec = s
        .hit(&Ray::new(Vec3::new(0, 5 * UNIT, 0), Vec3::new(0, -UNIT, 0), 0), &t_min(), &t_max())
        .unwrap();
    assert_eq!(rec.v, UNIT);
}

#[test]
fn bvh_agrees_with_linear_scan_over_spheres() {
    // A scene of spheres alone, where the tree-scan agreement carries
    // no side condition at all.
    let mut prims: Vec<Primitive> = Vec::new();
    let mut seed: i64 = 0x9e3779;
    let mut next = || {
        seed = seed.wrapping_mul(6364136223846793005).wrapping_add(1442695040888963407);
        (seed >> 40) as i64 % (6 * UNIT)
    };
    for m in 0..12usize {
        let c = Vec3::new(next(), next(), next().abs());
        let r = UNIT / 2 + next().abs() % UNIT;
        prims.push(Primitive::Sphere(Sphere::new(c, r, m)));
    }
    let mut world = HittableList::new();
    for p in &prims {
        if let Primitive::Sphere(s) = p {
            world.add(Primitive::Sphere(*s));
        }
    }
    let root = BvhNode::new(&prims, 0, UNIT);
    for _ in 0..300 {
        let origin = Vec3::new(next(), next(), -8 * UNIT + next() / 8);
        let mut dir = Vec3::new(next() / 4, next() / 4, UNIT + next() / 4);
        if dir.z == 0 {
            dir.z = UNIT;
        }
        let r = Ray::new(origin, dir, 0);
        let from_list = world.hit(&r, &t_min(), &t_max());
        let from_tree = root.hit(&prims, &r, &t_min(), &t_max());
        match (&from_list, &from_tree) {
            (None, None) => {},
            (Some(a), Some(b)) => {
                assert_eq!(a.t.num * b.t.den, b.t.num * a.t.den);
            },
            _ => panic!("tree and scan disagree on a sphere scene"),
        }
    }
}

#[test]
fn rotated_member_composes_into_a_scene() {
    // A rotated box as an ordinary scene member: the scan sees it and
    // reports its parameter and material like any other shape.
    let cube = Primitive::Cube(Cube::new(
        Vec3::new(-UNIT, -UNIT, -UNIT),
        Vec3::new(UNIT, UNIT, UNIT),
        6,
    ));
    let rotated = raytracer::rotate::RotateY::new(Box::new(cube), UNIT, 0, 0, UNIT);
    let mut world = HittableList::new();
    world.add(Primitive::Sphere(Sphere::new(Vec3::new(0, 0, 4 * UNIT), UNIT, 1)));
    world.add(Primitive::Rotate(rotated));
    let r = Ray::new(Vec3::new(0, 0, -5 * UNIT), Vec3::new(0, 0, UNIT), 0);
    let rec = world.hit(&r, &t_min(), &t_max()).expect("the rotated box is nearest");
    assert!(rat_is(&rec.t, 4));
    assert_eq!(rec.material, 6);
}

#[test]
fn medium_scatters_within_the_boundary_segment() {
    let boundary = Primitive::Sphere(Sphere::new(Vec3::new(0, 0, 0), UNIT, 0));
    let medium = ConstantMedium::new(Box::new(boundary), UNIT, 9);
    let r = Ray::new(Vec3::new(0, 0, -5 * UNIT), Vec3::new(0, 0, UNIT), 0);
    // A short free path scatters inside: the entry is at 4 and the exit
    // at 6, so the parameter stays within [4, 6].
    let rec = medium.hit(&r, &t_min(), &t_max(), UNIT / 2).expect("short path must scatter");
    assert_eq!(rec.material, 9);
    let t = rat_f64(&rec.t);
    assert!(4.0 <= t && t <= 6.0, "medium parameter {t} left the segment");
    // The sampled parameter is exact: entry four plus half a unit of
    // free path over a unit-length direction is four and a half.
    assert_eq!(rec.t.num * 2, 9 * rec.t.den);
    // A free path longer than the chord never scatters.
    assert!(medium.hit(&r, &t_min(), &t_max(), 3 * UNIT).is_none());
    // A ray that misses the boundary never scatters.
    let miss = Ray::new(Vec3::new(4 * UNIT, 0, -5 * UNIT), Vec3::new(0, 0, UNIT), 0);
    assert!(medium.hit(&miss, &t_min(), &t_max(), UNIT / 4).is_none());
}
