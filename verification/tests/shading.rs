//! Textures, materials, the integrator and the permutation tables.

use raytracer::hittable::HitRecord;
use raytracer::hittable_list::HittableList;
use raytracer::material::{
    Dielectric, DiffuseLight, Lambertian, MaterialKind, Materials, Metal,
};
use raytracer::perlin::Perlin;
use raytracer::primitive::Primitive;
use raytracer::ray::{RatPoint, Ray};
use raytracer::render::{add_color, mul_color, ray_color};
use raytracer::scalar::Rat;
use raytracer::sphere::Sphere;
use raytracer::texture::{
    CheckerTexture, ImageTexture, SolidColor, TextureKind, Textures,
};
use raytracer::vec3::{Vec3, UNIT};

fn record_at_origin(material: usize) -> HitRecord {
    HitRecord {
        t: Rat::new(1, 1),
        p: RatPoint { xn: 0, yn: 0, zn: 0, den: 1 },
        normal: Vec3::new(0, 0, -UNIT),
        front_face: true,
        u: 0,
        v: 0,
        material,
    }
}

fn simple_textures() -> Textures {
    let mut ts = Textures::new();
    ts.add(TextureKind::Solid(SolidColor { color_value: Vec3::new(UNIT / 2, UNIT / 4, UNIT) }));
    ts.add(TextureKind::Solid(SolidColor { color_value: Vec3::new(7 * UNIT, 7 * UNIT, 7 * UNIT) }));
    ts
}

#[test]
fn solid_and_checker_textures_answer_their_colors() {
    let solid = SolidColor { color_value: Vec3::new(UNIT, 0, UNIT / 2) };
    let c = solid.value(12345, -678);
    assert_eq!((c.x, c.y, c.z), (UNIT, 0, UNIT / 2));
    let checker = CheckerTexture {
        odd: SolidColor { color_value: Vec3::new(0, 0, 0) },
        even: SolidColor { color_value: Vec3::new(UNIT, UNIT, UNIT) },
    };
    assert_eq!(checker.value_from_sign(true).x, 0);
    assert_eq!(checker.value_from_sign(false).x, UNIT);
}

#[test]
fn image_texture_indexes_pixels_exactly() {
    assert_eq!(ImageTexture::bytes_per_pixel(), 3);
    // A handmade two-by-two image: rows bottom-up after the flip.
    let img = ImageTexture {
        data: vec![255, 0, 0, 0, 255, 0, 0, 0, 255, 255, 255, 0],
        width: 2,
        height: 2,
        bytes_per_scanline: 6,
    };
    // (u, v) = (0, 1) flips to row 0, column 0: pure red.
    let c = img.value(0, UNIT);
    assert_eq!((c.x, c.y, c.z), (UNIT, 0, 0));
    // (u, v) = (1, 1): row 0, column 1: pure green.
    let c = img.value(UNIT, UNIT);
    assert_eq!((c.x, c.y, c.z), (0, UNIT, 0));
    // (u, v) = (0, 0): row 1, column 0: pure blue.
    let c = img.value(0, 0);
    assert_eq!((c.x, c.y, c.z), (0, 0, UNIT));
    // Coordinates far out of range clamp: u to the right edge, v to
    // the bottom row after the flip.
    let c = img.value(10 * UNIT, -3 * UNIT);
    assert_eq!((c.x, c.y, c.z), (UNIT, UNIT, 0));
}

#[test]
fn image_decode_round_trip() {
    // Encode a two-by-one image in memory and decode it through the
    // texture constructor: the pixels must come back, not the input.
    let mut buf: Vec<u8> = Vec::new();
    let img = image::RgbImage::from_raw(2, 1, vec![10, 20, 30, 40, 50, 60]).unwrap();
    let dynimg = image::DynamicImage::ImageRgb8(img);
    dynimg
        .write_to(&mut buf, image::ImageOutputFormat::Png)
        .expect("in-memory encode");
    let tex = ImageTexture::new(&buf).expect("decode must succeed");
    assert_eq!(tex.width, 2);
    assert_eq!(tex.height, 1);
    assert_eq!(tex.data, vec![10, 20, 30, 40, 50, 60]);
    assert!(ImageTexture::new(&[1, 2, 3]).is_none());
}

#[test]
fn lambertian_scatter_keeps_albedo_and_time() {
    let ts = simple_textures();
    let mut ms = Materials::new();
    ms.add(MaterialKind::Lambertian(Lambertian { albedo: 0 }));
    let rec = record_at_origin(0);
    let ray_in = Ray::new(Vec3::new(0, 0, -5 * UNIT), Vec3::new(0, 0, UNIT), 77);
    let mut attenuation = Vec3::new(0, 0, 0);
    let mut scattered = Ray::new(Vec3::new(0, 0, 0), Vec3::new(0, 0, 0), 0);
    assert!(ms.scatter(0, &ts, &ray_in, &rec, &mut attenuation, &mut scattered));
    assert_eq!((attenuation.x, attenuation.y, attenuation.z), (UNIT / 2, UNIT / 4, UNIT));
    assert_eq!(scattered.time, 77);
    assert_eq!((scattered.origin.x, scattered.origin.y, scattered.origin.z), (0, 0, 0));
}

#[test]
fn metal_reflects_head_on_rays_back() {
    let ts = simple_textures();
    let mut ms = Materials::new();
    ms.add(MaterialKind::Metal(Metal { albedo: Vec3::new(UNIT, UNIT, UNIT), fuzz: 0 }));
    let rec = record_at_origin(0);
    let ray_in = Ray::new(Vec3::new(0, 0, -5 * UNIT), Vec3::new(0, 0, UNIT), 0);
    let mut attenuation = Vec3::new(0, 0, 0);
    let mut scattered = Ray::new(Vec3::new(0, 0, 0), Vec3::new(0, 0, 0), 0);
    assert!(ms.scatter(0, &ts, &ray_in, &rec, &mut attenuation, &mut scattered));
    // Head-on incidence reflects straight back out along -z.
    assert_eq!(scattered.direction.x, 0);
    assert_eq!(scattered.direction.y, 0);
    assert!((scattered.direction.z + UNIT).abs() <= 2);
}

#[test]
fn dielectric_attenuation_is_exactly_one() {
    let ts = simple_textures();
    let mut ms = Materials::new();
    ms.add(MaterialKind::Dielectric(Dielectric { ref_idx: 3 * UNIT / 2 }));
    let ray_in = Ray::new(Vec3::new(0, 0, -5 * UNIT), Vec3::new(0, 0, UNIT), 0);
    // Many angles, entering and leaving: the attenuation never moves off
    // exactly one per channel.
    for k in 0..32 {
        let mut rec = record_at_origin(0);
        rec.normal = Vec3::new((k - 16) * UNIT / 16, 0, -UNIT);
        rec.front_face = k % 2 == 0;
        let mut attenuation = Vec3::new(0, 0, 0);
        let mut scattered = Ray::new(Vec3::new(0, 0, 0), Vec3::new(0, 0, 0), 0);
        let b = ms.scatter(0, &ts, &ray_in, &rec, &mut attenuation, &mut scattered);
        assert!(b, "a dielectric always scatters from a grid point");
        assert_eq!((attenuation.x, attenuation.y, attenuation.z), (UNIT, UNIT, UNIT));
    }
}

#[test]
fn dielectric_total_internal_reflection_is_exact() {
    // A ray sliding along the surface from the dense side: the scaled
    // sine exceeds one, so the draw is never consulted and the
    // direction is exactly the reflection — here the direction itself,
    // since it is perpendicular to the normal.
    let ts = simple_textures();
    let mut ms = Materials::new();
    ms.add(MaterialKind::Dielectric(Dielectric { ref_idx: 3 * UNIT / 2 }));
    let mut rec = record_at_origin(0);
    rec.front_face = false;
    let ray_in = Ray::new(Vec3::new(-5 * UNIT, 0, 0), Vec3::new(UNIT, 0, 0), 0);
    for _ in 0..16 {
        let mut attenuation = Vec3::new(0, 0, 0);
        let mut scattered = Ray::new(Vec3::new(0, 0, 0), Vec3::new(0, 0, 0), 0);
        assert!(ms.scatter(0, &ts, &ray_in, &rec, &mut attenuation, &mut scattered));
        assert_eq!(
            (scattered.direction.x, scattered.direction.y, scattered.direction.z),
            (UNIT, 0, 0)
        );
    }
}

#[test]
fn dielectric_grazing_reflectance_is_total() {
    // Grazing incidence from outside: the Schlick reflectance reaches
    // exactly one, so the draw is never decisive and the direction is
    // the exact reflection — the incoming direction itself, since it is
    // perpendicular to the normal.
    let ts = simple_textures();
    let mut ms = Materials::new();
    ms.add(MaterialKind::Dielectric(Dielectric { ref_idx: 3 * UNIT / 2 }));
    let rec = record_at_origin(0);
    let ray_in = Ray::new(Vec3::new(-5 * UNIT, 0, 0), Vec3::new(UNIT, 0, 0), 0);
    for _ in 0..16 {
        let mut attenuation = Vec3::new(0, 0, 0);
        let mut scattered = Ray::new(Vec3::new(0, 0, 0), Vec3::new(0, 0, 0), 0);
        assert!(ms.scatter(0, &ts, &ray_in, &rec, &mut attenuation, &mut scattered));
        assert_eq!(
            (scattered.direction.x, scattered.direction.y, scattered.direction.z),
            (UNIT, 0, 0)
        );
    }
}

#[test]
fn metal_constructor_clamps_the_fuzz() {
    let m = Metal::new(Vec3::new(UNIT, UNIT, UNIT), 3 * UNIT);
    assert_eq!(m.fuzz, UNIT);
    let m = Metal::new(Vec3::new(UNIT, UNIT, UNIT), -5);
    assert_eq!(m.fuzz, 0);
    let m = Metal::new(Vec3::new(UNIT, UNIT, UNIT), UNIT / 3);
    assert_eq!(m.fuzz, UNIT / 3);
}

#[test]
fn diffuse_light_absorbs_and_emits() {
    let ts = simple_textures();
    let mut ms = Materials::new();
    ms.add(MaterialKind::DiffuseLight(DiffuseLight { emit: 1 }));
    let rec = record_at_origin(0);
    let ray_in = Ray::new(Vec3::new(0, 0, -5 * UNIT), Vec3::new(0, 0, UNIT), 0);
    let mut attenuation = Vec3::new(1, 2, 3);
    let mut scattered = Ray::new(Vec3::new(0, 0, 0), Vec3::new(0, 0, 0), 0);
    assert!(!ms.scatter(0, &ts, &ray_in, &rec, &mut attenuation, &mut scattered));
    assert_eq!((attenuation.x, attenuation.y, attenuation.z), (1, 2, 3));
    let e = ms.emitted(0, &ts, 0, 0);
    assert_eq!((e.x, e.y, e.z), (7 * UNIT, 7 * UNIT, 7 * UNIT));
    let dark = ms.emitted(5, &ts, 0, 0);
    assert_eq!((dark.x, dark.y, dark.z), (0, 0, 0));
}

#[test]
fn color_arithmetic_saturates() {
    let a = Vec3::new(UNIT, 2 * UNIT, 0);
    let b = Vec3::new(UNIT / 2, UNIT / 2, UNIT);
    let m = mul_color(&a, &b);
    assert_eq!((m.x, m.y, m.z), (UNIT / 2, UNIT, 0));
    let s = add_color(&a, &b);
    assert_eq!((s.x, s.y, s.z), (3 * UNIT / 2, 5 * UNIT / 2, UNIT));
}

#[test]
fn ray_color_depth_zero_is_black() {
    let ts = simple_textures();
    let mut ms = Materials::new();
    ms.add(MaterialKind::Lambertian(Lambertian { albedo: 0 }));
    let mut world = HittableList::new();
    world.add(Primitive::Sphere(Sphere::new(Vec3::new(0, 0, 0), UNIT, 0)));
    let background = Vec3::new(UNIT / 4, UNIT / 4, UNIT / 2);
    let r = Ray::new(Vec3::new(0, 0, -5 * UNIT), Vec3::new(0, 0, UNIT), 0);
    let c = ray_color(&r, &background, &world, &ms, &ts, 0);
    assert_eq!((c.x, c.y, c.z), (0, 0, 0));
}

#[test]
fn ray_color_miss_returns_background() {
    let ts = simple_textures();
    let ms = Materials::new();
    let world = HittableList::new();
    let background = Vec3::new(UNIT / 4, UNIT / 4, UNIT / 2);
    let r = Ray::new(Vec3::new(0, 0, -5 * UNIT), Vec3::new(0, 0, UNIT), 0);
    let c = ray_color(&r, &background, &world, &ms, &ts, 8);
    assert_eq!((c.x, c.y, c.z), (UNIT / 4, UNIT / 4, UNIT / 2));
}

#[test]
fn ray_color_sees_an_emitter() {
    let ts = simple_textures();
    let mut ms = Materials::new();
    ms.add(MaterialKind::DiffuseLight(DiffuseLight { emit: 1 }));
    let mut world = HittableList::new();
    world.add(Primitive::Sphere(Sphere::new(Vec3::new(0, 0, 0), UNIT, 0)));
    let background = Vec3::new(0, 0, 0);
    let r = Ray::new(Vec3::new(0, 0, -5 * UNIT), Vec3::new(0, 0, UNIT), 0);
    let c = ray_color(&r, &background, &world, &ms, &ts, 8);
    assert_eq!((c.x, c.y, c.z), (7 * UNIT, 7 * UNIT, 7 * UNIT));
}

#[test]
fn perlin_tables_are_permutations() {
    let p = Perlin::new();
    for table in [&p.perm_x, &p.perm_y, &p.perm_z] {
        assert_eq!(table.len(), 256);
        let mut sorted = table.clone();
        sorted.sort();
        for (i, v) in sorted.iter().enumerate() {
            assert_eq!(*v, i);
        }
    }
}
