//! The recursive integrator: emitted light plus attenuated scattered
//! light, down to a fixed depth.

use vstd::prelude::*;

use crate::hittable_list::{list_wf, HittableList};
use crate::material::{materials_wf, MaterialKind, Materials};
use crate::ray::{ray_wf, Ray};
use crate::scalar::{Rat, RAT_BOUND};
use crate::texture::{color_wf, texture_value, textures_wf, Textures, COLOR_MAX};
use crate::vec3::{Vec3, UNIT};

verus! {

/// The shadow-acne guard: rays start a ten-thousandth past their origin.
pub open spec fn t_epsilon() -> crate::scalar::Frac {
    crate::scalar::Frac { num: 1, den: 10000 }
}

/// The parametric horizon standing in for an unbounded search.
pub open spec fn t_horizon() -> crate::scalar::Frac {
    crate::scalar::Frac { num: RAT_BOUND as int, den: 1 }
}

/// One saturating Q16.16 product channel.
pub open spec fn mul_channel(a: int, b: int) -> int {
    let v = a * b / (UNIT as int);
    if v > COLOR_MAX {
        COLOR_MAX as int
    } else {
        v
    }
}

/// One saturating sum channel.
pub open spec fn add_channel(a: int, b: int) -> int {
    if a + b > COLOR_MAX {
        COLOR_MAX as int
    } else {
        a + b
    }
}

/// The shading sum: emission plus the attenuated inner radiance, each
/// channel saturating.
pub open spec fn shade_combine(e: Vec3, a: Vec3, ic: Vec3) -> Vec3 {
    Vec3 {
        x: add_channel(e.x as int, mul_channel(a.x as int, ic.x as int)) as i64,
        y: add_channel(e.y as int, mul_channel(a.y as int, ic.y as int)) as i64,
        z: add_channel(e.z as int, mul_channel(a.z as int, ic.z as int)) as i64,
    }
}

/// Componentwise Q16.16 color product, saturating at `COLOR_MAX`.
pub fn mul_color(a: &Vec3, b: &Vec3) -> (r: Vec3)
    requires
        color_wf(*a),
        color_wf(*b),
    ensures
        r.x == mul_channel(a.x as int, b.x as int),
        r.y == mul_channel(a.y as int, b.y as int),
        r.z == mul_channel(a.z as int, b.z as int),
        color_wf(r),
{
    proof {
        lemma_mul_channel(a.x as int, b.x as int);
        lemma_mul_channel(a.y as int, b.y as int);
        lemma_mul_channel(a.z as int, b.z as int);
    }
    Vec3 {
        x: mul_channel_exec(a.x, b.x),
        y: mul_channel_exec(a.y, b.y),
        z: mul_channel_exec(a.z, b.z),
    }
}

fn mul_channel_exec(a: i64, b: i64) -> (r: i64)
    requires
        0 <= a <= COLOR_MAX,
        0 <= b <= COLOR_MAX,
    ensures
        r == mul_channel(a as int, b as int),
        0 <= r <= COLOR_MAX,
{
    proof {
        lemma_mul_channel(a as int, b as int);
    }
    let v = (a as u128) * (b as u128) / (UNIT as u128);
    if v > COLOR_MAX as u128 {
        COLOR_MAX
    } else {
        v as i64
    }
}

/// The product channel is nonnegative and the product fits.
proof fn lemma_mul_channel(a: int, b: int)
    requires
        0 <= a <= COLOR_MAX,
        0 <= b <= COLOR_MAX,
    ensures
        0 <= a * b <= 0x10000_0000_0000_0000_0000,  // 2^80
        0 <= mul_channel(a, b) <= COLOR_MAX,
{
    assert(0 <= a * b <= 0x10000_0000_0000_0000_0000) by (nonlinear_arith)
        requires
            0 <= a <= COLOR_MAX,
            0 <= b <= COLOR_MAX,
            COLOR_MAX == 0x100_0000_0000,
    ;
    assert(0 <= a * b / (UNIT as int)) by (nonlinear_arith)
        requires
            0 <= a * b,
            UNIT == 0x1_0000,
    ;
}

/// Componentwise saturating color sum.
pub fn add_color(a: &Vec3, b: &Vec3) -> (r: Vec3)
    requires
        color_wf(*a),
        color_wf(*b),
    ensures
        r.x == add_channel(a.x as int, b.x as int),
        r.y == add_channel(a.y as int, b.y as int),
        r.z == add_channel(a.z as int, b.z as int),
        color_wf(r),
{
    Vec3 {
        x: if a.x + b.x > COLOR_MAX {
            COLOR_MAX
        } else {
            a.x + b.x
        },
        y: if a.y + b.y > COLOR_MAX {
            COLOR_MAX
        } else {
            a.y + b.y
        },
        z: if a.z + b.z > COLOR_MAX {
            COLOR_MAX
        } else {
            a.z + b.z
        },
    }
}

/// The radiance carried back along one ray: black once the bounce budget
/// is spent; the background when nothing is hit; otherwise the surface's
/// emission plus its attenuated scattered radiance.
pub fn ray_color(
    ray: &Ray,
    background: &Vec3,
    world: &HittableList,
    materials: &Materials,
    textures: &Textures,
    depth: u32,
) -> (c: Vec3)
    requires
        list_wf(*world),
        materials_wf(*materials),
        textures_wf(*textures),
        ray_wf(*ray),
        color_wf(*background),
    ensures
        depth == 0 ==> c == (Vec3 { x: 0i64, y: 0i64, z: 0i64 }),
        depth > 0 && crate::hittable_list::list_best(
            world.objects@,
            *ray,
            t_epsilon(),
            t_horizon(),
            world.objects@.len() as int,
        ) is None ==> c == *background,
        depth > 0 ==> ({
            let lres = crate::hittable_list::list_hit_rec(
                world.objects@,
                *ray,
                t_epsilon(),
                t_horizon(),
                world.objects@.len() as int,
            );
            let dark = Vec3 { x: 0i64, y: 0i64, z: 0i64 };
            lres matches Some(rec) ==> {
                let n_mats = materials.kinds.len();
                &&& (rec.material >= n_mats ==> c == dark)
                &&& (rec.material < n_mats ==> (materials.kinds[rec.material as int] matches
                    MaterialKind::DiffuseLight(dl) ==> c == texture_value(
                    *textures,
                    dl.emit as int,
                    rec.u as int,
                    rec.v as int,
                )))
                &&& (rec.material < n_mats ==> (materials.kinds[rec.material as int] matches
                    MaterialKind::Lambertian(l) ==> (!crate::material::grid_point_ok(rec.p) ==> c
                    == dark) && (crate::material::grid_point_ok(rec.p) ==> exists|ic: Vec3|
                    #[trigger] color_wf(ic) && c == shade_combine(
                        dark,
                        texture_value(*textures, l.albedo as int, rec.u as int, rec.v as int),
                        ic,
                    ))))
                &&& (rec.material < n_mats ==> (materials.kinds[rec.material as int] matches
                    MaterialKind::Isotropic(iso) ==> (!crate::material::grid_point_ok(rec.p) ==> c
                    == dark) && (crate::material::grid_point_ok(rec.p) ==> exists|ic: Vec3|
                    #[trigger] color_wf(ic) && c == shade_combine(
                        dark,
                        texture_value(*textures, iso.albedo as int, rec.u as int, rec.v as int),
                        ic,
                    ))))
                &&& (rec.material < n_mats ==> (materials.kinds[rec.material as int] matches
                    MaterialKind::Dielectric(d) ==> (!crate::material::grid_point_ok(rec.p) ==> c
                    == dark) && (crate::material::grid_point_ok(rec.p) ==> exists|ic: Vec3|
                    #[trigger] color_wf(ic) && c == shade_combine(
                        dark,
                        Vec3 { x: crate::vec3::UNIT, y: crate::vec3::UNIT, z: crate::vec3::UNIT },
                        ic,
                    ))))
                &&& (rec.material < n_mats ==> (materials.kinds[rec.material as int] matches
                    MaterialKind::Metal(m) ==> c == dark || exists|ic: Vec3|
                    #[trigger] color_wf(ic) && c == shade_combine(dark, m.albedo, ic)))
            }
        }),
        color_wf(c),
    decreases depth,
{
    if depth == 0 {
        return Vec3 { x: 0, y: 0, z: 0 };
    }
    let t_min = Rat::new(1, 10000);
    let t_max = Rat::new(RAT_BOUND, 1);
    match world.hit(ray, &t_min, &t_max) {
        None => *background,
        Some(record) => {
            let emitted = materials.emitted(record.material, textures, record.u, record.v);
            let mut attenuation = Vec3 { x: 0, y: 0, z: 0 };
            let mut scattered = Ray {
                origin: Vec3 { x: 0, y: 0, z: 0 },
                direction: Vec3 { x: 0, y: 0, z: 0 },
                time: 0,
            };
            if materials.scatter(
                record.material,
                textures,
                ray,
                &record,
                &mut attenuation,
                &mut scattered,
            ) {
                let inner = ray_color(
                    &scattered,
                    background,
                    world,
                    materials,
                    textures,
                    depth - 1,
                );
                let shaded = add_color(&emitted, &mul_color(&attenuation, &inner));
                proof {
                    assert(shaded == shade_combine(emitted, attenuation, inner));
                    assert(color_wf(inner));
                }
                shaded
            } else {
                emitted
            }
        },
    }
}

} // verus!
