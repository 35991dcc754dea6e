//! Materials: how a surface scatters, attenuates and emits.
//!
//! Directions are Q16.16 vectors.  Scatter decisions that depend on a
//! random draw state what holds of every outcome: the attenuation, the
//! preserved ray time, and the well-formedness of the scattered ray.
//! The dielectric always attenuates by exactly one in every channel.

use vstd::prelude::*;

use crate::hittable::HitRecord;
use crate::ray::{RatPoint, Ray};
use crate::sampler::{random_in_unit_sphere, random_unit_q16};
use crate::scalar::{isqrt, round_div, POW2_112, POW2_124, RAT_BOUND};
use crate::texture::{color_wf, texture_value, Textures};
use crate::vec3::{dot_s, in_range, sq_len, Vec3, BOX_MAX, COORD_MAX, UNIT};

verus! {

/// Direction components stay within a few units.
pub const DIR_MAX: i64 = 0x10_0000;  // 16 * UNIT

#[derive(Clone, Copy, Debug)]
pub struct Lambertian {
    pub albedo: usize,
}

#[derive(Clone, Copy, Debug)]
pub struct Metal {
    pub albedo: Vec3,
    pub fuzz: i64,
}

#[derive(Clone, Copy, Debug)]
pub struct Dielectric {
    pub ref_idx: i64,
}

#[derive(Clone, Copy, Debug)]
pub struct DiffuseLight {
    pub emit: usize,
}

#[derive(Clone, Copy, Debug)]
pub struct Isotropic {
    pub albedo: usize,
}

impl Metal {
    /// A metal surface; the fuzz radius is clamped into `[0, 1]` at
    /// construction, as the scatter model requires.
    pub fn new(albedo: Vec3, fuzz: i64) -> (m: Metal)
        ensures
            m.albedo == albedo,
            m.fuzz == if fuzz < 0 {
                0i64
            } else if fuzz > UNIT {
                UNIT as i64
            } else {
                fuzz
            },
            color_wf(albedo) ==> material_kind_wf(MaterialKind::Metal(m)),
    {
        Metal {
            albedo,
            fuzz: if fuzz < 0 {
                0
            } else if fuzz > UNIT {
                UNIT
            } else {
                fuzz
            },
        }
    }
}

pub enum MaterialKind {
    Lambertian(Lambertian),
    Metal(Metal),
    Dielectric(Dielectric),
    DiffuseLight(DiffuseLight),
    Isotropic(Isotropic),
}

pub open spec fn material_kind_wf(m: MaterialKind) -> bool {
    match m {
        MaterialKind::Metal(mt) => color_wf(mt.albedo) && 0 <= mt.fuzz <= UNIT,
        MaterialKind::Dielectric(d) => 0 < d.ref_idx <= 16 * UNIT,
        _ => true,
    }
}

/// The flat material registry, indexed by hit records.
pub struct Materials {
    pub kinds: Vec<MaterialKind>,
}

pub open spec fn materials_wf(ms: Materials) -> bool {
    forall|i: int| 0 <= i < ms.kinds.len() ==> material_kind_wf(#[trigger] ms.kinds[i])
}

/// Whether the exact hit point rounds onto the coordinate grid; scatter
/// rays start only from such points.
pub open spec fn grid_point_ok(p: RatPoint) -> bool {
    &&& -COORD_MAX <= round_div(p.xn as int, p.den as int) <= COORD_MAX
    &&& -COORD_MAX <= round_div(p.yn as int, p.den as int) <= COORD_MAX
    &&& -COORD_MAX <= round_div(p.zn as int, p.den as int) <= COORD_MAX
}

impl RatPoint {
    /// The nearest grid point, when it lies on the grid.
    pub fn round_to_grid(&self) -> (res: Option<Vec3>)
        requires
            self.wf(),
        ensures
            res matches Some(v) ==> grid_point_ok(*self) && in_range(v, COORD_MAX as int)
                && v.x == round_div(self.xn as int, self.den as int) && v.y == round_div(
                self.yn as int,
                self.den as int,
            ) && v.z == round_div(self.zn as int, self.den as int),
            res is None ==> !grid_point_ok(*self),
    {
        let x = crate::scalar::div_round(self.xn, self.den);
        let y = crate::scalar::div_round(self.yn, self.den);
        let z = crate::scalar::div_round(self.zn, self.den);
        if x < -(COORD_MAX as i128) || x > COORD_MAX as i128 || y < -(COORD_MAX as i128) || y
            > COORD_MAX as i128 || z < -(COORD_MAX as i128) || z > COORD_MAX as i128 {
            None
        } else {
            Some(Vec3 { x: x as i64, y: y as i64, z: z as i64 })
        }
    }
}

/// Clamp a scalar into `[-b, b]`.
pub open spec fn clamp_comp_s(x: int, b: int) -> int {
    if x < -b {
        -b
    } else if x > b {
        b
    } else {
        x
    }
}

/// A direction with each component clamped into `[-DIR_MAX, DIR_MAX]`.
pub open spec fn clamp_dir_s(v: Vec3) -> Vec3 {
    Vec3 {
        x: clamp_comp_s(v.x as int, DIR_MAX as int) as i64,
        y: clamp_comp_s(v.y as int, DIR_MAX as int) as i64,
        z: clamp_comp_s(v.z as int, DIR_MAX as int) as i64,
    }
}

/// Clamp a scalar into `[-b, b]`.
fn clamp_i64(x: i64, b: i64) -> (r: i64)
    requires
        b >= 0,
    ensures
        r == clamp_comp_s(x as int, b as int),
        -b <= r <= b,
        -b <= x <= b ==> r == x,
{
    if x < -b {
        -b
    } else if x > b {
        b
    } else {
        x
    }
}

/// Clamp each component of a direction into `[-DIR_MAX, DIR_MAX]`.
fn clamp_dir(v: Vec3) -> (r: Vec3)
    ensures
        r == clamp_dir_s(v),
        in_range(r, DIR_MAX as int),
        in_range(v, DIR_MAX as int) ==> r == v,
{
    Vec3 { x: clamp_i64(v.x, DIR_MAX), y: clamp_i64(v.y, DIR_MAX), z: clamp_i64(v.z, DIR_MAX) }
}

/// The Q16.16 unit vector of the incoming direction, or the clamped
/// oriented normal when the direction is degenerate.
pub open spec fn unit_or_normal_s(ray_in: Ray, rec: HitRecord) -> Vec3 {
    let d = ray_in.direction;
    if crate::vec3::sq_len(d) > 0 {
        let len = crate::scalar::sqrt_floor(crate::vec3::sq_len(d) as nat) as int;
        Vec3 {
            x: round_div(d.x * UNIT, len) as i64,
            y: round_div(d.y * UNIT, len) as i64,
            z: round_div(d.z * UNIT, len) as i64,
        }
    } else {
        Vec3 {
            x: clamp_comp_s(rec.normal.x as int, 2 * UNIT as int) as i64,
            y: clamp_comp_s(rec.normal.y as int, 2 * UNIT as int) as i64,
            z: clamp_comp_s(rec.normal.z as int, 2 * UNIT as int) as i64,
        }
    }
}

/// The dielectric's refraction ratio: one over the index when entering,
/// the index when leaving, kept within the supported range.
pub open spec fn dielectric_eta_s(ref_idx: int, front_face: bool) -> int {
    let e0 = if front_face {
        ((UNIT * UNIT) as int) / ref_idx
    } else {
        ref_idx
    };
    let e1 = clamp_comp_s(e0, 16 * UNIT as int);
    if e1 < 1 {
        1
    } else {
        e1
    }
}

/// The Q32.32 sine from the clamped cosine, as a floor square root.
pub open spec fn dielectric_sin32_s(cos32: int) -> int {
    crate::scalar::sqrt_floor(
        (((UNIT * UNIT) as int) * ((UNIT * UNIT) as int) - cos32 * cos32) as nat,
    ) as int
}

/// Total internal reflection: the scaled sine exceeds one.
pub open spec fn dielectric_tir_s(eta: int, cos32: int) -> bool {
    eta * dielectric_sin32_s(cos32) > (UNIT as int) * ((UNIT * UNIT) as int)
}

/// The diffuse scatter direction: the oriented normal plus some drawn
/// point of the open unit ball, clamped.
pub open spec fn lambertian_dir_ok(rec: HitRecord, dir: Vec3) -> bool {
    exists|s: Vec3|
        in_range(s, UNIT as int) && #[trigger] crate::vec3::sq_len(s) < (UNIT * UNIT) as int && dir
            == clamp_dir_s(
            Vec3 {
                x: (rec.normal.x + s.x) as i64,
                y: (rec.normal.y + s.y) as i64,
                z: (rec.normal.z + s.z) as i64,
            },
        )
}

/// The isotropic scatter direction: some drawn point of the open unit
/// ball, clamped.
pub open spec fn isotropic_dir_ok(dir: Vec3) -> bool {
    exists|s: Vec3|
        in_range(s, UNIT as int) && #[trigger] crate::vec3::sq_len(s) < (UNIT * UNIT) as int && dir
            == clamp_dir_s(s)
}

/// The metal scatter direction: the reflected unit direction plus the
/// fuzz-scaled drawn sample, clamped.
pub open spec fn metal_dir_ok(m: Metal, ray_in: Ray, rec: HitRecord, dir: Vec3) -> bool {
    exists|s: Vec3|
        in_range(s, UNIT as int) && #[trigger] crate::vec3::sq_len(s) < (UNIT * UNIT) as int && dir
            == clamp_dir_s(
            ({
                let refl = reflect_s(unit_or_normal_s(ray_in, rec), rec.normal);
                Vec3 {
                    x: (refl.x + round_div(m.fuzz * s.x, UNIT as int)) as i64,
                    y: (refl.y + round_div(m.fuzz * s.y, UNIT as int)) as i64,
                    z: (refl.z + round_div(m.fuzz * s.z, UNIT as int)) as i64,
                }
            }),
        )
}

/// The fuzz-free metal direction: the clamped reflection alone, fully
/// deterministic.
pub open spec fn metal_zero_dir_s(ray_in: Ray, rec: HitRecord) -> Vec3 {
    clamp_dir_s(reflect_s(unit_or_normal_s(ray_in, rec), rec.normal))
}

/// The dielectric scatter direction: the reflection or the refraction
/// of the unit direction, clamped — and always the reflection under
/// total internal reflection.
pub open spec fn dielectric_dir_ok(d: Dielectric, ray_in: Ray, rec: HitRecord, dir: Vec3) -> bool {
    let ud = unit_or_normal_s(ray_in, rec);
    let cos = refract_cos_s(ud, rec.normal);
    let eta = dielectric_eta_s(d.ref_idx as int, rec.front_face);
    &&& (dir == clamp_dir_s(reflect_s(ud, rec.normal)) || dir == clamp_dir_s(
        refract_s(ud, rec.normal, eta, cos),
    ))
    &&& (dielectric_tir_s(eta, cos) || schlick_s(cos, eta) == UNIT as int ==> dir == clamp_dir_s(
        reflect_s(ud, rec.normal),
    ))
}

/// The common success contract of every scatter: the scattered ray is a
/// well-formed ray out of the hit point at the incoming ray's time.
pub open spec fn scatter_ray_ok(scattered: Ray, ray_in: Ray, rec: HitRecord) -> bool {
    &&& crate::ray::ray_wf(scattered)
    &&& scattered.time == ray_in.time
    &&& scattered.origin.x == round_div(rec.p.xn as int, rec.p.den as int)
    &&& scattered.origin.y == round_div(rec.p.yn as int, rec.p.den as int)
    &&& scattered.origin.z == round_div(rec.p.zn as int, rec.p.den as int)
}

impl MaterialKind {
    /// Scatter the incoming ray at the hit.  On success the attenuation
    /// and the scattered ray are set; on failure both are unchanged.
    pub fn scatter(
        &self,
        textures: &Textures,
        ray_in: &Ray,
        rec: &HitRecord,
        attenuation: &mut Vec3,
        scattered: &mut Ray,
    ) -> (b: bool)
        requires
            material_kind_wf(*self),
            crate::texture::textures_wf(*textures),
            crate::ray::ray_wf(*ray_in),
            crate::hittable::record_wf(*rec),
        ensures
            b ==> scatter_ray_ok(*final(scattered), *ray_in, *rec),
            b ==> color_wf(*final(attenuation)),
            self matches MaterialKind::Lambertian(l) ==> (b == grid_point_ok(rec.p)) && (b
                ==> *final(attenuation) == texture_value(
                *textures,
                l.albedo as int,
                rec.u as int,
                rec.v as int,
            ) && lambertian_dir_ok(*rec, final(scattered).direction)),
            self matches MaterialKind::Isotropic(iso) ==> (b == grid_point_ok(rec.p)) && (b
                ==> *final(attenuation) == texture_value(
                *textures,
                iso.albedo as int,
                rec.u as int,
                rec.v as int,
            ) && isotropic_dir_ok(final(scattered).direction)),
            self matches MaterialKind::Metal(m) ==> (b ==> *final(attenuation) == m.albedo
                && dot_s(final(scattered).direction, rec.normal) > 0 && metal_dir_ok(
                *m,
                *ray_in,
                *rec,
                final(scattered).direction,
            )),
            self matches MaterialKind::Metal(m) ==> (m.fuzz == 0 ==> (b == (grid_point_ok(rec.p)
                && dot_s(metal_zero_dir_s(*ray_in, *rec), rec.normal) > 0)) && (b ==> final(scattered).direction == metal_zero_dir_s(*ray_in, *rec))),
            self matches MaterialKind::Dielectric(d) ==> (b == grid_point_ok(rec.p)) && (b
                ==> *final(attenuation) == (Vec3 { x: UNIT as i64, y: UNIT as i64, z: UNIT as i64 })
                && dielectric_dir_ok(*d, *ray_in, *rec, final(scattered).direction)),
            self matches MaterialKind::DiffuseLight(dl) ==> !b,
            !b ==> *final(attenuation) == *old(attenuation) && *final(scattered) == *old(scattered),
    {
        match self {
            MaterialKind::Lambertian(l) => {
                let origin = match rec.p.round_to_grid() {
                    Some(o) => o,
                    None => {
                        return false;
                    },
                };
                let s = random_in_unit_sphere();
                let direction = clamp_dir(
                    Vec3 {
                        x: rec.normal.x + s.x,
                        y: rec.normal.y + s.y,
                        z: rec.normal.z + s.z,
                    },
                );
                proof {
                    assert(crate::vec3::sq_len(s) < (UNIT * UNIT) as int);
                    assert(lambertian_dir_ok(*rec, direction));
                }
                *scattered = Ray { origin, direction, time: ray_in.time };
                *attenuation = textures.value(l.albedo, rec.u, rec.v);
                true
            },
            MaterialKind::Isotropic(iso) => {
                let origin = match rec.p.round_to_grid() {
                    Some(o) => o,
                    None => {
                        return false;
                    },
                };
                let s = random_in_unit_sphere();
                let direction = clamp_dir(s);
                proof {
                    assert(crate::vec3::sq_len(s) < (UNIT * UNIT) as int);
                    assert(isotropic_dir_ok(direction));
                }
                *scattered = Ray { origin, direction, time: ray_in.time };
                *attenuation = textures.value(iso.albedo, rec.u, rec.v);
                true
            },
            MaterialKind::Metal(m) => {
                let origin = match rec.p.round_to_grid() {
                    Some(o) => o,
                    None => {
                        return false;
                    },
                };
                let unit_dir = unit_or_normal(ray_in, rec);
                let reflected = reflect_q16(unit_dir, rec.normal);
                let s = random_in_unit_sphere();
                let direction = clamp_dir(
                    Vec3 {
                        x: reflected.x + fuzz_term(m.fuzz, s.x),
                        y: reflected.y + fuzz_term(m.fuzz, s.y),
                        z: reflected.z + fuzz_term(m.fuzz, s.z),
                    },
                );
                proof {
                    assert(crate::vec3::sq_len(s) < (UNIT * UNIT) as int);
                    assert(metal_dir_ok(*m, *ray_in, *rec, direction));
                    if m.fuzz == 0 {
                        assert(0 * s.x == 0 && 0 * s.y == 0 && 0 * s.z == 0) by (nonlinear_arith);
                        assert(round_div(0, UNIT as int) == 0) by (nonlinear_arith);
                        assert(direction == metal_zero_dir_s(*ray_in, *rec));
                    }
                }
                proof {
                    crate::vec3::lemma_dot_bound(direction, rec.normal, BOX_MAX as int);
                }
                let d = direction.dot(&rec.normal);
                if d > 0 {
                    *scattered = Ray { origin, direction, time: ray_in.time };
                    *attenuation = m.albedo;
                    true
                } else {
                    false
                }
            },
            MaterialKind::Dielectric(d) => {
                let origin = match rec.p.round_to_grid() {
                    Some(o) => o,
                    None => {
                        return false;
                    },
                };
                let unit_dir = unit_or_normal(ray_in, rec);
                let direction = clamp_dir(dielectric_direction(d.ref_idx, unit_dir, rec));
                proof {
                    assert(dielectric_dir_ok(*d, *ray_in, *rec, direction));
                }
                *scattered = Ray { origin, direction, time: ray_in.time };
                *attenuation = Vec3 { x: UNIT, y: UNIT, z: UNIT };
                true
            },
            MaterialKind::DiffuseLight(_) => false,
        }
    }

    /// What the material emits; only the diffuse light glows.
    pub fn emitted(&self, textures: &Textures, u: i64, v: i64) -> (r: Vec3)
        requires
            crate::texture::textures_wf(*textures),
        ensures
            self matches MaterialKind::DiffuseLight(dl) ==> r == texture_value(
                *textures,
                dl.emit as int,
                u as int,
                v as int,
            ),
            !(self matches MaterialKind::DiffuseLight(dl)) ==> r == (Vec3 { x: 0i64, y: 0i64, z: 0i64 }),
            color_wf(r),
    {
        match self {
            MaterialKind::DiffuseLight(dl) => textures.value(dl.emit, u, v),
            _ => Vec3 { x: 0, y: 0, z: 0 },
        }
    }
}

impl Materials {
    pub fn new() -> (ms: Materials)
        ensures
            ms.kinds@.len() == 0,
            materials_wf(ms),
    {
        Materials { kinds: Vec::new() }
    }

    pub fn add(&mut self, kind: MaterialKind)
        requires
            material_kind_wf(kind),
        ensures
            final(self).kinds@ =~= old(self).kinds@.push(kind),
    {
        self.kinds.push(kind);
    }

    /// Scatter through the indexed material; an unknown index absorbs.
    pub fn scatter(
        &self,
        idx: usize,
        textures: &Textures,
        ray_in: &Ray,
        rec: &HitRecord,
        attenuation: &mut Vec3,
        scattered: &mut Ray,
    ) -> (b: bool)
        requires
            materials_wf(*self),
            crate::texture::textures_wf(*textures),
            crate::ray::ray_wf(*ray_in),
            crate::hittable::record_wf(*rec),
        ensures
            b ==> scatter_ray_ok(*final(scattered), *ray_in, *rec),
            b ==> color_wf(*final(attenuation)),
            idx >= self.kinds.len() ==> !b,
            idx < self.kinds.len() ==> (self.kinds[idx as int] matches MaterialKind::Lambertian(
                l,
            ) ==> (b == grid_point_ok(rec.p)) && (b ==> *final(attenuation) == texture_value(
                *textures,
                l.albedo as int,
                rec.u as int,
                rec.v as int,
            ) && lambertian_dir_ok(*rec, final(scattered).direction))),
            idx < self.kinds.len() ==> (self.kinds[idx as int] matches MaterialKind::Isotropic(
                iso,
            ) ==> (b == grid_point_ok(rec.p)) && (b ==> *final(attenuation) == texture_value(
                *textures,
                iso.albedo as int,
                rec.u as int,
                rec.v as int,
            ) && isotropic_dir_ok(final(scattered).direction))),
            idx < self.kinds.len() ==> (self.kinds[idx as int] matches MaterialKind::Metal(m) ==> (
            b ==> *final(attenuation) == m.albedo && dot_s(final(scattered).direction, rec.normal)
                > 0 && metal_dir_ok(m, *ray_in, *rec, final(scattered).direction))),
            idx < self.kinds.len() ==> (self.kinds[idx as int] matches MaterialKind::Metal(m) ==> (
            m.fuzz == 0 ==> (b == (grid_point_ok(rec.p) && dot_s(
                metal_zero_dir_s(*ray_in, *rec),
                rec.normal,
            ) > 0)) && (b ==> final(scattered).direction == metal_zero_dir_s(*ray_in, *rec)))),
            idx < self.kinds.len() ==> (self.kinds[idx as int] matches MaterialKind::Dielectric(
                d,
            ) ==> (b == grid_point_ok(rec.p)) && (b ==> *final(attenuation) == (Vec3 {
                x: UNIT as i64,
                y: UNIT as i64,
                z: UNIT as i64,
            }) && dielectric_dir_ok(d, *ray_in, *rec, final(scattered).direction))),
            idx < self.kinds.len() ==> (self.kinds[idx as int] matches MaterialKind::DiffuseLight(
                dl,
            ) ==> !b),
            !b ==> *final(attenuation) == *old(attenuation) && *final(scattered) == *old(scattered),
    {
        if idx < self.kinds.len() {
            self.kinds[idx].scatter(textures, ray_in, rec, attenuation, scattered)
        } else {
            false
        }
    }

    /// Emission of the indexed material; an unknown index is dark.
    pub fn emitted(&self, idx: usize, textures: &Textures, u: i64, v: i64) -> (r: Vec3)
        requires
            materials_wf(*self),
            crate::texture::textures_wf(*textures),
        ensures
            color_wf(r),
            idx < self.kinds.len() ==> (self.kinds[idx as int] matches MaterialKind::DiffuseLight(
                dl,
            ) ==> r == texture_value(*textures, dl.emit as int, u as int, v as int)),
            idx < self.kinds.len() ==> (!(self.kinds[idx as int] is DiffuseLight) ==> r == (Vec3 {
                x: 0i64,
                y: 0i64,
                z: 0i64,
            })),
            idx >= self.kinds.len() ==> r == (Vec3 { x: 0i64, y: 0i64, z: 0i64 }),
    {
        if idx < self.kinds.len() {
            self.kinds[idx].emitted(textures, u, v)
        } else {
            Vec3 { x: 0, y: 0, z: 0 }
        }
    }
}

/// The Q16.16 unit vector of the incoming direction, or the oriented
/// normal when the direction is degenerate.
fn unit_or_normal(ray_in: &Ray, rec: &HitRecord) -> (r: Vec3)
    requires
        crate::ray::ray_wf(*ray_in),
        crate::hittable::record_wf(*rec),
    ensures
        in_range(r, 4 * UNIT as int),
        r == unit_or_normal_s(*ray_in, *rec),
{
    proof {
        crate::vec3::lemma_dot_bound(ray_in.direction, ray_in.direction, BOX_MAX as int);
    }
    let s = ray_in.direction.squared_length();
    if s > 0 {
        ray_in.direction.unit_vector()
    } else {
        Vec3 {
            x: clamp_i64(rec.normal.x, 2 * UNIT),
            y: clamp_i64(rec.normal.y, 2 * UNIT),
            z: clamp_i64(rec.normal.z, 2 * UNIT),
        }
    }
}

/// `v - 2 (v . n) n`, in Q16.16 with rounding: the mirror image of `v`
/// across the plane of `n`.
fn reflect_q16(v: Vec3, n: Vec3) -> (r: Vec3)
    requires
        in_range(v, 4 * UNIT as int),
        in_range(n, 2 * UNIT as int),
    ensures
        r == reflect_s(v, n),
        in_range(r, 0x100_0000),
{
    proof {
        crate::vec3::lemma_dot_bound(v, n, 4 * UNIT as int);
        assert(3 * ((4 * UNIT as int) * (4 * UNIT as int)) == 48 * ((UNIT * UNIT) as int) && (
        UNIT * UNIT) as int == 0x1_0000_0000) by (nonlinear_arith)
            requires
                UNIT == 0x1_0000,
        ;
    }
    let d = v.dot(&n);
    proof {
        lemma_reflect_round(d as int, n.x as int);
        lemma_reflect_round(d as int, n.y as int);
        lemma_reflect_round(d as int, n.z as int);
    }
    let u2: i128 = (UNIT as i128) * (UNIT as i128);
    Vec3 {
        x: v.x - (crate::scalar::div_round(2 * d * (n.x as i128), u2) as i64),
        y: v.y - (crate::scalar::div_round(2 * d * (n.y as i128), u2) as i64),
        z: v.z - (crate::scalar::div_round(2 * d * (n.z as i128), u2) as i64),
    }
}

/// The rounded reflection term stays within a few units.
proof fn lemma_reflect_round(d: int, nc: int)
    requires
        -48 * ((UNIT * UNIT) as int) <= d <= 48 * ((UNIT * UNIT) as int),
        -2 * UNIT <= nc <= 2 * UNIT,
    ensures
        -0x1000_0000_0000_0000_0000 < 2 * d * nc < 0x1000_0000_0000_0000_0000,
        -0xC2_0000 <= round_div(2 * d * nc, (UNIT * UNIT) as int) <= 0xC2_0000,
{
    let u2 = (UNIT * UNIT) as int;
    assert(-192 * (u2 * UNIT) <= 2 * d * nc <= 192 * (u2 * UNIT) && u2 * UNIT
        < 0x1000_0000_0000_0000) by (nonlinear_arith)
        requires
            -48 * u2 <= d <= 48 * u2,
            -2 * UNIT <= nc <= 2 * UNIT,
            UNIT == 0x1_0000,
            u2 == UNIT * UNIT,
    ;
    let q = round_div(2 * d * nc, u2);
    assert(2 * u2 * q == 2 * (2 * d * nc) + u2 - (2 * (2 * d * nc) + u2) % (2 * u2) && 0 <= (2 * (2
        * d * nc) + u2) % (2 * u2) < 2 * u2) by (nonlinear_arith)
        requires
            u2 == UNIT * UNIT,
            UNIT == 0x1_0000,
            q == (2 * (2 * d * nc) + u2) / (2 * u2),
    ;
    assert(-0xC2_0000 <= q <= 0xC2_0000) by (nonlinear_arith)
        requires
            -192 * (u2 * UNIT) <= 2 * d * nc <= 192 * (u2 * UNIT),
            2 * u2 * q <= 2 * (2 * d * nc) + u2,
            2 * (2 * d * nc) + u2 < 2 * u2 * q + 2 * u2,
            u2 == UNIT * UNIT,
            UNIT == 0x1_0000,
    ;
}

/// `fuzz * s / UNIT`, rounded.
fn fuzz_term(fuzz: i64, s: i64) -> (r: i64)
    requires
        0 <= fuzz <= UNIT,
        -UNIT <= s <= UNIT,
    ensures
        -UNIT <= r <= UNIT,
        r == round_div(fuzz * s, UNIT as int),
{
    proof {
        lemma_fuzz_round(fuzz as int, s as int);
    }
    crate::scalar::div_round((fuzz as i128) * (s as i128), UNIT as i128) as i64
}

proof fn lemma_fuzz_round(fuzz: int, s: int)
    requires
        0 <= fuzz <= UNIT,
        -UNIT <= s <= UNIT,
    ensures
        -(UNIT * UNIT) <= fuzz * s <= UNIT * UNIT,
        -UNIT <= round_div(fuzz * s, UNIT as int) <= UNIT,
{
    assert(-(UNIT * UNIT) <= fuzz * s <= UNIT * UNIT) by (nonlinear_arith)
        requires
            0 <= fuzz <= UNIT,
            -UNIT <= s <= UNIT,
    ;
    let q = round_div(fuzz * s, UNIT as int);
    assert(2 * UNIT * q == 2 * (fuzz * s) + UNIT - (2 * (fuzz * s) + UNIT) % (2 * UNIT) && 0 <= (2
        * (fuzz * s) + UNIT) % (2 * UNIT) < 2 * UNIT) by (nonlinear_arith)
        requires
            UNIT == 0x1_0000,
            q == (2 * (fuzz * s) + UNIT) / (2 * UNIT),
    ;
    assert(-UNIT <= q <= UNIT) by (nonlinear_arith)
        requires
            -(UNIT * UNIT) <= fuzz * s <= UNIT * UNIT,
            2 * UNIT * q <= 2 * (fuzz * s) + UNIT,
            2 * (fuzz * s) + UNIT < 2 * UNIT * q + 2 * UNIT,
            UNIT == 0x1_0000,
    ;
}

/// The mirror image of `v` across the plane of `n`: each component is
/// `v - 2 (v . n) n / UNIT^2`, rounded.
pub open spec fn reflect_s(v: Vec3, n: Vec3) -> Vec3 {
    let d = dot_s(v, n);
    Vec3 {
        x: (v.x - round_div(2 * d * n.x, (UNIT * UNIT) as int)) as i64,
        y: (v.y - round_div(2 * d * n.y, (UNIT * UNIT) as int)) as i64,
        z: (v.z - round_div(2 * d * n.z, (UNIT * UNIT) as int)) as i64,
    }
}

impl Vec3 {
    /// The mirror image of `self` across the plane of `normal`, in
    /// Q16.16 with rounding.
    pub fn reflect(&self, normal: Vec3) -> (r: Vec3)
        requires
            in_range(*self, 4 * UNIT as int),
            in_range(normal, 2 * UNIT as int),
        ensures
            r == reflect_s(*self, normal),
            in_range(r, 0x100_0000),
    {
        reflect_q16(*self, normal)
    }

    /// Snell refraction of the unit direction `uv` at a surface with
    /// oriented normal `n` and refraction ratio `etai_over_etat`
    /// (Q16.16).
    pub fn refract(uv: Vec3, n: Vec3, etai_over_etat: i64) -> (r: Vec3)
        requires
            in_range(uv, 4 * UNIT as int),
            in_range(n, 2 * UNIT as int),
            0 < etai_over_etat <= 16 * UNIT,
        ensures
            in_range(r, 0x100_0000),
            r == refract_s(uv, n, etai_over_etat as int, refract_cos_s(uv, n)),
    {
        proof {
            crate::vec3::lemma_dot_bound(uv, n, 4 * UNIT as int);
            assert(3 * ((4 * UNIT as int) * (4 * UNIT as int)) == 48 * ((UNIT * UNIT) as int) && (
            UNIT * UNIT) as int == 0x1_0000_0000) by (nonlinear_arith)
                requires
                    UNIT == 0x1_0000,
            ;
        }
        let u2: i128 = (UNIT as i128) * (UNIT as i128);
        let dot_un = uv.dot(&n);
        let cos32: i128 = if -dot_un > u2 {
            u2
        } else if -dot_un < -u2 {
            -u2
        } else {
            -dot_un
        };
        refract_q16(uv, n, etai_over_etat, cos32)
    }
}

/// The dielectric's outgoing direction: reflect on total internal
/// reflection or a reflectance draw, refract otherwise.  The choice
/// depends on a random draw, so only bounds are promised.
fn dielectric_direction(ref_idx: i64, unit_dir: Vec3, rec: &HitRecord) -> (r: Vec3)
    requires
        0 < ref_idx <= 16 * UNIT,
        in_range(unit_dir, 4 * UNIT as int),
        crate::hittable::record_wf(*rec),
    ensures
        in_range(r, 0x100_0000),
        ({
            let cos = refract_cos_s(unit_dir, rec.normal);
            let eta = dielectric_eta_s(ref_idx as int, rec.front_face);
            &&& (r == reflect_s(unit_dir, rec.normal) || r == refract_s(
                unit_dir,
                rec.normal,
                eta,
                cos,
            ))
            &&& (dielectric_tir_s(eta, cos) || schlick_s(cos, eta) == UNIT as int ==> r
                == reflect_s(unit_dir, rec.normal))
        }),
{
    let n = rec.normal;
    proof {
        crate::vec3::lemma_dot_bound(unit_dir, n, 4 * UNIT as int);
        assert(3 * ((4 * UNIT as int) * (4 * UNIT as int)) == 48 * ((UNIT * UNIT) as int) && (
        UNIT * UNIT) as int == 0x1_0000_0000) by (nonlinear_arith)
            requires
                UNIT == 0x1_0000,
        ;
    }
    let u2: i128 = (UNIT as i128) * (UNIT as i128);
    // The cosine of the incidence angle, in Q32.32, clamped to one.
    let dot_un = unit_dir.dot(&n);
    let cos32: i128 = if -dot_un > u2 {
        u2
    } else if -dot_un < -u2 {
        -u2
    } else {
        -dot_un
    };
    // The refraction ratio in Q16.16.
    let etai: i64 = if rec.front_face {
        let q = (u2 as u128) / (ref_idx as u128);
        proof {
            assert(q <= u2 as u128) by (nonlinear_arith)
                requires
                    ref_idx >= 1,
                    q == (u2 as u128) / (ref_idx as u128),
                    u2 as u128 >= 0,
            ;
        }
        q as i64
    } else {
        ref_idx
    };
    let etai = clamp_i64(etai, 16 * UNIT);
    let etai = if etai < 1 {
        1
    } else {
        etai
    };
    proof {
        assert(cos32 as int == refract_cos_s(unit_dir, rec.normal));
        assert(etai as int == dielectric_eta_s(ref_idx as int, rec.front_face));
    }
    // sin^2 in Q64, then sine in Q32.
    proof {
        assert(0 <= cos32 * cos32 <= u2 * u2 && u2 * u2 == 0x1_0000_0000_0000_0000 && (u2 * u2
            as int) < POW2_112 as int) by (nonlinear_arith)
            requires
                -u2 <= cos32 <= u2,
                u2 == (UNIT as i128) * (UNIT as i128),
                UNIT == 0x1_0000,
                POW2_112 == 0x1_0000_0000_0000_0000_0000_0000_0000u128,
        ;
    }
    let sin_u = isqrt((u2 * u2 - cos32 * cos32) as u128);
    proof {
        assert(sin_u <= 0x1_0000_0000u128) by (nonlinear_arith)
            requires
                sin_u * sin_u <= (u2 * u2 - cos32 * cos32) as u128,
                (u2 * u2 - cos32 * cos32) as u128 <= 0x1_0000_0000_0000_0000u128,
        ;
    }
    let sin32 = sin_u as i128;
    // Total internal reflection: eta * sin > 1, all scaled to Q48.
    proof {
        assert(0 <= (etai as int) * (sin32 as int) <= 0x10_0010_0000_0000_0000)
            by (nonlinear_arith)
            requires
                0 < etai <= 0x10_0000,
                0 <= sin32 <= 0x1_0000_0000,
        ;
        assert((UNIT as int) * ((u2 as i128) as int) == 0x1_0000_0000_0000) by (nonlinear_arith)
            requires
                UNIT == 0x1_0000,
                u2 == 0x1_0000_0000,
        ;
    }
    let tir = (etai as i128) * sin32 > (UNIT as i128) * u2;
    proof {
        assert(sin32 as int == dielectric_sin32_s(cos32 as int));
        assert(tir == dielectric_tir_s(etai as int, cos32 as int));
    }
    let draw = random_unit_q16();
    let reflect_now = tir || schlick_q16(cos32, etai) > draw;
    if reflect_now {
        reflect_q16(unit_dir, n)
    } else {
        refract_q16(unit_dir, n, etai, cos32)
    }
}

/// The Schlick reflectance approximation in Q16.16.
/// The Schlick reflectance in Q16.16, the exact fixed-point chain the
/// implementation follows: `r0 = ((1 - eta) / (1 + eta))^2`, then
/// `r0 + (1 - r0) (1 - cos)^5`, every division floored and the result
/// clamped into `[0, 1]`.
pub open spec fn schlick_s(cos32: int, etai: int) -> int {
    let u = UNIT as int;
    let u2 = u * u;
    let r0q = ((u - etai) * u) / (u + etai);
    let r0c = if r0q < -u {
        u
    } else if r0q < 0 {
        -r0q
    } else if r0q > u {
        u
    } else {
        r0q
    };
    let r0 = (r0c * r0c) / u;
    let omc = (u2 - cos32) / u;
    let p2 = (omc * omc) / u;
    let p4 = (p2 * p2) / u;
    let p5 = (p4 * omc) / u;
    let raw = r0 + ((u - r0) * p5) / u;
    if raw > u {
        u
    } else if raw < 0 {
        0
    } else {
        raw
    }
}

fn schlick_q16(cos32: i128, etai: i64) -> (r: i64)
    requires
        0 < etai <= 16 * UNIT,
        -((UNIT as i128) * (UNIT as i128)) <= cos32 <= (UNIT as i128) * (UNIT as i128),
    ensures
        0 <= r <= UNIT,
        r == schlick_s(cos32 as int, etai as int),
{
    let u: i128 = UNIT as i128;
    proof {
        assert((u as int) * (u as int) == 0x1_0000_0000) by (nonlinear_arith)
            requires
                u == 0x1_0000,
        ;
    }
    let u2: i128 = u * u;
    // r0 = ((1 - eta) / (1 + eta))^2 in Q16.
    let num = u - (etai as i128);
    let den = u + (etai as i128);
    proof {
        assert(-16 * ((u as int) * (u as int)) <= (num as int) * (u as int) <= (u as int) * (
        u as int)) by (nonlinear_arith)
            requires
                u == 0x1_0000,
                0 < etai <= 16 * UNIT,
                UNIT == 0x1_0000,
                num == u - etai,
        ;
    }
    let r0q = crate::scalar::div_floor(num * u, den);
    proof {
        lemma_div_bound(num * u as int, den as int, 16 * ((u as int) * (u as int)));
    }
    let r0c: i128 = if r0q < -u {
        u
    } else if r0q < 0 {
        -r0q
    } else if r0q > u {
        u
    } else {
        r0q
    };
    proof {
        assert(0 <= (r0c as int) * (r0c as int) <= (u as int) * (u as int)) by (nonlinear_arith)
            requires
                0 <= r0c <= u,
        ;
    }
    let r0 = crate::scalar::div_floor(r0c * r0c, u);
    proof {
        lemma_div_bound((r0c * r0c) as int, u as int, ((u as int) * (u as int)));
        assert(((u as int) * (u as int)) / (u as int) == u as int) by (nonlinear_arith)
            requires
                u == 0x1_0000,
        ;
    }
    // (1 - cos)^5 in Q16, from the Q32 cosine.
    let omc = crate::scalar::div_floor(u2 - cos32, u);
    proof {
        lemma_div_bound((u2 - cos32) as int, u as int, 2 * ((u as int) * (u as int)));
        assert((2 * ((u as int) * (u as int))) / (u as int) == 2 * (u as int)) by (nonlinear_arith)
            requires
                u == 0x1_0000,
        ;
        assert(0 <= (omc as int) * (omc as int) <= 4 * ((u as int) * (u as int)))
            by (nonlinear_arith)
            requires
                0 <= omc <= 2 * u,
        ;
    }
    let p2 = crate::scalar::div_floor(omc * omc, u);
    proof {
        lemma_div_bound((omc * omc) as int, u as int, 4 * ((u as int) * (u as int)));
        assert((4 * ((u as int) * (u as int))) / (u as int) == 4 * (u as int)) by (nonlinear_arith)
            requires
                u == 0x1_0000,
        ;
        assert(0 <= (p2 as int) * (p2 as int) <= 16 * ((u as int) * (u as int)))
            by (nonlinear_arith)
            requires
                0 <= p2 <= 4 * u,
        ;
    }
    let p4 = crate::scalar::div_floor(p2 * p2, u);
    proof {
        lemma_div_bound((p2 * p2) as int, u as int, 16 * ((u as int) * (u as int)));
        assert((16 * ((u as int) * (u as int))) / (u as int) == 16 * (u as int))
            by (nonlinear_arith)
            requires
                u == 0x1_0000,
        ;
        assert(0 <= (p4 as int) * (omc as int) <= 32 * ((u as int) * (u as int)))
            by (nonlinear_arith)
            requires
                0 <= p4 <= 16 * u,
                0 <= omc <= 2 * u,
        ;
    }
    let p5 = crate::scalar::div_floor(p4 * omc, u);
    proof {
        lemma_div_bound((p4 * omc) as int, u as int, 32 * ((u as int) * (u as int)));
        assert((32 * ((u as int) * (u as int))) / (u as int) == 32 * (u as int))
            by (nonlinear_arith)
            requires
                u == 0x1_0000,
        ;
        assert(0 <= ((u - r0) as int) * (p5 as int) <= 32 * ((u as int) * (u as int)))
            by (nonlinear_arith)
            requires
                0 <= r0 <= u,
                0 <= p5 <= 32 * u,
        ;
    }
    let tail = crate::scalar::div_floor((u - r0) * p5, u);
    proof {
        lemma_div_bound(((u - r0) * p5) as int, u as int, 32 * ((u as int) * (u as int)));
        assert((32 * ((u as int) * (u as int))) / (u as int) == 32 * (u as int))
            by (nonlinear_arith)
            requires
                u == 0x1_0000,
        ;
    }
    let raw = r0 + tail;
    let rc: i128 = if raw > u {
        u
    } else if raw < 0 {
        0i128
    } else {
        raw
    };
    rc as i64
}

/// A quotient with a positive divisor keeps the numerator's magnitude
/// bound scaled down.
proof fn lemma_div_bound(a: int, b: int, m: int)
    requires
        0 < b,
        0 <= m,
        -m <= a <= m,
    ensures
        -(m / b) - 1 <= a / b <= m / b,
{
    assert(-(m / b) - 1 <= a / b <= m / b) by (nonlinear_arith)
        requires
            0 < b,
            0 <= m,
            -m <= a <= m,
    ;
}

/// One component of the refraction's parallel part:
/// `eta * (uv + cos * n / UNIT^2) / UNIT`, each division rounded.
pub open spec fn refract_par_s(uvc: int, nc: int, etai: int, cos32: int) -> int {
    round_div(etai * (uvc + round_div(cos32 * nc, (UNIT * UNIT) as int)), UNIT as int)
}

/// The parallel part of the refraction, componentwise.
pub open spec fn refract_parallel_s(uv: Vec3, n: Vec3, etai: int, cos32: int) -> Vec3 {
    Vec3 {
        x: refract_par_s(uv.x as int, n.x as int, etai, cos32) as i64,
        y: refract_par_s(uv.y as int, n.y as int, etai, cos32) as i64,
        z: refract_par_s(uv.z as int, n.z as int, etai, cos32) as i64,
    }
}

/// The length of the perpendicular part: the floor square root of
/// `UNIT^2 - |parallel|^2`, clamped below at zero.
pub open spec fn refract_perp_s(par: Vec3) -> int {
    let k = (UNIT * UNIT) as int - crate::vec3::sq_len(par);
    if k < 0 {
        0
    } else {
        crate::scalar::sqrt_floor(k as nat) as int
    }
}

/// The refracted vector: the parallel part minus the perpendicular
/// length times the normal, each product rescaled with rounding.
pub open spec fn refract_s(uv: Vec3, n: Vec3, etai: int, cos32: int) -> Vec3 {
    let par = refract_parallel_s(uv, n, etai, cos32);
    let perp = refract_perp_s(par);
    Vec3 {
        x: (par.x - round_div(perp * n.x, UNIT as int)) as i64,
        y: (par.y - round_div(perp * n.y, UNIT as int)) as i64,
        z: (par.z - round_div(perp * n.z, UNIT as int)) as i64,
    }
}

/// The incidence cosine in Q32.32: the negated dot of the unit
/// direction and the oriented normal, clamped to one.
pub open spec fn refract_cos_s(uv: Vec3, n: Vec3) -> int {
    let d = -dot_s(uv, n);
    if d > (UNIT * UNIT) as int {
        (UNIT * UNIT) as int
    } else if d < -((UNIT * UNIT) as int) {
        -((UNIT * UNIT) as int)
    } else {
        d
    }
}

/// Snell refraction in Q16.16 with rounding.
fn refract_q16(uv: Vec3, n: Vec3, etai: i64, cos32: i128) -> (r: Vec3)
    requires
        in_range(uv, 4 * UNIT as int),
        in_range(n, 2 * UNIT as int),
        0 < etai <= 16 * UNIT,
        -((UNIT as i128) * (UNIT as i128)) <= cos32 <= (UNIT as i128) * (UNIT as i128),
    ensures
        in_range(r, 0x100_0000),
        r == refract_s(uv, n, etai as int, cos32 as int),
{
    let u = UNIT as i128;
    proof {
        assert((u as int) * (u as int) == 0x1_0000_0000) by (nonlinear_arith)
            requires
                u == 0x1_0000,
        ;
    }
    let u2 = u * u;
    // parallel part: eta * (uv + cos * n) / UNIT, componentwise.
    let px = refract_par(uv.x, n.x, etai, cos32);
    let py = refract_par(uv.y, n.y, etai, cos32);
    let pz = refract_par(uv.z, n.z, etai, cos32);
    let par = Vec3 { x: px, y: py, z: pz };
    proof {
        crate::vec3::lemma_dot_bound(par, par, 0x80_0000);
        assert(3 * (0x80_0000 * 0x80_0000) < POW2_112 as i128) by (nonlinear_arith)
            requires
                POW2_112 == 0x1_0000_0000_0000_0000_0000_0000_0000u128,
        ;
    }
    let len2 = par.squared_length();
    let k = u2 - len2;
    let kq = if k < 0 {
        0i128
    } else {
        k
    };
    let perp_u = isqrt(kq as u128);
    proof {
        assert(perp_u <= 0x1_0000u128) by (nonlinear_arith)
            requires
                perp_u * perp_u <= kq as u128,
                kq as u128 <= 0x1_0000_0000u128,
        ;
    }
    let perp_len = perp_u as i128;
    proof {
        lemma_perp_round(perp_len as int, n.x as int);
        lemma_perp_round(perp_len as int, n.y as int);
        lemma_perp_round(perp_len as int, n.z as int);
        assert(par == refract_parallel_s(uv, n, etai as int, cos32 as int));
        assert(perp_len as int == refract_perp_s(par));
    }
    Vec3 {
        x: px - (crate::scalar::div_round(perp_len * (n.x as i128), u) as i64),
        y: py - (crate::scalar::div_round(perp_len * (n.y as i128), u) as i64),
        z: pz - (crate::scalar::div_round(perp_len * (n.z as i128), u) as i64),
    }
}

/// One parallel-part component.
fn refract_par(uvc: i64, nc: i64, etai: i64, cos32: i128) -> (r: i64)
    requires
        -4 * UNIT <= uvc <= 4 * UNIT,
        -2 * UNIT <= nc <= 2 * UNIT,
        0 < etai <= 16 * UNIT,
        -((UNIT as i128) * (UNIT as i128)) <= cos32 <= (UNIT as i128) * (UNIT as i128),
    ensures
        -0x80_0000 <= r <= 0x80_0000,  // 128 * UNIT
        r == refract_par_s(uvc as int, nc as int, etai as int, cos32 as int),
{
    let u = UNIT as i128;
    proof {
        assert((u as int) * (u as int) == 0x1_0000_0000) by (nonlinear_arith)
            requires
                u == 0x1_0000,
        ;
    }
    let u2 = u * u;
    proof {
        lemma_perp_round_wide(cos32 as int, nc as int);
    }
    let inner = (uvc as i128) + crate::scalar::div_round(cos32 * (nc as i128), u2);
    proof {
        assert(-112 * ((UNIT * UNIT) as int) <= (etai as int) * (inner as int) <= 112 * ((UNIT
            * UNIT) as int)) by (nonlinear_arith)
            requires
                0 < etai <= 16 * UNIT,
                -7 * UNIT <= inner <= 7 * UNIT,
                UNIT == 0x1_0000,
        ;
        lemma_scaled_round((etai as int) * (inner as int));
    }
    let scaled = (etai as i128) * inner;
    crate::scalar::div_round(scaled, u) as i64
}

/// `cos * n / UNIT^2` rounds to within two units.
proof fn lemma_perp_round_wide(cos32: int, nc: int)
    requires
        -((UNIT * UNIT) as int) <= cos32 <= (UNIT * UNIT) as int,
        -2 * UNIT <= nc <= 2 * UNIT,
    ensures
        -(0x1000_0000_0000_0000_0000i128 as int) < cos32 * nc < 0x1000_0000_0000_0000_0000i128 as int,
        -3 * UNIT <= round_div(cos32 * nc, (UNIT * UNIT) as int) <= 3 * UNIT,
{
    let u2 = (UNIT * UNIT) as int;
    assert(-2 * (u2 * UNIT) <= cos32 * nc <= 2 * (u2 * UNIT) && 2 * (u2 * UNIT)
        < 0x1000_0000_0000_0000_0000) by (nonlinear_arith)
        requires
            -u2 <= cos32 <= u2,
            -2 * UNIT <= nc <= 2 * UNIT,
            UNIT == 0x1_0000,
            u2 == UNIT * UNIT,
    ;
    let q = round_div(cos32 * nc, u2);
    assert(2 * u2 * q == 2 * (cos32 * nc) + u2 - (2 * (cos32 * nc) + u2) % (2 * u2) && 0 <= (2 * (
    cos32 * nc) + u2) % (2 * u2) < 2 * u2) by (nonlinear_arith)
        requires
            u2 == UNIT * UNIT,
            UNIT == 0x1_0000,
            q == (2 * (cos32 * nc) + u2) / (2 * u2),
    ;
    assert(-3 * UNIT <= q <= 3 * UNIT) by (nonlinear_arith)
        requires
            -2 * (u2 * UNIT) <= cos32 * nc <= 2 * (u2 * UNIT),
            2 * u2 * q <= 2 * (cos32 * nc) + u2,
            2 * (cos32 * nc) + u2 < 2 * u2 * q + 2 * u2,
            u2 == UNIT * UNIT,
            UNIT == 0x1_0000,
    ;
}

/// `scaled / UNIT` rounds to within 128 units.
proof fn lemma_scaled_round(scaled: int)
    requires
        -112 * ((UNIT * UNIT) as int) <= scaled <= 112 * ((UNIT * UNIT) as int),
    ensures
        -0x80_0000 <= round_div(scaled, UNIT as int) <= 0x80_0000,
{
    let u = UNIT as int;
    let q = round_div(scaled, u);
    assert(2 * u * q == 2 * scaled + u - (2 * scaled + u) % (2 * u) && 0 <= (2 * scaled + u) % (2
        * u) < 2 * u) by (nonlinear_arith)
        requires
            u == 0x1_0000,
            q == (2 * scaled + u) / (2 * u),
    ;
    assert(-0x80_0000 <= q <= 0x80_0000) by (nonlinear_arith)
        requires
            -112 * (u * u) <= scaled <= 112 * (u * u),
            2 * u * q <= 2 * scaled + u,
            2 * scaled + u < 2 * u * q + 2 * u,
            u == 0x1_0000,
    ;
}

/// `perp * n / UNIT` rounds to within two units.
proof fn lemma_perp_round(perp: int, nc: int)
    requires
        0 <= perp <= UNIT,
        -2 * UNIT <= nc <= 2 * UNIT,
    ensures
        -(0x1000_0000_0000i128 as int) < perp * nc < 0x1000_0000_0000i128 as int,
        -3 * UNIT <= round_div(perp * nc, UNIT as int) <= 3 * UNIT,
{
    let u = UNIT as int;
    assert(-2 * (u * u) <= perp * nc <= 2 * (u * u) && 2 * (u * u) < 0x1000_0000_0000)
        by (nonlinear_arith)
        requires
            0 <= perp <= u,
            -2 * u <= nc <= 2 * u,
            u == 0x1_0000,
    ;
    let q = round_div(perp * nc, u);
    assert(2 * u * q == 2 * (perp * nc) + u - (2 * (perp * nc) + u) % (2 * u) && 0 <= (2 * (perp
        * nc) + u) % (2 * u) < 2 * u) by (nonlinear_arith)
        requires
            u == 0x1_0000,
            q == (2 * (perp * nc) + u) / (2 * u),
    ;
    assert(-3 * UNIT <= q <= 3 * UNIT) by (nonlinear_arith)
        requires
            -2 * (u * u) <= perp * nc <= 2 * (u * u),
            2 * u * q <= 2 * (perp * nc) + u,
            2 * (perp * nc) + u < 2 * u * q + 2 * u,
            u == 0x1_0000,
    ;
}

} // verus!
