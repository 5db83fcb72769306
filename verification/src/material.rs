//! Surface materials and their scattering rules.
//!
//! The variant set is closed, so it is a tagged sum; a scatter call maps an
//! incoming ray and hit record to an attenuation color and an outgoing ray,
//! or signals absorption, drawing from the worker's generator where the
//! model calls for randomness.

use vstd::prelude::*;

use crate::cvec::{
    dot, reflect, refract, v_add, v_dot, v_near_zero, v_neg, v_reflect, v_refract, v_scale,
    v_unit, vr_sphere, Color, Vec3,
};
use crate::hittable::{HitMdl, HitRecord};
use crate::ray::{Ray, RayMdl};
use crate::rng::Prng;
use crate::scalar::{
    rat_div, rat_lt, rat_min, rat_mul, rat_norm, rat_one, rat_sqrt, rat_sub, rat_zero, Q, Rat,
};

verus! {

/// The model of a material.
pub enum MatMdl {
    Lambartian { albedo: Seq<Rat> },
    Metal { albedo: Seq<Rat>, fuzz: Rat },
    Dielectric { ir: Rat },
}

/// A diffuse surface: scatters near the normal, tinted by its albedo.
#[derive(Clone, Copy, Debug)]
pub struct Lambartian {
    pub albedo: Color,
}

impl Lambartian {
    pub fn new(a: Color) -> (r: Lambartian)
        ensures
            r.albedo@ == a@,
    {
        Lambartian { albedo: a }
    }
}

/// A reflective surface: mirrors the incoming ray, perturbed by `fuzz`.
#[derive(Clone, Copy, Debug)]
pub struct Metal {
    pub albedo: Color,
    pub fuzz: Q,
}

impl Metal {
    pub fn new(a: Color, f: Q) -> (r: Metal)
        ensures
            r.albedo@ == a@,
            r.fuzz@ == f@,
    {
        Metal { albedo: a, fuzz: f }
    }
}

/// A clear surface with a refractive index: refracts when Snell's law
/// admits it, reflects otherwise, and never absorbs.
#[derive(Clone, Copy, Debug)]
pub struct Dielectric {
    pub ir: Q,
}

impl Dielectric {
    pub fn new(ir: Q) -> (r: Dielectric)
        ensures
            r.ir@ == ir@,
    {
        Dielectric { ir }
    }
}

/// The closed set of surface materials.
#[derive(Clone, Copy, Debug)]
pub enum Material {
    Lambartian(Lambartian),
    Metal(Metal),
    Dielectric(Dielectric),
}

impl View for Material {
    type V = MatMdl;

    open spec fn view(&self) -> MatMdl {
        match self {
            Material::Lambartian(m) => MatMdl::Lambartian { albedo: m.albedo@ },
            Material::Metal(m) => MatMdl::Metal { albedo: m.albedo@, fuzz: m.fuzz@ },
            Material::Dielectric(m) => MatMdl::Dielectric { ir: m.ir@ },
        }
    }
}

/// What a scatter call leaves behind: whether the ray survives, the final
/// values of the attenuation and scattered-ray slots, and the generator
/// state after the draws.
pub struct ScatterMdl {
    pub ok: bool,
    pub attenuation: Seq<Rat>,
    pub scattered: RayMdl,
    pub state: u64,
}

/// The scattering rule of each material.
///
/// - Diffuse: the normal plus a random unit vector, the normal alone when
///   that sum is degenerate; always scatters.
/// - Metal: the mirror reflection of the incoming direction plus `fuzz`
///   times a random unit-sphere point; absorbs when the result points into
///   the surface.
/// - Dielectric: refracts by Snell's law with the ratio chosen by the hit
///   side, reflecting instead under total internal reflection; always
///   scatters with no attenuation.
pub open spec fn scatter_mdl(m: MatMdl, r_in: RayMdl, rec: HitMdl, s: u64) -> ScatterMdl {
    match m {
        MatMdl::Lambartian { albedo } => {
            let draw = vr_sphere(s, 3);
            let candidate = v_add(rec.normal, v_unit(draw.0));
            let dir = if v_near_zero(candidate) {
                rec.normal
            } else {
                candidate
            };
            ScatterMdl {
                ok: true,
                attenuation: albedo,
                scattered: RayMdl { orig: rec.p, dir },
                state: draw.1,
            }
        },
        MatMdl::Metal { albedo, fuzz } => {
            let reflected = v_reflect(v_unit(r_in.dir), rec.normal);
            let draw = vr_sphere(s, 3);
            let dir = v_add(reflected, v_scale(draw.0, fuzz));
            ScatterMdl {
                ok: rat_lt(rat_zero(), v_dot(dir, rec.normal)),
                attenuation: albedo,
                scattered: RayMdl { orig: rec.p, dir },
                state: draw.1,
            }
        },
        MatMdl::Dielectric { ir } => {
            let ratio = if rec.front_face {
                rat_norm(rat_div(rat_one(), ir))
            } else {
                ir
            };
            let unit_direction = v_unit(r_in.dir);
            let cos_theta = rat_min(v_dot(v_neg(unit_direction), rec.normal), rat_one());
            let sin_theta = rat_sqrt(
                rat_norm(rat_sub(rat_one(), rat_norm(rat_mul(cos_theta, cos_theta)))),
            );
            let cannot_refract = rat_lt(rat_one(), rat_norm(rat_mul(ratio, sin_theta)));
            let dir = if cannot_refract {
                v_reflect(unit_direction, rec.normal)
            } else {
                v_refract(unit_direction, rec.normal, ratio)
            };
            ScatterMdl {
                ok: true,
                attenuation: seq![rat_one(), rat_one(), rat_one()],
                scattered: RayMdl { orig: rec.p, dir },
                state: s,
            }
        },
    }
}

impl Material {
    /// Applies the variant's scattering rule, writing the attenuation and
    /// the outgoing ray and reporting whether the ray survives.
    pub fn scatter(
        &self,
        r_in: &Ray,
        rec: &HitRecord,
        attenuation: &mut Color,
        scattered: &mut Ray,
        rng: &mut Prng,
    ) -> (b: bool)
        ensures
            ({
                let out = scatter_mdl(self@, r_in@, rec@, old(rng)@);
                b == out.ok && final(attenuation)@ == out.attenuation && final(scattered)@
                    == out.scattered && final(rng)@ == out.state
            }),
    {
        match self {
            Material::Lambartian(m) => {
                let mut scatter_direction = rec.normal + Vec3::random_unit_vector(rng);
                if scatter_direction.near_zero() {
                    scatter_direction = rec.normal;
                }
                *scattered = Ray::new(rec.p, scatter_direction);
                *attenuation = m.albedo;
                true
            },
            Material::Metal(m) => {
                let reflected = reflect(r_in.direction().unit_vector(), rec.normal);
                *scattered = Ray::new(rec.p, reflected + Vec3::random_in_unit_sphere(rng) * m.fuzz);
                *attenuation = m.albedo;
                dot(scattered.direction(), rec.normal).gt(&Q::zero())
            },
            Material::Dielectric(m) => {
                *attenuation = Color::new(Q::one(), Q::one(), Q::one());
                let refraction_ratio = if rec.front_face {
                    Q::one() / m.ir
                } else {
                    m.ir
                };

                let unit_direction = r_in.direction().unit_vector();
                let cos_theta = dot(unit_direction.negate(), rec.normal).min(Q::one());
                let sin_theta = (Q::one() - cos_theta * cos_theta).sqrt();

                let cannot_refract = (refraction_ratio * sin_theta).gt(&Q::one());

                let direction = if cannot_refract {
                    reflect(unit_direction, rec.normal)
                } else {
                    refract(unit_direction, rec.normal, refraction_ratio)
                };

                *scattered = Ray::new(rec.p, direction);

                true
            },
        }
    }
}

} // verus!
