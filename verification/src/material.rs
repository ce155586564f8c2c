//! Surface behavior: diffuse, metal, dielectric, emissive and
//! isotropically scattering materials, as one closed sum.
//!
//! A scatter either produces an attenuation and an outgoing ray or reports
//! absorption.  The contracts pin the facts the integrator rests on: the
//! scattered ray starts at the hit point and keeps the incoming ray's
//! time, a bounded material never brightens a channel, a light never
//! scatters, and a vacuum-grade dielectric is forced into the refracting
//! branch.

use vstd::prelude::*;

verus! {

use crate::fixed::{Fx, FX_SCALE, fx_add, fx_sub, fx_mul, fx_div, fx_sqrt_val};
use crate::hittable::HitRecord;
use crate::ray::Ray;
use crate::rng::Prng;
use crate::texture::{Texture, SolidColor, texture_wf, texture_bounded, texture_value_spec};
use crate::vec3::{
    Color,
    Point,
    Vec3,
    color01,
    dot3,
    is_v3,
    is_unit_of,
    near_zero3,
    refract3,
    reflect3,
    unit3,
    len_sq3,
    v3_add,
    v3_scale,
};

/// The direction a diffuse surface scatters into: the normal displaced by
/// a unit draw, falling back to the bare normal when the sum degenerates.
pub open spec fn lambertian_dir(normal: Vec3, u: Vec3) -> Vec3 {
    let d = v3_add(normal, u);
    if near_zero3(d) {
        normal
    } else {
        d
    }
}

pub struct Lambertian {
    pub albedo: Texture,
}

pub struct Metal {
    pub albedo: Color,
    pub fuzz: Fx,
}

pub struct Dielectric {
    pub ir: Fx,
}

pub struct DiffuseLight {
    pub emit: Texture,
}

pub struct Isotropic {
    pub albedo: Texture,
}

/// Every surface behavior the renderer knows, as one closed sum.
pub enum Material {
    Lambertian(Lambertian),
    Metal(Metal),
    Dielectric(Dielectric),
    DiffuseLight(DiffuseLight),
    Isotropic(Isotropic),
}

/// The owned textures are well formed.
pub open spec fn material_wf(m: Material) -> bool {
    match m {
        Material::Lambertian(l) => texture_wf(l.albedo),
        Material::Metal(_) => true,
        Material::Dielectric(_) => true,
        Material::DiffuseLight(d) => texture_wf(d.emit),
        Material::Isotropic(i) => texture_wf(i.albedo),
    }
}

/// Whether every attenuation the material can produce lies in the unit
/// interval, so shading never brightens a channel.
pub open spec fn material_bounded(m: Material) -> bool {
    match m {
        Material::Lambertian(l) => texture_bounded(l.albedo),
        Material::Metal(mt) => color01(mt.albedo),
        Material::Dielectric(_) => true,
        Material::DiffuseLight(_) => true,
        Material::Isotropic(i) => texture_bounded(i.albedo),
    }
}

/// Whether the material never emits light of its own.
pub open spec fn non_emissive(m: Material) -> bool {
    !(m matches Material::DiffuseLight(_))
}

impl Lambertian {
    pub fn new(a: Color) -> (r: Lambertian)
        ensures
            texture_wf(r.albedo),
            color01(a) ==> texture_bounded(r.albedo),
    {
        Lambertian::with_texture(Texture::Solid(SolidColor::new(a)))
    }

    pub fn with_texture(albedo: Texture) -> (r: Lambertian)
        ensures
            r.albedo == albedo,
    {
        Lambertian { albedo }
    }
}

impl Metal {
    pub fn new(a: Color, f: Fx) -> (r: Metal)
        ensures
            r.albedo == a && r.fuzz == f,
    {
        Metal { albedo: a, fuzz: f }
    }
}

impl Dielectric {
    pub fn new(ir: Fx) -> (r: Dielectric)
        ensures
            r.ir == ir,
    {
        Dielectric { ir }
    }

    /// Schlick's reflectance approximation, with the fifth power as an
    /// exact multiplication chain.
    pub fn reflectance(cosine: Fx, ref_idx: Fx) -> (r: Fx)
        ensures
            r@ == schlick(cosine@, ref_idx@),
    {
        let one = Fx::one();
        let r0 = one.sub(ref_idx).div(one.add(ref_idx));
        let r0sq = r0.mul(r0);
        let m = one.sub(cosine);
        let m2 = m.mul(m);
        let m4 = m2.mul(m2);
        let m5 = m4.mul(m);
        r0sq.add(one.sub(r0sq).mul(m5))
    }
}

/// Schlick's reflectance: `r0 + (1 - r0)(1 - cos)^5` with
/// `r0 = ((1 - n)/(1 + n))^2`, stepwise in fixed point.
pub open spec fn schlick(cos: int, ref_idx: int) -> int {
    let r0 = fx_div(fx_sub(FX_SCALE as int, ref_idx), fx_add(FX_SCALE as int, ref_idx));
    let r0sq = fx_mul(r0, r0);
    let m = fx_sub(FX_SCALE as int, cos);
    let m2 = fx_mul(m, m);
    let m4 = fx_mul(m2, m2);
    let m5 = fx_mul(m4, m);
    fx_add(r0sq, fx_mul(fx_sub(FX_SCALE as int, r0sq), m5))
}

/// The ratio of refractive indices a dielectric uses, by which side the
/// ray came from.
pub open spec fn diel_ratio(d: Dielectric, front_face: bool) -> int {
    if front_face {
        fx_div(FX_SCALE as int, d.ir@)
    } else {
        d.ir@
    }
}

/// The capped cosine the dielectric computes from the unit direction.
pub open spec fn diel_cos(uv: Vec3, n: Vec3) -> int {
    crate::vec3::refract_cos(uv, n)
}

/// The sine derived from the capped cosine.
pub open spec fn diel_sin(uv: Vec3, n: Vec3) -> int {
    fx_sqrt_val(fx_sub(FX_SCALE as int, fx_mul(diel_cos(uv, n), diel_cos(uv, n))))
}

/// Total internal reflection: the scaled sine exceeds one.
pub open spec fn diel_cannot_refract(d: Dielectric, ff: bool, uv: Vec3, n: Vec3) -> bool {
    fx_mul(diel_ratio(d, ff), diel_sin(uv, n)) > FX_SCALE as int
}

impl DiffuseLight {
    pub fn new(c: Color) -> (r: DiffuseLight)
        ensures
            texture_wf(r.emit),
            color01(c) ==> texture_bounded(r.emit),
    {
        DiffuseLight::with_texture(Texture::Solid(SolidColor::new(c)))
    }

    pub fn with_texture(emit: Texture) -> (r: DiffuseLight)
        ensures
            r.emit == emit,
    {
        DiffuseLight { emit }
    }
}

impl Isotropic {
    pub fn new(c: Color) -> (r: Isotropic)
        ensures
            texture_wf(r.albedo),
            color01(c) ==> texture_bounded(r.albedo),
    {
        Isotropic::with_texture(Texture::Solid(SolidColor::new(c)))
    }

    pub fn with_texture(albedo: Texture) -> (r: Isotropic)
        ensures
            r.albedo == albedo,
    {
        Isotropic { albedo }
    }
}

impl Material {
    /// Given an incoming ray and a hit, either an attenuation and a
    /// scattered ray, or absorption.
    pub fn scatter(&self, r_in: &Ray, rec: &HitRecord, prng: &mut Prng) -> (res: Option<
        (Color, Ray),
    >)
        requires
            material_wf(*self),
        ensures
            self matches Material::DiffuseLight(_) ==> res.is_none(),
            (self matches Material::Lambertian(_) || self matches Material::Dielectric(_)
                || self matches Material::Isotropic(_)) ==> res.is_some(),
            res.is_some() ==> res.unwrap().1.orig == rec.p && res.unwrap().1.tm == r_in.tm,
            material_bounded(*self) && res.is_some() ==> color01(res.unwrap().0),
            self matches Material::Metal(m) ==> (res.is_some() ==> dot3(
                res.unwrap().1.dir,
                rec.normal,
            ) > 0 && res.unwrap().0 == m.albedo),
            self matches Material::Lambertian(l) ==> res.unwrap().0 == texture_value_spec(
                l.albedo,
                rec.u@,
                rec.v@,
                rec.p,
            ),
            self matches Material::Lambertian(_) ==> exists|u: Vec3|
                (#[trigger] lambertian_dir(rec.normal, u)) == res.unwrap().1.dir && (exists|w: Vec3|
                    #[trigger] is_unit_of(u, w)),
            self matches Material::Metal(m) ==> (res.is_some() ==> exists|f: Vec3|
                0 < #[trigger] len_sq3(f) < FX_SCALE as int && res.unwrap().1.dir == v3_add(
                    reflect3(unit3(r_in.dir), rec.normal),
                    v3_scale(f, m.fuzz@),
                )),
            self matches Material::Isotropic(i) ==> 0 < len_sq3(res.unwrap().1.dir)
                < FX_SCALE as int && res.unwrap().0 == texture_value_spec(
                i.albedo,
                rec.u@,
                rec.v@,
                rec.p,
            ),
            self matches Material::Metal(m) ==> (res.is_none() ==> exists|f: Vec3|
                0 < #[trigger] len_sq3(f) < FX_SCALE as int && dot3(
                    v3_add(reflect3(unit3(r_in.dir), rec.normal), v3_scale(f, m.fuzz@)),
                    rec.normal,
                ) <= 0),
            self matches Material::Dielectric(d) ==> {
                let uv = unit3(r_in.dir);
                &&& is_v3(res.unwrap().0, FX_SCALE as int, FX_SCALE as int, FX_SCALE as int)
                &&& (!diel_cannot_refract(*d, rec.front_face, uv, rec.normal) && schlick(
                    diel_cos(uv, rec.normal),
                    diel_ratio(*d, rec.front_face),
                ) <= 0 ==> {
                    let (rx, ry, rz) = refract3(uv, rec.normal, diel_ratio(*d, rec.front_face));
                    is_v3(res.unwrap().1.dir, rx, ry, rz)
                })
                &&& (diel_cannot_refract(*d, rec.front_face, uv, rec.normal) ==> res.unwrap().1.dir
                    == reflect3(uv, rec.normal))
                &&& (res.unwrap().1.dir == reflect3(uv, rec.normal) || ({
                    let (rx, ry, rz) = refract3(uv, rec.normal, diel_ratio(*d, rec.front_face));
                    is_v3(res.unwrap().1.dir, rx, ry, rz)
                }))
            },
    {
        match self {
            Material::Lambertian(l) => {
                let uvec = Vec3::random_unit_vector(prng);
                let mut scatter_direction = rec.normal.add(uvec);
                proof {
                    assert(scatter_direction == v3_add(rec.normal, uvec));
                }
                if scatter_direction.near_zero() {
                    scatter_direction = rec.normal;
                }
                proof {
                    assert(scatter_direction == lambertian_dir(rec.normal, uvec));
                }
                let scattered = Ray::with_time(rec.p, scatter_direction, r_in.tm);
                let attenuation = l.albedo.value(rec.u, rec.v, &rec.p);
                Some((attenuation, scattered))
            },
            Material::Metal(m) => {
                let reflected = r_in.dir.unit_vector().reflect(&rec.normal);
                let fvec = Vec3::random_in_unit_sphere(prng);
                let dir = reflected.add(fvec.scale(m.fuzz));
                proof {
                    assert(dir == v3_add(reflect3(unit3(r_in.dir), rec.normal), v3_scale(fvec, m.fuzz@)));
                }
                let scattered = Ray::with_time(rec.p, dir, r_in.tm);
                if scattered.dir.dot(&rec.normal).to_micros() > 0 {
                    Some((m.albedo, scattered))
                } else {
                    None
                }
            },
            Material::Dielectric(d) => {
                let one = Fx::one();
                let attenuation = Color::new(one, one, one);
                let refraction_ratio = if rec.front_face {
                    one.div(d.ir)
                } else {
                    d.ir
                };
                let unit_direction = r_in.dir.unit_vector();
                let cos_raw = unit_direction.neg().dot(&rec.normal);
                let cos_theta = if cos_raw.lt(&one) {
                    cos_raw
                } else {
                    one
                };
                let sin_theta = one.sub(cos_theta.mul(cos_theta)).sqrt();
                let cannot_refract = refraction_ratio.mul(sin_theta).to_micros() > FX_SCALE;
                let draw = Fx::from_micros(prng.next_micros());
                let direction = if cannot_refract || Dielectric::reflectance(
                    cos_theta,
                    refraction_ratio,
                ).to_micros() > draw.to_micros() {
                    unit_direction.reflect(&rec.normal)
                } else {
                    unit_direction.refract(&rec.normal, refraction_ratio)
                };
                let scattered = Ray::with_time(rec.p, direction, r_in.tm);
                Some((attenuation, scattered))
            },
            Material::DiffuseLight(_) => None,
            Material::Isotropic(i) => {
                let scattered = Ray::with_time(
                    rec.p,
                    Vec3::random_in_unit_sphere(prng),
                    r_in.tm,
                );
                let attenuation = i.albedo.value(rec.u, rec.v, &rec.p);
                Some((attenuation, scattered))
            },
        }
    }

    /// The material's own light: a diffuse light samples its texture,
    /// everything else is dark.
    pub fn emitted(&self, u: Fx, v: Fx, p: &Point) -> (r: Color)
        requires
            material_wf(*self),
        ensures
            non_emissive(*self) ==> is_v3(r, 0, 0, 0),
            self matches Material::DiffuseLight(d) ==> (texture_bounded(d.emit) ==> color01(r)),
            self matches Material::DiffuseLight(d) ==> r == texture_value_spec(
                d.emit,
                u@,
                v@,
                *p,
            ),
    {
        match self {
            Material::DiffuseLight(d) => d.emit.value(u, v, p),
            _ => Color::zeros(),
        }
    }
}

/// A vacuum-grade dielectric passes an axis-aligned head-on ray straight
/// through: with a unit refractive index, an incoming unit direction
/// opposite the unit normal, reflection has probability zero and the
/// refracted direction equals the incoming one.
pub proof fn lemma_dielectric_vacuum_head_on(d: Dielectric, dir: Vec3, n: Vec3)
    requires
        d.ir@ == FX_SCALE as int,
        is_v3(n, 0, 0, FX_SCALE as int),
        is_v3(dir, 0, 0, -(FX_SCALE as int)),
    ensures
        unit3(dir) == dir,
        diel_ratio(d, true) == FX_SCALE as int,
        !diel_cannot_refract(d, true, dir, n),
        schlick(diel_cos(dir, n), diel_ratio(d, true)) == 0,
        ({
            let (rx, ry, rz) = refract3(dir, n, FX_SCALE as int);
            is_v3(dir, rx, ry, rz)
        }),
{
    let s = FX_SCALE as int;
    lemma_unit_products();
    assert(1_000_000int * 1_000_000 == 1_000_000_000_000 && (-1_000_000int) * 1_000_000
        == -1_000_000_000_000 && 0int * 1_000_000 == 0 && 1_000_001int * 1_000_001
        == 1_000_002_000_001) by (nonlinear_arith);
    assert(1_000_000_000_000int / 1_000_000 == 1_000_000);
    assert(0int / 1_000_000 == 0 && 0int / 2_000_000 == 0);
    // The direction is already unit length.
    assert(len_sq3(dir) == s);
    assert(fx_sqrt_val(s) == s) by {
        crate::fixed::lemma_fx_sqrt_val(s, s);
    }
    assert(fx_div(-s, s) == -s);
    assert(fx_div(0, s) == 0);
    assert(unit3(dir) == dir);
    // The ratio is one.
    assert(fx_div(s, s) == s);
    // Cosine one, sine zero: no total internal reflection.
    assert(diel_cos(dir, n) == s);
    assert(fx_sub(s, fx_mul(s, s)) == 0);
    assert(fx_sqrt_val(0) == 0) by {
        crate::fixed::lemma_fx_sqrt_val(0, 0);
    }
    assert(fx_mul(s, 0) == 0);
    // Reflectance zero.
    assert(fx_div(0, 2 * s) == 0);
    assert(schlick(s, s) == 0);
    // The refracted direction is the incoming one: the perpendicular part
    // vanishes and the parallel part is the negated normal.
    assert(({
        let (rx, ry, rz) = refract3(dir, n, s);
        rx == 0 && ry == 0 && rz == -s
    })) by {
        lemma_unit_products();
        assert(fx_add(-s, fx_mul(s, s)) == 0 && fx_add(0, fx_mul(0, s)) == 0);
        assert(fx_mul(0, s) == 0);
        assert(fx_mul(0, 0) == 0);
        assert(fx_sub(s, fx_add(fx_add(fx_mul(0, 0), fx_mul(0, 0)), fx_mul(0, 0))) == s);
        assert(crate::fixed::fx_neg(fx_sqrt_val(if s >= 0 { s } else { crate::fixed::sat64(-s) })) == -s) by {
            crate::fixed::lemma_fx_sqrt_val(s, s);
        }
        assert(fx_mul(s, -s) == -s);
        assert(fx_add(0, fx_mul(s, -s)) == -s);
        assert(fx_add(0, fx_mul(0, -s)) == 0);
    }
}

/// The handful of exact unit-scale products the head-on argument uses.
proof fn lemma_unit_products()
    ensures
        fx_mul(FX_SCALE as int, FX_SCALE as int) == FX_SCALE as int,
        fx_mul(-(FX_SCALE as int), -(FX_SCALE as int)) == FX_SCALE as int,
        fx_mul(0, 0) == 0,
        fx_mul(0, FX_SCALE as int) == 0,
        fx_mul(FX_SCALE as int, 0) == 0,
        fx_mul(FX_SCALE as int, -(FX_SCALE as int)) == -(FX_SCALE as int),
        fx_mul(0, -(FX_SCALE as int)) == 0,
        crate::fixed::fx_neg(-(FX_SCALE as int)) == FX_SCALE as int,
        crate::fixed::fx_neg(0) == 0,
{
    assert(1_000_000int * 1_000_000 == 1_000_000_000_000 && (-1_000_000int) * (-1_000_000)
        == 1_000_000_000_000 && 0int * 0 == 0 && 0int * 1_000_000 == 0 && 1_000_000int * 0 == 0
        && 1_000_000int * (-1_000_000) == -1_000_000_000_000 && 0int * (-1_000_000) == 0)
        by (nonlinear_arith);
}

} // verus!
