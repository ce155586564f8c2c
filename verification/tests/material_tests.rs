//! Materials and textures.

use ray_tracing::fixed::Fx;
use ray_tracing::hittable::HitRecord;
use ray_tracing::loader::ImageHolder;
use ray_tracing::material::{Dielectric, DiffuseLight, Lambertian, Material, Metal};
use ray_tracing::ray::Ray;
use ray_tracing::rng::Prng;
use ray_tracing::texture::{CheckerTexture, ImageTexture, SolidColor, Texture};
use ray_tracing::vec3::Vec3;

fn head_on_record() -> HitRecord {
    HitRecord {
        p: Vec3::zeros(),
        normal: Vec3::from_micros(0, 0, 1_000_000),
        mat: 0,
        t: Fx::one(),
        u: Fx::zero(),
        v: Fx::zero(),
        front_face: true,
    }
}

#[test]
fn dielectric_vacuum_passes_straight_through() {
    // Refractive index one: a head-on ray keeps its direction exactly,
    // whatever the reflectance draw.
    let d = Material::Dielectric(Dielectric::new(Fx::one()));
    let rec = head_on_record();
    let r_in = Ray::new(Vec3::from_whole(0, 0, 5), Vec3::from_micros(0, 0, -1_000_000));
    for seed in 1..32u64 {
        let mut prng = Prng::seeded(seed);
        let (att, sc) = d.scatter(&r_in, &rec, &mut prng).expect("dielectric scatters");
        assert_eq!(att.x().to_micros(), 1_000_000);
        assert_eq!(sc.direction().x().to_micros(), 0);
        assert_eq!(sc.direction().y().to_micros(), 0);
        assert_eq!(sc.direction().z().to_micros(), -1_000_000);
        assert_eq!(sc.time().to_micros(), 0);
    }
}

#[test]
fn diffuse_light_never_scatters_and_emits() {
    let l = Material::DiffuseLight(DiffuseLight::new(Vec3::from_whole(7, 7, 7)));
    let rec = head_on_record();
    let r_in = Ray::new(Vec3::zeros(), Vec3::from_whole(0, 0, -1));
    let mut prng = Prng::seeded(2);
    assert!(l.scatter(&r_in, &rec, &mut prng).is_none());
    let e = l.emitted(Fx::zero(), Fx::zero(), &Vec3::zeros());
    assert_eq!(e.x().to_micros(), 7_000_000);
}

#[test]
fn lambertian_scatters_from_hit_point() {
    let m = Material::Lambertian(Lambertian::new(Vec3::from_micros(800_000, 100_000, 100_000)));
    let rec = head_on_record();
    let r_in = Ray::new(Vec3::zeros(), Vec3::from_whole(0, 0, -1));
    let mut prng = Prng::seeded(3);
    let (att, sc) = m.scatter(&r_in, &rec, &mut prng).expect("lambertian scatters");
    assert_eq!(att.x().to_micros(), 800_000);
    assert_eq!(sc.origin().x().to_micros(), 0);
    assert_eq!(sc.origin().z().to_micros(), 0);
}

#[test]
fn metal_absorbs_grazing_reflection_into_surface() {
    let m = Material::Metal(Metal::new(Vec3::from_micros(900_000, 900_000, 900_000), Fx::zero()));
    let rec = head_on_record();
    // Mirror reflection of a head-on ray points back out: scattered.
    let head_on = Ray::new(Vec3::from_whole(0, 0, 5), Vec3::from_micros(0, 0, -1_000_000));
    let mut prng = Prng::seeded(4);
    let (_, sc) = m.scatter(&head_on, &rec, &mut prng).expect("metal reflects");
    assert_eq!(sc.direction().z().to_micros(), 1_000_000);
    // A grazing ray reflects along the surface: its reflection does not
    // leave the surface, so the metal absorbs it.
    let grazing = Ray::new(Vec3::from_whole(-5, 0, 0), Vec3::from_micros(1_000_000, 0, 0));
    assert!(m.scatter(&grazing, &rec, &mut prng).is_none());
}

#[test]
fn solid_and_checker_textures_select_colors() {
    let red = Vec3::from_micros(900_000, 100_000, 100_000);
    let green = Vec3::from_micros(100_000, 900_000, 100_000);
    let solid = Texture::Solid(SolidColor::new(red));
    let p = Vec3::from_micros(50_000, 50_000, 50_000);
    assert_eq!(solid.value(Fx::zero(), Fx::zero(), &p).x().to_micros(), 900_000);
    let checker = CheckerTexture::with_color(green, red);
    // Near the origin all three sines are positive: the even color shows.
    let c = checker.value(Fx::zero(), Fx::zero(), &p);
    assert_eq!(c.y().to_micros(), 900_000);
}

#[test]
fn image_holder_checks_dimensions_and_samples() {
    let px = vec![
        Vec3::from_micros(0, 0, 0),
        Vec3::from_micros(1_000_000, 0, 0),
        Vec3::from_micros(0, 1_000_000, 0),
        Vec3::from_micros(0, 0, 1_000_000),
    ];
    assert!(ImageHolder::new(px.clone(), 3, 3).is_none());
    let img = ImageHolder::new(px, 2, 2).expect("matching dimensions");
    assert_eq!(img.width(), 2);
    assert_eq!(img.pixel(1, 0).x().to_micros(), 1_000_000);
    let tex = ImageTexture::from_holder(img);
    // u right of center, v above center: top-right pixel, after the
    // vertical flip that is the red one... sample and check range.
    let c = tex.value(Fx::from_micros(750_000), Fx::from_micros(750_000), &Vec3::zeros());
    assert!(c.x().to_micros() <= 1_000_000 && c.x().to_micros() >= 0);
    let empty = ImageTexture::empty();
    let cyan = empty.value(Fx::zero(), Fx::zero(), &Vec3::zeros());
    assert_eq!(cyan.x().to_micros(), 0);
    assert_eq!(cyan.y().to_micros(), 1_000_000);
}

#[test]
fn image_texture_blends_bilinearly() {
    // A 2x2 image: black and red on the top row, green and blue below.
    // Sampling right and above the center blends three quarters toward the
    // red column and one quarter down from the top row.
    let px = vec![
        Vec3::from_micros(0, 0, 0),
        Vec3::from_micros(1_000_000, 0, 0),
        Vec3::from_micros(0, 1_000_000, 0),
        Vec3::from_micros(0, 0, 1_000_000),
    ];
    let img = ImageHolder::new(px, 2, 2).expect("matching dimensions");
    let tex = ImageTexture::from_holder(img);
    let c = tex.value(Fx::from_micros(750_000), Fx::from_micros(750_000), &Vec3::zeros());
    assert_eq!(c.x().to_micros(), 562_500);
    assert_eq!(c.y().to_micros(), 62_500);
    assert_eq!(c.z().to_micros(), 187_500);
}
