//! End-to-end rendering: determinism, energy, and the two-sphere scene.

use ray_tracing::camera::Camera;
use ray_tracing::fixed::Fx;
use ray_tracing::hittable::{Hittable, HittableList};
use ray_tracing::material::{Lambertian, Material, Metal};
use ray_tracing::objects::Sphere;
use ray_tracing::render::{pixel_bytes, Image};
use ray_tracing::run::{fix_pixel, render, Background, Config};
use ray_tracing::vec3::Vec3;

/// The spec's low-resolution scenario: a grey ground sphere of radius one
/// thousand and a small red sphere under a sky gradient.
fn two_sphere_scene() -> (Hittable, Vec<Material>, Camera, Config) {
    let mats = vec![
        Material::Lambertian(Lambertian::new(Vec3::from_micros(500_000, 500_000, 500_000))),
        Material::Lambertian(Lambertian::new(Vec3::from_micros(900_000, 100_000, 100_000))),
    ];
    let mut list = HittableList::new();
    list.add(Hittable::Sphere(Sphere::new(
        Vec3::from_micros(0, -1_000_500_000, -1_000_000),
        Fx::from_whole(1000),
        0,
    )));
    list.add(Hittable::Sphere(Sphere::new(
        Vec3::from_micros(0, 0, -1_000_000),
        Fx::from_micros(500_000),
        1,
    )));
    let world = Hittable::List(list);
    let mut conf = Config::default();
    conf.set_aspect_ratio(Fx::from_micros(1_818_181));
    conf.set_image_width(40);
    conf.set_samples_per_pixel(4);
    conf.max_depth = 5;
    conf.set_background(Background::VerticalGradient {
        zenith: Vec3::from_micros(500_000, 700_000, 1_000_000),
        horizon: Vec3::from_micros(1_000_000, 1_000_000, 1_000_000),
    });
    let cam = Camera::new(
        Vec3::zeros(),
        Vec3::from_whole(0, 0, -1),
        Vec3::from_whole(0, 1, 0),
        Fx::one(),
        conf.aspect_ratio(),
        Fx::zero(),
        Fx::one(),
        Fx::zero(),
        Fx::zero(),
    );
    (world, mats, cam, conf)
}

#[test]
fn tone_map_averages_gamma_corrects_and_scales() {
    // One sample of one quarter: the square root is one half, scaled to
    // half the byte range.
    let acc = Vec3::from_micros(250_000, 0, 1_000_000);
    let p = fix_pixel(acc, 1, Fx::from_whole(2));
    assert_eq!(p.x().to_micros(), 128_000_000);
    assert_eq!(p.y().to_micros(), 0);
    // A full channel clamps just below the top of the range.
    assert_eq!(p.z().to_micros(), 255_744_000);
    let (r, g, b) = pixel_bytes(&p);
    assert_eq!((r, g, b), (128, 0, 255));
}

#[test]
fn config_derives_height_from_width_and_aspect() {
    let conf = Config::default();
    assert_eq!(conf.image_width(), 640);
    // 640_000_000 / 1_777_778 truncates to whole rows.
    assert_eq!(conf.image_height(), 359);
    let (_, _, _, small) = two_sphere_scene();
    assert_eq!(small.image_height(), 22);
    assert_eq!(small.samples_per_pixel(), 4);
}

#[test]
fn rendering_twice_with_one_seed_is_bit_identical() {
    let (world, mats, cam, conf) = two_sphere_scene();
    let a = render(&world, &mats, &cam, &conf, 42);
    let b = render(&world, &mats, &cam, &conf, 42);
    assert_eq!(a, b);
}

#[test]
fn two_sphere_scene_shows_sky_and_red_sphere() {
    let (world, mats, cam, conf) = two_sphere_scene();
    let pixels = render(&world, &mats, &cam, &conf, 7);
    let w = conf.image_width();
    let h = conf.image_height();
    assert_eq!(pixels.len(), w * h);
    // The image is not uniform.
    let first = pixels[0];
    assert!(pixels.iter().any(|p| p.x() != first.x() || p.y() != first.y()));
    // The top of the frame trends toward the zenith color: bluer than red.
    let top = pixels[w / 2];
    assert!(top.z().to_micros() > top.x().to_micros());
    // The middle of the frame covers the red sphere: redder than blue.
    let mid = pixels[(h / 2) * w + w / 2];
    assert!(mid.x().to_micros() > mid.z().to_micros());
}

#[test]
fn opaque_scene_under_unit_background_stays_within_byte_range() {
    // A reflective sphere under a solid white background: no channel may
    // exceed 255 after tone mapping.
    let mats = vec![Material::Metal(Metal::new(
        Vec3::from_micros(900_000, 900_000, 900_000),
        Fx::from_micros(100_000),
    ))];
    let mut list = HittableList::new();
    list.add(Hittable::Sphere(Sphere::new(
        Vec3::from_whole(0, 0, -2),
        Fx::one(),
        0,
    )));
    let world = Hittable::List(list);
    let mut conf = Config::default();
    conf.set_image_width(24);
    conf.set_aspect_ratio(Fx::from_micros(1_500_000));
    conf.set_samples_per_pixel(4);
    conf.max_depth = 8;
    conf.set_background(Background::Solid(Vec3::ones()));
    let cam = Camera::new(
        Vec3::zeros(),
        Vec3::from_whole(0, 0, -1),
        Vec3::from_whole(0, 1, 0),
        Fx::one(),
        conf.aspect_ratio(),
        Fx::zero(),
        Fx::one(),
        Fx::zero(),
        Fx::zero(),
    );
    let pixels = render(&world, &mats, &cam, &conf, 13);
    for p in &pixels {
        assert!(p.x().to_micros() < 256_000_000);
        let (r, g, b) = pixel_bytes(p);
        assert!(r <= 255 && g <= 255 && b <= 255);
        // With every source at or below one, tone mapping stays at or
        // below the top of the byte range.
        assert!(r as u32 <= 255);
    }
    let img = Image::new(pixels, conf.image_height(), conf.image_width());
    assert_eq!(img.pixels().len(), img.width() * img.height());
}

#[test]
fn scene_ok_accepts_the_demo_scene_and_rejects_bad_indices() {
    let (world, mats, _, _) = two_sphere_scene();
    assert!(ray_tracing::validate::scene_ok(&world, &mats));
    // A material index at the arena's length is out of range.
    let bad = Hittable::Sphere(Sphere::new(Vec3::zeros(), Fx::one(), mats.len()));
    assert!(!ray_tracing::validate::scene_ok(&bad, &mats));
}
