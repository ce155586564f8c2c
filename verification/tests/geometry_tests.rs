//! Boxes, spheres, rectangles, transforms and the participating medium.

use ray_tracing::aabb::Aabb;
use ray_tracing::fixed::Fx;
use ray_tracing::hittable::{Hittable, HittableList, Translate};
use ray_tracing::medium::Constant;
use ray_tracing::objects::{Cube, MovingSphere, Sphere, XY};
use ray_tracing::ray::Ray;
use ray_tracing::rng::Prng;
use ray_tracing::vec3::Vec3;

#[test]
fn surrounding_box_contains_both() {
    let a = Aabb::new(Vec3::from_whole(-1, -2, -3), Vec3::from_whole(1, 0, 0));
    let b = Aabb::new(Vec3::from_whole(0, -1, -1), Vec3::from_whole(2, 3, 4));
    let s = Aabb::surrounding_box(&a, &b);
    assert_eq!(s.min().x().to_micros(), -1_000_000);
    assert_eq!(s.min().y().to_micros(), -2_000_000);
    assert_eq!(s.min().z().to_micros(), -3_000_000);
    assert_eq!(s.max().x().to_micros(), 2_000_000);
    assert_eq!(s.max().y().to_micros(), 3_000_000);
    assert_eq!(s.max().z().to_micros(), 4_000_000);
}

#[test]
fn aabb_hit_through_center_and_miss() {
    let b = Aabb::new(Vec3::from_whole(1, -1, -1), Vec3::from_whole(3, 1, 1));
    // A ray along the x axis through the box interior.
    let through = Ray::new(Vec3::from_micros(0, 100_000, -200_000), Vec3::from_whole(1, 0, 0));
    assert!(b.hit(&through, Fx::zero(), Fx::from_whole(100)));
    // The same ray, but the window ends before the box.
    assert!(!b.hit(&through, Fx::zero(), Fx::from_micros(500_000)));
    // A parallel ray outside the slab.
    let outside = Ray::new(Vec3::from_whole(0, 5, 0), Vec3::from_whole(1, 0, 0));
    assert!(!b.hit(&outside, Fx::zero(), Fx::from_whole(100)));
}

#[test]
fn sphere_hit_from_outside_at_d_minus_r() {
    // Center two units down the axis, radius one half: first hit at 1.5.
    let s = Sphere::new(Vec3::from_whole(2, 0, 0), Fx::from_micros(500_000), 0);
    let r = Ray::new(Vec3::zeros(), Vec3::from_whole(1, 0, 0));
    let rec = s.hit(&r, Fx::zero(), Fx::from_whole(100)).expect("must hit");
    assert_eq!(rec.t.to_micros(), 1_500_000);
    assert!(rec.front_face);
    assert_eq!(rec.mat, 0);
}

#[test]
fn sphere_hit_from_inside_one_forward_root() {
    // Origin strictly inside: the only forward hit is at d + r.
    let s = Sphere::new(Vec3::zeros(), Fx::one(), 0);
    let r = Ray::new(Vec3::from_micros(-200_000, 0, 0), Vec3::from_whole(1, 0, 0));
    let rec = s.hit(&r, Fx::zero(), Fx::from_whole(100)).expect("must hit");
    assert_eq!(rec.t.to_micros(), 1_200_000);
    assert!(!rec.front_face);
}

#[test]
fn sphere_miss_behind_and_outside_window() {
    let s = Sphere::new(Vec3::from_whole(2, 0, 0), Fx::from_micros(500_000), 0);
    // Pointing away.
    let away = Ray::new(Vec3::zeros(), Vec3::from_whole(-1, 0, 0));
    assert!(s.hit(&away, Fx::zero(), Fx::from_whole(100)).is_none());
    // Window too small.
    let toward = Ray::new(Vec3::zeros(), Vec3::from_whole(1, 0, 0));
    assert!(s.hit(&toward, Fx::zero(), Fx::one()).is_none());
}

#[test]
fn moving_sphere_center_interpolates() {
    let ms = MovingSphere::new(
        Vec3::zeros(),
        Vec3::from_whole(2, 0, 0),
        Fx::zero(),
        Fx::one(),
        Fx::from_micros(500_000),
        0,
    );
    let c = ms.center(Fx::from_micros(500_000));
    assert_eq!(c.x().to_micros(), 1_000_000);
    assert_eq!(c.y().to_micros(), 0);
}

#[test]
fn rect_xy_hit_at_plane() {
    let q = XY::new(
        0,
        (Fx::from_whole(-1), Fx::from_whole(1)),
        (Fx::from_whole(-1), Fx::from_whole(1)),
        Fx::from_whole(2),
    );
    let r = Ray::new(Vec3::zeros(), Vec3::from_whole(0, 0, 1));
    let rec = q.hit(&r, Fx::zero(), Fx::from_whole(100)).expect("must hit");
    assert_eq!(rec.t.to_micros(), 2_000_000);
    // The plane is hit at its middle: both coordinates map to one half.
    assert_eq!(rec.u.to_micros(), 500_000);
    assert_eq!(rec.v.to_micros(), 500_000);
    // A ray beside the extent misses.
    let wide = Ray::new(Vec3::from_whole(5, 0, 0), Vec3::from_whole(0, 0, 1));
    assert!(q.hit(&wide, Fx::zero(), Fx::from_whole(100)).is_none());
}

#[test]
fn cube_is_hit_on_its_face() {
    let c = Cube::new(&Vec3::from_whole(1, -1, -1), &Vec3::from_whole(3, 1, 1), 0);
    let h = Hittable::Cube(c);
    let mut prng = Prng::seeded(7);
    let r = Ray::new(Vec3::zeros(), Vec3::from_whole(1, 0, 0));
    let rec = h
        .hit(&r, Fx::zero(), Fx::from_whole(100), &mut prng)
        .expect("must hit");
    assert_eq!(rec.t.to_micros(), 1_000_000);
}

#[test]
fn translate_shifts_hits() {
    let s = Sphere::new(Vec3::from_whole(2, 0, 0), Fx::from_micros(500_000), 0);
    let t = Translate::new(Hittable::Sphere(s), Vec3::from_whole(0, 3, 0));
    let h = Hittable::Translate(t);
    let mut prng = Prng::seeded(7);
    // Aim at the shifted copy.
    let r = Ray::new(Vec3::from_whole(0, 3, 0), Vec3::from_whole(1, 0, 0));
    let rec = h
        .hit(&r, Fx::zero(), Fx::from_whole(100), &mut prng)
        .expect("must hit");
    assert_eq!(rec.t.to_micros(), 1_500_000);
    assert_eq!(rec.p.y().to_micros(), 3_000_000);
    // The unshifted aim misses.
    let r0 = Ray::new(Vec3::zeros(), Vec3::from_whole(1, 0, 0));
    assert!(h.hit(&r0, Fx::zero(), Fx::from_whole(100), &mut prng).is_none());
}

#[test]
fn medium_scatters_inside_window() {
    let boundary = Sphere::new(Vec3::from_whole(5, 0, 0), Fx::from_whole(2), 0);
    let m = Constant::new(Hittable::Sphere(boundary), Fx::from_whole(50), 0);
    let h = Hittable::ConstantMedium(m);
    let mut prng = Prng::seeded(11);
    let r = Ray::new(Vec3::zeros(), Vec3::from_whole(1, 0, 0));
    let mut saw_hit = false;
    for _ in 0..32 {
        if let Some(rec) = h.hit(&r, Fx::zero(), Fx::from_whole(100), &mut prng) {
            saw_hit = true;
            assert!(rec.t.to_micros() >= 3_000_000);
            assert!(rec.t.to_micros() <= 7_000_000);
        }
    }
    assert!(saw_hit, "a dense medium must scatter at least once in many tries");
}

#[test]
fn list_returns_closest_hit() {
    let mut list = HittableList::new();
    list.add(Hittable::Sphere(Sphere::new(
        Vec3::from_whole(4, 0, 0),
        Fx::from_micros(500_000),
        0,
    )));
    list.add(Hittable::Sphere(Sphere::new(
        Vec3::from_whole(2, 0, 0),
        Fx::from_micros(500_000),
        0,
    )));
    let h = Hittable::List(list);
    let mut prng = Prng::seeded(3);
    let r = Ray::new(Vec3::zeros(), Vec3::from_whole(1, 0, 0));
    let rec = h
        .hit(&r, Fx::zero(), Fx::from_whole(100), &mut prng)
        .expect("must hit");
    assert_eq!(rec.t.to_micros(), 1_500_000);
}

#[test]
fn sphere_uv_matches_cardinal_directions() {
    // The standard spherical map, in millionths of a texture width: u runs a
    // full turn of longitude, v from the south to the north pole.
    let table = [
        ((1_000_000i64, 0i64, 0i64), (500_000i64, 500_000i64)),
        ((-1_000_000, 0, 0), (0, 500_000)),
        ((0, 1_000_000, 0), (500_000, 1_000_000)),
        ((0, -1_000_000, 0), (500_000, 0)),
        ((0, 0, 1_000_000), (250_000, 500_000)),
        ((0, 0, -1_000_000), (750_000, 500_000)),
    ];
    for ((px, py, pz), (eu, ev)) in table {
        let (u, v) = ray_tracing::objects::sphere_uv(&Vec3::from_micros(px, py, pz));
        assert_eq!(u.to_micros(), eu);
        assert_eq!(v.to_micros(), ev);
    }
}

#[test]
fn mixed_list_returns_closest_hit() {
    // A rectangle in front of a sphere along the same ray: the list must
    // report the rectangle's nearer crossing.
    let mut list = HittableList::new();
    list.add(Hittable::Sphere(Sphere::new(
        Vec3::from_whole(0, 0, -5),
        Fx::one(),
        0,
    )));
    list.add(Hittable::RectXY(XY::new(
        0,
        (Fx::from_whole(-1), Fx::one()),
        (Fx::from_whole(-1), Fx::one()),
        Fx::from_whole(-2),
    )));
    let h = Hittable::List(list);
    let mut prng = Prng::seeded(9);
    let r = Ray::new(Vec3::zeros(), Vec3::from_whole(0, 0, -1));
    let rec = h
        .hit(&r, Fx::zero(), Fx::from_whole(100), &mut prng)
        .expect("must hit");
    assert_eq!(rec.t.to_micros(), 2_000_000);
    assert!(rec.front_face);
}
