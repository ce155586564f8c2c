//! The bounding volume hierarchy agrees with exhaustive search.

use ray_tracing::bvh::BvhNode;
use ray_tracing::fixed::Fx;
use ray_tracing::hittable::{Hittable, HittableList};
use ray_tracing::objects::Sphere;
use ray_tracing::ray::Ray;
use ray_tracing::rng::Prng;
use ray_tracing::vec3::Vec3;

/// A grid of spheres at whole coordinates.
fn sphere_field() -> HittableList {
    let mut list = HittableList::new();
    for i in -2i64..3 {
        for j in -2i64..3 {
            for k in 1i64..4 {
                list.add(Hittable::Sphere(Sphere::new(
                    Vec3::from_whole(i * 3, j * 3, k * 7),
                    Fx::from_micros(900_000),
                    0,
                )));
            }
        }
    }
    list
}

/// Rays fanned over the field from a lattice of origins and directions.
fn ray_fan() -> Vec<Ray> {
    let mut rays = Vec::new();
    for ox in -2i64..3 {
        for oy in -2i64..3 {
            for dx in -1i64..2 {
                for dy in -1i64..2 {
                    rays.push(Ray::new(
                        Vec3::from_whole(ox, oy, -5),
                        Vec3::from_micros(dx * 300_000, dy * 300_000, 1_000_000),
                    ));
                }
            }
        }
    }
    rays
}

#[test]
fn bvh_matches_exhaustive_traversal() {
    let field = sphere_field();
    let node = BvhNode::from_hittable_list(&field, Fx::zero(), Fx::one());
    let bvh = Hittable::Bvh(node);
    let list = Hittable::List(field);
    let mut prng = Prng::seeded(5);
    let t_min = Fx::from_micros(1000);
    let t_max = Fx::from_whole(1000);
    let mut hits = 0usize;
    for r in ray_fan() {
        let a = list.hit(&r, t_min, t_max, &mut prng);
        let b = bvh.hit(&r, t_min, t_max, &mut prng);
        assert_eq!(a.is_some(), b.is_some(), "hit-ness must agree");
        if let (Some(ra), Some(rb)) = (a, b) {
            assert_eq!(ra.t.to_micros(), rb.t.to_micros(), "closest parameter must agree");
            hits += 1;
        }
    }
    assert!(hits > 10, "the fan must actually exercise the tree");
}

#[test]
fn bvh_box_covers_children() {
    let field = sphere_field();
    let node = BvhNode::from_hittable_list(&field, Fx::zero(), Fx::one());
    let b = node.ibox();
    // The field spans [-6.9, 6.9] on x and y and [6.1, 21.9] on z.
    assert_eq!(b.min().x().to_micros(), -6_900_000);
    assert_eq!(b.max().x().to_micros(), 6_900_000);
    assert_eq!(b.min().z().to_micros(), 6_100_000);
    assert_eq!(b.max().z().to_micros(), 21_900_000);
}

#[test]
fn bvh_single_object_aliases_both_children() {
    let mut list = HittableList::new();
    list.add(Hittable::Sphere(Sphere::new(
        Vec3::from_whole(2, 0, 0),
        Fx::from_micros(500_000),
        0,
    )));
    let node = BvhNode::from_hittable_list(&list, Fx::zero(), Fx::one());
    let mut prng = Prng::seeded(9);
    let r = Ray::new(Vec3::zeros(), Vec3::from_whole(1, 0, 0));
    let rec = Hittable::Bvh(node)
        .hit(&r, Fx::zero(), Fx::from_whole(100), &mut prng)
        .expect("must hit");
    assert_eq!(rec.t.to_micros(), 1_500_000);
}
