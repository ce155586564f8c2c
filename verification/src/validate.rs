//! Executable checks of the render preconditions.
//!
//! `wf_hittable` and `mats_wf` are spec functions, so a caller outside the
//! verified library cannot evaluate them; `scene_ok` decides exactly the
//! same predicates at run time, so the boundary can assert them before
//! rendering.

use vstd::prelude::*;

verus! {

use std::sync::Arc;
use crate::fixed::FX_SCALE;
use crate::hittable::{Hittable, wf_hittable, wf_olist};
use crate::loader::{ImageHolder, holder_wf};
use crate::material::{Material, material_wf};
use crate::perlin::{Perlin, perlin_wf, gradient_bounded, POINT_COUNT};
use crate::run::mats_wf;
use crate::texture::{Texture, texture_wf};
use crate::vec3::color01;

/// Whether a scene satisfies the render preconditions: every material
/// index in the tree below the arena's length, every medium density
/// inverted to a nonpositive value, and every texture of the arena well
/// formed.
pub fn scene_ok(world: &Hittable, mats: &Vec<Material>) -> (r: bool)
    ensures
        r == (wf_hittable(*world, mats@.len() as int) && mats_wf(mats@)),
{
    if !check_tree(world, mats.len()) {
        return false;
    }
    check_mats(mats)
}

/// Decide `wf_hittable` at run time.
fn check_tree(h: &Hittable, n: usize) -> (r: bool)
    ensures
        r == wf_hittable(*h, n as int),
    decreases *h, 0int,
{
    match h {
        Hittable::Sphere(s) => s.mat < n,
        Hittable::MovingSphere(s) => s.mat < n,
        Hittable::RectXY(q) => q.mp < n,
        Hittable::RectXZ(q) => q.mp < n,
        Hittable::RectYZ(q) => q.mp < n,
        Hittable::Cube(c) => check_olist(&c.sides.objects, n),
        Hittable::Translate(t) => check_tree(&t.child, n),
        Hittable::RotateY(ry) => check_tree(&ry.child, n),
        Hittable::ConstantMedium(m) => m.phase_function < n && m.neg_inv_density.to_micros() <= 0
            && check_tree(&m.boundary, n),
        Hittable::List(l) => check_olist(&l.objects, n),
        Hittable::Bvh(b) => check_tree(&b.left, n) && check_tree(&b.right, n),
    }
}

/// Decide `wf_olist` at run time.
fn check_olist(objects: &Vec<Arc<Hittable>>, n: usize) -> (r: bool)
    ensures
        r == wf_olist(objects@, n as int),
    decreases *objects, 1int,
{
    let len = objects.len();
    let mut i: usize = 0;
    while i < len
        invariant
            i <= len,
            len == objects@.len(),
            forall|j: int| 0 <= j < i ==> wf_hittable(*#[trigger] objects@[j], n as int),
        decreases len - i,
    {
        if !check_tree(&objects[i], n) {
            proof {
                assert(!wf_hittable(*objects@[i as int], n as int));
            }
            return false;
        }
        i = i + 1;
    }
    true
}

/// Decide `mats_wf` at run time.
fn check_mats(mats: &Vec<Material>) -> (r: bool)
    ensures
        r == mats_wf(mats@),
{
    let len = mats.len();
    let mut i: usize = 0;
    while i < len
        invariant
            i <= len,
            len == mats@.len(),
            forall|j: int| 0 <= j < i ==> material_wf(#[trigger] mats@[j]),
        decreases len - i,
    {
        if !check_material(&mats[i]) {
            proof {
                assert(!material_wf(mats@[i as int]));
            }
            return false;
        }
        i = i + 1;
    }
    true
}

/// Decide `material_wf` at run time.
fn check_material(m: &Material) -> (r: bool)
    ensures
        r == material_wf(*m),
{
    match m {
        Material::Lambertian(l) => check_texture(&l.albedo),
        Material::Metal(_) => true,
        Material::Dielectric(_) => true,
        Material::DiffuseLight(d) => check_texture(&d.emit),
        Material::Isotropic(i) => check_texture(&i.albedo),
    }
}

/// Decide `texture_wf` at run time.
fn check_texture(t: &Texture) -> (r: bool)
    ensures
        r == texture_wf(*t),
    decreases *t,
{
    match t {
        Texture::Solid(_) => true,
        Texture::Checker(c) => check_texture(&c.odd) && check_texture(&c.even),
        Texture::Noise(n) => check_perlin(&n.noise),
        Texture::Image(i) => match &i.img {
            Option::Some(h) => check_holder(h),
            Option::None => true,
        },
    }
}

/// Decide `perlin_wf` at run time.
fn check_perlin(p: &Perlin) -> (r: bool)
    ensures
        r == perlin_wf(*p),
{
    if p.ranvec.len() != POINT_COUNT || p.perm_x.len() != POINT_COUNT || p.perm_y.len()
        != POINT_COUNT || p.perm_z.len() != POINT_COUNT {
        return false;
    }
    let mut i: usize = 0;
    while i < POINT_COUNT
        invariant
            i <= POINT_COUNT,
            p.ranvec@.len() == POINT_COUNT as int,
            p.perm_x@.len() == POINT_COUNT as int,
            p.perm_y@.len() == POINT_COUNT as int,
            p.perm_z@.len() == POINT_COUNT as int,
            forall|j: int| 0 <= j < i ==> (#[trigger] p.perm_x@[j]) < POINT_COUNT as int,
            forall|j: int| 0 <= j < i ==> (#[trigger] p.perm_y@[j]) < POINT_COUNT as int,
            forall|j: int| 0 <= j < i ==> (#[trigger] p.perm_z@[j]) < POINT_COUNT as int,
            forall|j: int| 0 <= j < i ==> gradient_bounded(#[trigger] p.ranvec@[j]),
        decreases POINT_COUNT - i,
    {
        let g = p.ranvec[i];
        let in_unit = -FX_SCALE <= g.x.to_micros() && g.x.to_micros() <= FX_SCALE && -FX_SCALE
            <= g.y.to_micros() && g.y.to_micros() <= FX_SCALE && -FX_SCALE <= g.z.to_micros()
            && g.z.to_micros() <= FX_SCALE;
        if p.perm_x[i] >= POINT_COUNT || p.perm_y[i] >= POINT_COUNT || p.perm_z[i] >= POINT_COUNT
            || !in_unit {
            return false;
        }
        i = i + 1;
    }
    true
}

/// Decide `holder_wf` at run time.
fn check_holder(h: &ImageHolder) -> (r: bool)
    ensures
        r == holder_wf(*h),
{
    proof {
        assert(0 <= (h.width as int) * (h.height as int) <= 0xFFFF_FFFF_FFFF_FFFF
            * 0xFFFF_FFFF_FFFF_FFFF) by (nonlinear_arith)
            requires
                0 <= h.width <= 0xFFFF_FFFF_FFFF_FFFF && 0 <= h.height <= 0xFFFF_FFFF_FFFF_FFFF,
        ;
    }
    let prod: u128 = (h.width as u128) * (h.height as u128);
    if (h.pixels.len() as u128) != prod {
        return false;
    }
    let len = h.pixels.len();
    let mut i: usize = 0;
    while i < len
        invariant
            i <= len,
            len == h.pixels@.len(),
            forall|j: int| 0 <= j < i ==> color01(#[trigger] h.pixels@[j]),
        decreases len - i,
    {
        let c = h.pixels[i];
        if c.x.to_micros() < 0 || c.x.to_micros() > FX_SCALE || c.y.to_micros() < 0
            || c.y.to_micros() > FX_SCALE || c.z.to_micros() < 0 || c.z.to_micros() > FX_SCALE {
            proof {
                assert(!color01(h.pixels@[i as int]));
            }
            return false;
        }
        i = i + 1;
    }
    true
}

} // verus!
