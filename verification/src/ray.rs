//! Rays: an origin, a direction, and a time for motion blur.

use vstd::prelude::*;

verus! {

use crate::fixed::{Fx, fx_add, fx_mul};
use crate::vec3::{Point, Vec3, is_v3};

#[derive(Clone, Copy, Debug, PartialEq, Eq, Structural)]
pub struct Ray {
    pub orig: Point,
    pub dir: Vec3,
    pub tm: Fx,
}

/// The point a ray reaches at parameter `t`: origin plus `t` times the
/// direction, stepwise in fixed point.
pub open spec fn ray_at(r: Ray, t: int) -> (int, int, int) {
    (
        fx_add(r.orig.x@, fx_mul(r.dir.x@, t)),
        fx_add(r.orig.y@, fx_mul(r.dir.y@, t)),
        fx_add(r.orig.z@, fx_mul(r.dir.z@, t)),
    )
}

impl Ray {
    pub fn new(orig: Point, dir: Vec3) -> (r: Ray)
        ensures
            r.orig == orig && r.dir == dir && r.tm@ == 0,
    {
        Ray::with_time(orig, dir, Fx::zero())
    }

    pub fn with_time(orig: Point, dir: Vec3, time: Fx) -> (r: Ray)
        ensures
            r.orig == orig && r.dir == dir && r.tm == time,
    {
        Ray { orig, dir, tm: time }
    }

    pub fn time(&self) -> (r: Fx)
        ensures
            r == self.tm,
    {
        self.tm
    }

    pub fn origin(&self) -> (r: Point)
        ensures
            r == self.orig,
    {
        self.orig
    }

    pub fn direction(&self) -> (r: Vec3)
        ensures
            r == self.dir,
    {
        self.dir
    }

    /// Evaluate the ray at parameter `t`.
    pub fn at(&self, t: Fx) -> (r: Point)
        ensures
            ({
                let (x, y, z) = ray_at(*self, t@);
                is_v3(r, x, y, z)
            }),
    {
        self.orig.add(self.dir.scale(t))
    }
}

} // verus!
