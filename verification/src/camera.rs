//! The camera: a fixed lens formula turning normalized image-plane
//! coordinates into world rays, with defocus blur and a time interval for
//! motion blur.

use vstd::prelude::*;

verus! {

use crate::fixed::{Fx, FX_SCALE};
use crate::ray::Ray;
use crate::rng::Prng;
use crate::vec3::{Point, Vec3, len_sq3, v3_add, v3_sub, v3_scale};

/// The lens offset a disk draw produces: the draw scaled by the lens
/// radius, spread over the camera's own basis.
pub open spec fn camera_offset(c: Camera, d: Vec3) -> Vec3 {
    let rd = v3_scale(d, c.lens_radius@);
    v3_add(v3_scale(c.u, rd.x@), v3_scale(c.v, rd.y@))
}

/// The ray direction the lens formula produces for image-plane
/// coordinates `(s, t)` and a lens offset: from the offset viewpoint to
/// the point of the viewport rectangle, stepwise in fixed point.
pub open spec fn camera_dir(c: Camera, s: int, t: int, offset: Vec3) -> Vec3 {
    v3_sub(
        v3_sub(
            v3_add(v3_add(c.lower_left_corner, v3_scale(c.horizontal, s)), v3_scale(c.vertical, t)),
            c.origin,
        ),
        offset,
    )
}

pub struct Camera {
    pub origin: Point,
    pub lower_left_corner: Point,
    pub horizontal: Vec3,
    pub vertical: Vec3,
    pub u: Vec3,
    pub v: Vec3,
    pub w: Vec3,
    pub lens_radius: Fx,
    pub time0: Fx,
    pub time1: Fx,
}

impl Camera {
    /// Set up the viewport.  `half_height` is the tangent of half the
    /// vertical field of view, handed in as a fixed-point value.
    pub fn new(
        lookfrom: Point,
        lookat: Point,
        vup: Vec3,
        half_height: Fx,
        aspect_ratio: Fx,
        aperture: Fx,
        focus_dist: Fx,
        time0: Fx,
        time1: Fx,
    ) -> (r: Camera)
        ensures
            r.origin == lookfrom,
            r.time0 == time0,
            r.time1 == time1,
    {
        let two = Fx::from_whole(2);
        let viewport_height = two.mul(half_height);
        let viewport_width = aspect_ratio.mul(viewport_height);
        let w = lookfrom.sub(lookat).unit_vector();
        let u = vup.cross(&w).unit_vector();
        let v = w.cross(&u);
        let horizontal = u.scale(focus_dist.mul(viewport_width));
        let vertical = v.scale(focus_dist.mul(viewport_height));
        let lower_left_corner = lookfrom.sub(horizontal.div_by(two)).sub(vertical.div_by(two)).sub(
            w.scale(focus_dist),
        );
        Camera {
            origin: lookfrom,
            lower_left_corner,
            horizontal,
            vertical,
            u,
            v,
            w,
            lens_radius: aperture.div(two),
            time0,
            time1,
        }
    }

    /// The ray through normalized image-plane coordinates `(s, t)`,
    /// jittered across the lens aperture, at a random time in the
    /// camera's interval.
    pub fn get_ray(&self, s: Fx, t: Fx, prng: &mut Prng) -> (r: Ray)
        ensures
            self.time0@ < self.time1@ ==> self.time0@ <= r.tm@ < self.time1@,
            self.time0@ >= self.time1@ ==> r.tm == self.time0,
            exists|d: Vec3|
                #![trigger camera_offset(*self, d)]
                d.z@ == 0 && len_sq3(d) < FX_SCALE as int && r.orig == v3_add(
                    self.origin,
                    camera_offset(*self, d),
                ) && r.dir == camera_dir(*self, s@, t@, camera_offset(*self, d)),
    {
        let d = Vec3::random_in_unit_disk(prng);
        let rd = d.scale(self.lens_radius);
        let offset = self.u.scale(rd.x).add(self.v.scale(rd.y));
        proof {
            assert(rd == v3_scale(d, self.lens_radius@));
            assert(offset == camera_offset(*self, d));
        }
        let time = Fx::from_micros(
            prng.next_micros_in(self.time0.to_micros(), self.time1.to_micros()),
        );
        let dir = self.lower_left_corner.add(self.horizontal.scale(s)).add(
            self.vertical.scale(t),
        ).sub(self.origin).sub(offset);
        let r = Ray::with_time(self.origin.add(offset), dir, time);
        proof {
            assert(r.dir == camera_dir(*self, s@, t@, offset));
            assert(r.orig == v3_add(self.origin, camera_offset(*self, d)));
        }
        r
    }
}

} // verus!
