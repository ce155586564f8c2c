//! Primitive geometry: spheres, a linearly moving sphere, and the three
//! axis-aligned rectangles, with exact fixed-point intersection contracts.

use vstd::prelude::*;

verus! {

use crate::aabb::Aabb;
use crate::fixed::{
    Fx,
    FX_SCALE,
    fx_add,
    fx_sub,
    fx_neg,
    fx_mul,
    fx_div,
    fx_sqrt_val,
    sat64,
    divp_trunc,
};
use crate::hittable::HitRecord;
use crate::ray::{Ray, ray_at};
use crate::vec3::{Point, Vec3, dot3, len_sq3, is_v3};

/// The scalar dot product of two component triples, in evaluation order.
pub open spec fn dot3i(ax: int, ay: int, az: int, bx: int, by: int, bz: int) -> int {
    fx_add(fx_add(fx_mul(ax, bx), fx_mul(ay, by)), fx_mul(az, bz))
}

#[derive(Clone, Copy)]
pub struct Sphere {
    pub center: Point,
    pub radius: Fx,
    pub mat: usize,
}

/// The origin-to-center offset of a ray against a sphere.
pub open spec fn sph_oc(s: Sphere, r: Ray) -> (int, int, int) {
    (
        fx_sub(r.orig.x@, s.center.x@),
        fx_sub(r.orig.y@, s.center.y@),
        fx_sub(r.orig.z@, s.center.z@),
    )
}

/// Half the linear coefficient of the sphere quadratic.
pub open spec fn sph_half_b(s: Sphere, r: Ray) -> int {
    let (ox, oy, oz) = sph_oc(s, r);
    dot3i(ox, oy, oz, r.dir.x@, r.dir.y@, r.dir.z@)
}

/// The constant coefficient of the sphere quadratic.
pub open spec fn sph_c(s: Sphere, r: Ray) -> int {
    let (ox, oy, oz) = sph_oc(s, r);
    fx_sub(dot3i(ox, oy, oz, ox, oy, oz), fx_mul(s.radius@, s.radius@))
}

/// The discriminant of the sphere quadratic.
pub open spec fn sph_disc(s: Sphere, r: Ray) -> int {
    fx_sub(fx_mul(sph_half_b(s, r), sph_half_b(s, r)), fx_mul(len_sq3(r.dir), sph_c(s, r)))
}

/// The nearer root of the sphere quadratic.
pub open spec fn sph_root1(s: Sphere, r: Ray) -> int {
    fx_div(fx_sub(fx_neg(sph_half_b(s, r)), fx_sqrt_val(sph_disc(s, r))), len_sq3(r.dir))
}

/// The farther root of the sphere quadratic.
pub open spec fn sph_root2(s: Sphere, r: Ray) -> int {
    fx_div(fx_add(fx_neg(sph_half_b(s, r)), fx_sqrt_val(sph_disc(s, r))), len_sq3(r.dir))
}

/// Where a sphere is first hit within the window: reject a negative
/// discriminant, take the nearer root if it lies in the window, fall back
/// to the farther root, otherwise miss.
pub open spec fn sphere_hit_t(s: Sphere, r: Ray, tmin: int, tmax: int) -> Option<int> {
    if sph_disc(s, r) < 0 {
        Option::None
    } else if tmin <= sph_root1(s, r) <= tmax {
        Option::Some(sph_root1(s, r))
    } else if tmin <= sph_root2(s, r) <= tmax {
        Option::Some(sph_root2(s, r))
    } else {
        Option::None
    }
}

/// The outward normal a sphere reports at hit parameter `t`: the offset
/// from the center to the hit point, divided by the radius.
pub open spec fn sphere_outward(s: Sphere, r: Ray, t: int) -> Vec3 {
    let (px, py, pz) = ray_at(r, t);
    Vec3 {
        x: crate::vec3::to_fx(fx_div(fx_sub(px, s.center.x@), s.radius@)),
        y: crate::vec3::to_fx(fx_div(fx_sub(py, s.center.y@), s.radius@)),
        z: crate::vec3::to_fx(fx_div(fx_sub(pz, s.center.z@), s.radius@)),
    }
}

impl Sphere {
    pub fn new(center: Point, radius: Fx, mat: usize) -> (r: Sphere)
        ensures
            r.center == center && r.radius == radius && r.mat == mat,
    {
        Sphere { center, radius, mat }
    }

    /// Solve the sphere quadratic inside the window and populate a record,
    /// or report a miss; the choice and the hit parameter follow
    /// `sphere_hit_t` exactly.
    pub fn hit(&self, r: &Ray, t_min: Fx, t_max: Fx) -> (res: Option<HitRecord>)
        ensures
            res.is_some() == sphere_hit_t(*self, *r, t_min@, t_max@).is_some(),
            res.is_some() ==> {
                let rec = res.unwrap();
                &&& rec.t@ == sphere_hit_t(*self, *r, t_min@, t_max@).unwrap()
                &&& t_min@ <= rec.t@ <= t_max@
                &&& is_v3(
                    rec.p,
                    ray_at(*r, rec.t@).0,
                    ray_at(*r, rec.t@).1,
                    ray_at(*r, rec.t@).2,
                )
                &&& rec.mat == self.mat
            },
            res.is_some() ==> {
                let rec = res.unwrap();
                let outward = sphere_outward(*self, *r, rec.t@);
                &&& rec.front_face == (dot3(r.dir, outward) < 0)
                &&& (rec.front_face ==> rec.normal == outward)
                &&& (!rec.front_face ==> is_v3(
                    rec.normal,
                    fx_neg(outward.x@),
                    fx_neg(outward.y@),
                    fx_neg(outward.z@),
                ))
                &&& rec.v@ == sphere_v_spec(outward.y@)
                &&& (-0x1000_0000_0000_0000 <= outward.x@ <= 0x1000_0000_0000_0000
                    && -0x1000_0000_0000_0000 <= outward.z@ <= 0x1000_0000_0000_0000 ==> rec.u@
                    == sphere_u_spec(outward.x@, outward.z@))
            },
    {
        let oc = r.orig.sub(self.center);
        let a = r.dir.length_squared();
        let half_b = oc.dot(&r.dir);
        let c = oc.length_squared().sub(self.radius.mul(self.radius));
        let discriminant = half_b.mul(half_b).sub(a.mul(c));
        if discriminant.to_micros() < 0 {
            return None;
        }
        let sqrtd = discriminant.sqrt();
        let root1 = half_b.neg().sub(sqrtd).div(a);
        let root2 = half_b.neg().add(sqrtd).div(a);
        let root = if t_min.to_micros() <= root1.to_micros() && root1.to_micros()
            <= t_max.to_micros() {
            root1
        } else if t_min.to_micros() <= root2.to_micros() && root2.to_micros()
            <= t_max.to_micros() {
            root2
        } else {
            return None;
        };
        let p = r.at(root);
        let outward_normal = p.sub(self.center).div_by(self.radius);
        proof {
            assert(outward_normal == sphere_outward(*self, *r, root@));
        }
        let (front_face, normal) = face_normal(r, &outward_normal);
        let (u, v) = sphere_uv(&outward_normal);
        Some(HitRecord { p, normal, mat: self.mat, t: root, u, v, front_face })
    }

    /// The tight box around the sphere.
    pub fn bounding_box(&self) -> (res: Aabb)
        ensures
            res == sphere_box(*self),
    {
        let v = Vec3::new(self.radius, self.radius, self.radius);
        let r = Aabb::new(self.center.sub(v), self.center.add(v));
        proof {
            assert(r == sphere_box(*self));
        }
        r
    }
}

/// The tight box of a stationary ball: a cube of one radius around a
/// center, stepwise in fixed point.
pub open spec fn ball_box(cx: int, cy: int, cz: int, rad: int) -> Aabb {
    Aabb {
        minimum: Vec3 {
            x: crate::vec3::to_fx(fx_sub(cx, rad)),
            y: crate::vec3::to_fx(fx_sub(cy, rad)),
            z: crate::vec3::to_fx(fx_sub(cz, rad)),
        },
        maximum: Vec3 {
            x: crate::vec3::to_fx(fx_add(cx, rad)),
            y: crate::vec3::to_fx(fx_add(cy, rad)),
            z: crate::vec3::to_fx(fx_add(cz, rad)),
        },
    }
}

/// The tight box around a sphere.
pub open spec fn sphere_box(s: Sphere) -> Aabb {
    ball_box(s.center.x@, s.center.y@, s.center.z@, s.radius@)
}

/// The box of a moving sphere over a time interval: the union of the
/// tight boxes at the two endpoint times.
pub open spec fn msph_box(s: MovingSphere, t0: int, t1: int) -> Aabb {
    let (ax, ay, az) = msph_center(s, t0);
    let (bx, by, bz) = msph_center(s, t1);
    crate::aabb::box_union(ball_box(ax, ay, az, s.radius@), ball_box(bx, by, bz, s.radius@))
}

/// Orient an outward normal against the ray: the pair of the facing flag
/// and the oriented normal.
pub fn face_normal(r: &Ray, outward: &Vec3) -> (res: (bool, Vec3))
    ensures
        res.0 == (dot3(r.dir, *outward) < 0),
        res.0 ==> res.1 == *outward,
        !res.0 ==> is_v3(res.1, fx_neg(outward.x@), fx_neg(outward.y@), fx_neg(outward.z@)),
{
    let front_face = r.dir.dot(outward).to_micros() < 0;
    if front_face {
        (true, *outward)
    } else {
        (false, outward.neg())
    }
}

/// The quadrant-exact pseudo-angle of a planar point, a monotone stand-in
/// for the arctangent: `0` along the positive first axis, growing
/// counterclockwise to four units for a full turn.
///
/// This reparametrization is deliberate.  The sphere's surface coordinates
/// need a longitude that is continuous, monotone around the equator, and
/// exact at the four cardinal directions; this piecewise-rational angle
/// has all three properties in exact fixed point, where a truncated
/// arctangent series would trade them for a closer but inexact fit between
/// the cardinal points.
pub open spec fn pseudo_angle_spec(x: int, y: int) -> int {
    if x > 0 && y >= 0 {
        fx_div(y, fx_add(x, y))
    } else if y > 0 {
        fx_add(FX_SCALE as int, fx_div(fx_neg(x), fx_add(fx_neg(x), y)))
    } else if y < 0 {
        if x >= 0 {
            fx_add(3 * FX_SCALE as int, fx_div(x, fx_add(x, fx_neg(y))))
        } else {
            fx_add(2 * FX_SCALE as int, fx_div(fx_neg(y), fx_add(fx_neg(x), fx_neg(y))))
        }
    } else if x < 0 {
        2 * FX_SCALE as int
    } else {
        0
    }
}

/// The pseudo-angle, pinned to its spec and bounded by a full turn.
pub fn pseudo_angle(xf: Fx, yf: Fx) -> (r: Fx)
    requires
        -0x1000_0000_0000_0000 <= xf@ <= 0x1000_0000_0000_0000,
        -0x1000_0000_0000_0000 <= yf@ <= 0x1000_0000_0000_0000,
    ensures
        r@ == pseudo_angle_spec(xf@, yf@),
        0 <= r@ < 4 * FX_SCALE as int,
{
    let x = xf.to_micros();
    let y = yf.to_micros();
    proof {
        lemma_frac_range(xf@, yf@);
        lemma_frac_range(fx_neg(xf@), yf@);
        lemma_frac_range(xf@, fx_neg(yf@));
        lemma_frac_range(fx_neg(xf@), fx_neg(yf@));
    }
    if x > 0 && y >= 0 {
        yf.div(xf.add(yf))
    } else if y > 0 {
        Fx::one().add(xf.neg().div(xf.neg().add(yf)))
    } else if y < 0 {
        if x >= 0 {
            Fx::from_micros(3 * FX_SCALE).add(xf.div(xf.add(yf.neg())))
        } else {
            Fx::from_micros(2 * FX_SCALE).add(yf.neg().div(xf.neg().add(yf.neg())))
        }
    } else if x < 0 {
        Fx::from_micros(2 * FX_SCALE)
    } else {
        Fx::zero()
    }
}

/// In each quadrant the fractional part stays inside `[0, 1)`: the
/// numerator is not negative and strictly below the denominator.
proof fn lemma_frac_range(a: int, b: int)
    requires
        -0x1000_0000_0000_0000 <= a <= 0x1000_0000_0000_0000,
        -0x1000_0000_0000_0000 <= b <= 0x1000_0000_0000_0000,
    ensures
        a > 0 && b >= 0 ==> 0 <= fx_div(b, fx_add(a, b)) < FX_SCALE as int,
        a > 0 && b > 0 ==> 0 <= fx_div(a, fx_add(a, b)) < FX_SCALE as int,
{
    if a > 0 && b >= 0 {
        let d = a + b;
        assert(0 <= b * 1_000_000 && b * 1_000_000 < d * 1_000_000) by (nonlinear_arith)
            requires
                0 <= b && b < d,
        ;
        assert(0 <= (b * 1_000_000) / d && (b * 1_000_000) / d < 1_000_000) by (nonlinear_arith)
            requires
                0 <= b * 1_000_000,
                b * 1_000_000 < d * 1_000_000,
                d > 0,
        ;
    }
    if a > 0 && b > 0 {
        let d = a + b;
        assert(0 <= a * 1_000_000 && a * 1_000_000 < d * 1_000_000) by (nonlinear_arith)
            requires
                0 < a && a < d,
        ;
        assert(0 <= (a * 1_000_000) / d && (a * 1_000_000) / d < 1_000_000) by (nonlinear_arith)
            requires
                0 <= a * 1_000_000,
                a * 1_000_000 < d * 1_000_000,
                d > 0,
        ;
    }
}

/// Latitude of a point on the unit sphere: `(1 + y) / 2`, a monotone
/// fixed-point rendering of the polar angle, exact at the poles and the
/// equator; the same deliberate reparametrization as the longitude's
/// pseudo-angle.
pub open spec fn sphere_v_spec(py: int) -> int {
    fx_mul(fx_add(FX_SCALE as int, py), 500_000)
}

/// Longitude of a point on the unit sphere, from the pseudo-angle of the
/// equatorial coordinates, wrapped into one turn.
pub open spec fn sphere_u_spec(px: int, pz: int) -> int {
    let pa = pseudo_angle_spec(px, fx_neg(pz));
    let t = fx_add(fx_mul(pa, 250_000), 500_000);
    if t >= FX_SCALE as int {
        fx_sub(t, FX_SCALE as int)
    } else {
        t
    }
}

/// Surface coordinates of a point on the unit sphere.
pub fn sphere_uv(p: &Point) -> (res: (Fx, Fx))
    ensures
        res.1@ == sphere_v_spec(p.y@),
        -0x1000_0000_0000_0000 <= p.x@ <= 0x1000_0000_0000_0000 && -0x1000_0000_0000_0000 <= p.z@
            <= 0x1000_0000_0000_0000 ==> res.0@ == sphere_u_spec(p.x@, p.z@),
{
    let half = Fx::from_micros(500_000);
    let v = Fx::one().add(p.y).mul(half);
    let px = if p.x.to_micros() > 0x1000_0000_0000_0000 {
        Fx::from_micros(0x1000_0000_0000_0000)
    } else if p.x.to_micros() < -0x1000_0000_0000_0000 {
        Fx::from_micros(-0x1000_0000_0000_0000)
    } else {
        p.x
    };
    let pz = if p.z.to_micros() > 0x1000_0000_0000_0000 {
        Fx::from_micros(0x1000_0000_0000_0000)
    } else if p.z.to_micros() < -0x1000_0000_0000_0000 {
        Fx::from_micros(-0x1000_0000_0000_0000)
    } else {
        p.z
    };
    let pa = pseudo_angle(px, pz.neg());
    let t = pa.mul(Fx::from_micros(250_000)).add(half);
    let u = if t.to_micros() >= FX_SCALE {
        t.sub(Fx::one())
    } else {
        t
    };
    (u, v)
}


/// The quadratic's roots come in order: the nearer root never exceeds the
/// farther one.
pub proof fn lemma_sphere_roots_ordered(s: Sphere, r: Ray)
    requires
        sph_disc(s, r) >= 0,
    ensures
        sph_root1(s, r) <= sph_root2(s, r),
{
    crate::fixed::lemma_fx_sqrt_props(sph_disc(s, r));
    let sq = fx_sqrt_val(sph_disc(s, r));
    let nh = fx_neg(sph_half_b(s, r));
    crate::fixed::lemma_sat64_mono(nh - sq, nh + sq);
    crate::vec3::lemma_len_sq_nonneg(r.dir);
    crate::fixed::lemma_fx_div_mono(fx_sub(nh, sq), fx_add(nh, sq), len_sq3(r.dir));
}

/// Window faithfulness: a sphere's reported hit depends on the window only
/// through containment.  Narrowing the upper bound past the hit keeps the
/// hit and its parameter; narrowing in front of it, or narrowing a miss,
/// gives a miss.  This is what makes the scan's and the tree's
/// bound-narrowing sound.
pub proof fn lemma_sphere_window_faithful(s: Sphere, r: Ray, tmin: int, tmax: int, u: int)
    requires
        u <= tmax,
    ensures
        sphere_hit_t(s, r, tmin, tmax) matches Option::Some(t) ==> (t <= u ==> sphere_hit_t(
            s,
            r,
            tmin,
            u,
        ) == Option::Some(t)) && (u < t ==> sphere_hit_t(s, r, tmin, u) is None),
        sphere_hit_t(s, r, tmin, tmax) is None ==> sphere_hit_t(s, r, tmin, u) is None,
{
    if sph_disc(s, r) >= 0 {
        lemma_sphere_roots_ordered(s, r);
    }
}


/// Widening the window keeps a reported hit with the same parameter.
pub proof fn lemma_sphere_window_widen(s: Sphere, r: Ray, tmin: int, u: int, tmax: int, t: int)
    requires
        u <= tmax,
        sphere_hit_t(s, r, tmin, u) == Option::<int>::Some(t),
    ensures
        sphere_hit_t(s, r, tmin, tmax) == Option::<int>::Some(t),
{
    lemma_sphere_roots_ordered(s, r);
}

#[derive(Clone, Copy)]
pub struct MovingSphere {
    pub center0: Point,
    pub center1: Point,
    pub radius: Fx,
    pub time0: Fx,
    pub time1: Fx,
    pub mat: usize,
}

/// The interpolated center of a moving sphere at a time.
pub open spec fn msph_center(s: MovingSphere, time: int) -> (int, int, int) {
    let f = fx_div(fx_sub(time, s.time0@), fx_sub(s.time1@, s.time0@));
    (
        fx_add(s.center0.x@, fx_mul(fx_sub(s.center1.x@, s.center0.x@), f)),
        fx_add(s.center0.y@, fx_mul(fx_sub(s.center1.y@, s.center0.y@), f)),
        fx_add(s.center0.z@, fx_mul(fx_sub(s.center1.z@, s.center0.z@), f)),
    )
}

/// The stationary sphere a moving sphere presents at one moment.
pub open spec fn msph_frozen(s: MovingSphere, time: int) -> Sphere {
    let (cx, cy, cz) = msph_center(s, time);
    Sphere {
        center: Vec3 {
            x: crate::vec3::to_fx(cx),
            y: crate::vec3::to_fx(cy),
            z: crate::vec3::to_fx(cz),
        },
        radius: s.radius,
        mat: s.mat,
    }
}

impl MovingSphere {
    pub fn new(
        center0: Point,
        center1: Point,
        time0: Fx,
        time1: Fx,
        radius: Fx,
        mat: usize,
    ) -> (r: MovingSphere)
        ensures
            r.center0 == center0 && r.center1 == center1 && r.time0 == time0 && r.time1 == time1
                && r.radius == radius && r.mat == mat,
    {
        MovingSphere { center0, center1, radius, time0, time1, mat }
    }

    /// The center at a moment: linear interpolation between the keyframes.
    pub fn center(&self, time: Fx) -> (res: Point)
        ensures
            ({
                let (cx, cy, cz) = msph_center(*self, time@);
                is_v3(res, cx, cy, cz)
            }),
    {
        let f = time.sub(self.time0).div(self.time1.sub(self.time0));
        self.center0.add(self.center1.sub(self.center0).scale(f))
    }

    /// Intersect as a sphere whose center is taken at the ray's time.
    pub fn hit(&self, r: &Ray, t_min: Fx, t_max: Fx) -> (res: Option<HitRecord>)
        ensures
            res.is_some() ==> t_min@ <= res.unwrap().t@ <= t_max@ && res.unwrap().mat == self.mat,
            ({
                let at_time = msph_frozen(*self, r.tm@);
                &&& res.is_some() == sphere_hit_t(at_time, *r, t_min@, t_max@).is_some()
                &&& (res.is_some() ==> res.unwrap().t@ == sphere_hit_t(
                    at_time,
                    *r,
                    t_min@,
                    t_max@,
                ).unwrap())
            }),
            res.is_some() ==> {
                let rec = res.unwrap();
                let outward = sphere_outward(msph_frozen(*self, r.tm@), *r, rec.t@);
                &&& is_v3(
                    rec.p,
                    ray_at(*r, rec.t@).0,
                    ray_at(*r, rec.t@).1,
                    ray_at(*r, rec.t@).2,
                )
                &&& rec.front_face == (dot3(r.dir, outward) < 0)
                &&& (rec.front_face ==> rec.normal == outward)
                &&& (!rec.front_face ==> is_v3(
                    rec.normal,
                    fx_neg(outward.x@),
                    fx_neg(outward.y@),
                    fx_neg(outward.z@),
                ))
                &&& rec.v@ == sphere_v_spec(outward.y@)
                &&& (-0x1000_0000_0000_0000 <= outward.x@ <= 0x1000_0000_0000_0000
                    && -0x1000_0000_0000_0000 <= outward.z@ <= 0x1000_0000_0000_0000 ==> rec.u@
                    == sphere_u_spec(outward.x@, outward.z@))
            },
    {
        let frozen = Sphere { center: self.center(r.time()), radius: self.radius, mat: self.mat };
        proof {
            assert(frozen == msph_frozen(*self, r.tm@));
        }
        frozen.hit(r, t_min, t_max)
    }

    /// The union of the tight boxes at the two endpoint times.
    pub fn bounding_box(&self, time0: Fx, time1: Fx) -> (res: Aabb)
        ensures
            res == msph_box(*self, time0@, time1@),
    {
        let v = Vec3::new(self.radius, self.radius, self.radius);
        let c0 = self.center(time0);
        let c1 = self.center(time1);
        let box0 = Aabb::new(c0.sub(v), c0.add(v));
        let box1 = Aabb::new(c1.sub(v), c1.add(v));
        proof {
            let (ax, ay, az) = msph_center(*self, time0@);
            let (bx, by, bz) = msph_center(*self, time1@);
            assert(box0 == ball_box(ax, ay, az, self.radius@));
            assert(box1 == ball_box(bx, by, bz, self.radius@));
        }
        Aabb::surrounding_box(&box0, &box1)
    }
}

/// P3, both halves, in the exactly representable axis-aligned setting: the
/// direction is the positive-x unit vector, the center lies `d` ahead of
/// the origin on that axis, and the radius is a whole number of
/// thousandths, so every fixed-point step is exact.
///
/// From outside (`d > rad`) the sphere is first hit at `t == d - rad`;
/// from inside (`d < rad`) there is exactly one forward hit, at
/// `t == d + rad`.
pub proof fn lemma_sphere_axis_hit(s: Sphere, r: Ray, d: int, tmin: int, tmax: int)
    requires
        0 < s.radius@ < 3_000_000_000_000,
        s.radius@ % 1000 == 0,
        0 < d <= 3_000_000_000_000,
        r.dir.x@ == FX_SCALE as int && r.dir.y@ == 0 && r.dir.z@ == 0,
        r.orig.x@ == s.center.x@ - d,
        r.orig.y@ == s.center.y@,
        r.orig.z@ == s.center.z@,
        -0x1000_0000_0000_0000 <= s.center.x@ <= 0x1000_0000_0000_0000,
        d > s.radius@ ==> tmin <= d - s.radius@ <= tmax,
        d < s.radius@ ==> 0 <= tmin <= d + s.radius@ <= tmax && tmin > d - s.radius@,
    ensures
        d > s.radius@ ==> sphere_hit_t(s, r, tmin, tmax) == Option::Some(d - s.radius@),
        d < s.radius@ ==> sphere_hit_t(s, r, tmin, tmax) == Option::Some(d + s.radius@),
{
    let rad = s.radius@;
    let (ox, oy, oz) = sph_oc(s, r);
    assert(ox == -d && oy == 0 && oz == 0);
    // The quadratic's coefficients collapse to exact values.
    lemma_sq_div_bound(d);
    lemma_sq_div_bound(rad);
    assert((-d) * (-d) == d * d && (-rad) * (-rad) == rad * rad) by (nonlinear_arith);
    assert(fx_mul(0, 0) == 0 && fx_mul(0, FX_SCALE as int) == 0) by (nonlinear_arith);
    assert(len_sq3(r.dir) == FX_SCALE as int) by {
        assert(fx_mul(FX_SCALE as int, FX_SCALE as int) == FX_SCALE as int);
    }
    let hb = sph_half_b(s, r);
    assert(fx_mul(-d, FX_SCALE as int) == -d) by {
        lemma_times_scale(-d);
    }
    assert(hb == -d);
    let cc = sph_c(s, r);
    assert(cc == sat64(divp_trunc(d * d, FX_SCALE as int)) - sat64(
        divp_trunc(rad * rad, FX_SCALE as int),
    ));
    assert(fx_mul(FX_SCALE as int, cc) == cc) by {
        lemma_scale_times(cc);
    }
    let disc = sph_disc(s, r);
    assert(disc == sat64(divp_trunc(rad * rad, FX_SCALE as int)));
    // A radius in whole thousandths squares to an exact rescale.
    lemma_exact_square(rad);
    assert(disc == rad * rad / (FX_SCALE as int));
    assert(disc >= 1) by {
        assert(rad >= 1000);
        assert(rad * rad >= 1_000_000) by (nonlinear_arith)
            requires
                rad >= 1000,
        ;
        assert(rad * rad / 1_000_000 >= 1) by (nonlinear_arith)
            requires
                rad * rad >= 1_000_000,
        ;
    }
    assert(fx_sqrt_val(disc) == rad) by {
        assert(disc * (FX_SCALE as int) == rad * rad) by (nonlinear_arith)
            requires
                disc == rad * rad / (FX_SCALE as int),
                rad % 1000 == 0,
                (rad * rad) % (FX_SCALE as int) == 0,
        ;
        assert(rad * rad <= disc * (FX_SCALE as int) && disc * (FX_SCALE as int) < (rad + 1) * (rad
            + 1)) by (nonlinear_arith)
            requires
                disc * (FX_SCALE as int) == rad * rad,
                rad >= 0,
        ;
        crate::fixed::lemma_fx_sqrt_val(disc, rad);
    }
    assert(fx_neg(hb) == d);
    lemma_times_one_div(d - rad);
    lemma_times_one_div(d + rad);
    assert(sph_root1(s, r) == d - rad);
    assert(sph_root2(s, r) == d + rad);
}

/// A value in whole thousandths squares to a multiple of the scale.
proof fn lemma_exact_square(rad: int)
    requires
        rad % 1000 == 0,
        0 <= rad <= 3_000_000_000_000,
    ensures
        (rad * rad) % (FX_SCALE as int) == 0,
        sat64(divp_trunc(rad * rad, FX_SCALE as int)) == rad * rad / (FX_SCALE as int),
{
    let k = rad / 1000;
    assert(rad == 1000 * k);
    assert(rad * rad == (k * k) * 1_000_000) by (nonlinear_arith)
        requires
            rad == 1000 * k,
    ;
    assert(((k * k) * 1_000_000) % 1_000_000 == 0) by (nonlinear_arith);
    lemma_sq_div_bound(rad);
}

/// The rescaled square of a bounded value stays in the 64-bit range.
proof fn lemma_sq_div_bound(d: int)
    requires
        -3_000_000_000_000 <= d <= 3_000_000_000_000,
    ensures
        0 <= divp_trunc(d * d, FX_SCALE as int) <= i64::MAX as int,
        sat64(divp_trunc(d * d, FX_SCALE as int)) == divp_trunc(d * d, FX_SCALE as int),
{
    assert(0 <= d * d && d * d <= 9_000_000_000_000_000_000_000_000) by (nonlinear_arith)
        requires
            -3_000_000_000_000 <= d <= 3_000_000_000_000,
    ;
    assert((d * d) / 1_000_000 <= 9_000_000_000_000_000_000) by (nonlinear_arith)
        requires
            0 <= d * d <= 9_000_000_000_000_000_000_000_000,
    ;
}

/// Multiplying by one full unit is the identity.
proof fn lemma_times_scale(a: int)
    requires
        i64::MIN as int <= a <= i64::MAX as int,
    ensures
        fx_mul(a, FX_SCALE as int) == a,
{
    assert(divp_trunc(a * (FX_SCALE as int), FX_SCALE as int) == a) by (nonlinear_arith);
}

/// Multiplying one full unit by a value is the identity.
proof fn lemma_scale_times(a: int)
    requires
        i64::MIN as int <= a <= i64::MAX as int,
    ensures
        fx_mul(FX_SCALE as int, a) == a,
{
    assert(divp_trunc((FX_SCALE as int) * a, FX_SCALE as int) == a) by (nonlinear_arith);
}

/// Dividing by one full unit is the identity.
proof fn lemma_times_one_div(a: int)
    requires
        i64::MIN as int <= a <= i64::MAX as int,
    ensures
        fx_div(a, FX_SCALE as int) == a,
{
    assert(crate::fixed::divt(a * (FX_SCALE as int), FX_SCALE as int) == a) by (nonlinear_arith);
}


/// The rectangle padding that keeps a flat box from being degenerate.
pub const RECT_PAD_MICROS: i64 = 100;

/// Where an axis-aligned rectangle is hit: the crossing of its plane, if
/// it lies in the window and the two in-plane coordinates fall inside the
/// rectangle's extent.
pub open spec fn rect_hit_t(
    k: int,
    a0: int,
    a1: int,
    b0: int,
    b1: int,
    orgn: int,
    dirn: int,
    orga: int,
    dira: int,
    orgb: int,
    dirb: int,
    tmin: int,
    tmax: int,
) -> Option<int> {
    let t = fx_div(fx_sub(k, orgn), dirn);
    if t < tmin || tmax < t {
        Option::None
    } else {
        let a = fx_add(orga, fx_mul(t, dira));
        let b = fx_add(orgb, fx_mul(t, dirb));
        if a < a0 || a1 < a || b < b0 || b1 < b {
            Option::None
        } else {
            Option::Some(t)
        }
    }
}

/// Window faithfulness of the rectangle test, in the same shape as the
/// sphere's: the plane crossing does not depend on the window, so
/// narrowing past it keeps it, narrowing in front of it or narrowing a
/// miss gives a miss, and widening keeps a hit.
pub proof fn lemma_rect_window_faithful(
    k: int,
    a0: int,
    a1: int,
    b0: int,
    b1: int,
    orgn: int,
    dirn: int,
    orga: int,
    dira: int,
    orgb: int,
    dirb: int,
    tmin: int,
    tmax: int,
    u: int,
)
    requires
        u <= tmax,
    ensures
        rect_hit_t(k, a0, a1, b0, b1, orgn, dirn, orga, dira, orgb, dirb, tmin, tmax) matches
            Option::Some(t) ==> (t <= u ==> rect_hit_t(
            k,
            a0,
            a1,
            b0,
            b1,
            orgn,
            dirn,
            orga,
            dira,
            orgb,
            dirb,
            tmin,
            u,
        ) == Option::Some(t)) && (u < t ==> rect_hit_t(
            k,
            a0,
            a1,
            b0,
            b1,
            orgn,
            dirn,
            orga,
            dira,
            orgb,
            dirb,
            tmin,
            u,
        ) is None),
        rect_hit_t(k, a0, a1, b0, b1, orgn, dirn, orga, dira, orgb, dirb, tmin, tmax) is None
            ==> rect_hit_t(k, a0, a1, b0, b1, orgn, dirn, orga, dira, orgb, dirb, tmin, u) is None,
        rect_hit_t(k, a0, a1, b0, b1, orgn, dirn, orga, dira, orgb, dirb, tmin, u) matches
            Option::Some(t) ==> rect_hit_t(
            k,
            a0,
            a1,
            b0,
            b1,
            orgn,
            dirn,
            orga,
            dira,
            orgb,
            dirb,
            tmin,
            tmax,
        ) == Option::Some(t),
{
}

/// The in-rectangle surface coordinate of a hit.
pub open spec fn rect_coord(a: int, lo: int, hi: int) -> int {
    fx_div(fx_sub(a, lo), fx_sub(hi, lo))
}

#[derive(Clone, Copy)]
pub struct XY {
    pub mp: usize,
    pub x: (Fx, Fx),
    pub y: (Fx, Fx),
    pub k: Fx,
}

/// The flat box around an `XY` rectangle, padded along `z`.
pub open spec fn xy_box(q: XY) -> Aabb {
    Aabb {
        minimum: Vec3 {
            x: q.x.0,
            y: q.y.0,
            z: crate::vec3::to_fx(fx_sub(q.k@, RECT_PAD_MICROS as int)),
        },
        maximum: Vec3 {
            x: q.x.1,
            y: q.y.1,
            z: crate::vec3::to_fx(fx_add(q.k@, RECT_PAD_MICROS as int)),
        },
    }
}

/// The flat box around an `XZ` rectangle, padded along `y`.
pub open spec fn xz_box(q: XZ) -> Aabb {
    Aabb {
        minimum: Vec3 {
            x: q.x.0,
            y: crate::vec3::to_fx(fx_sub(q.k@, RECT_PAD_MICROS as int)),
            z: q.z.0,
        },
        maximum: Vec3 {
            x: q.x.1,
            y: crate::vec3::to_fx(fx_add(q.k@, RECT_PAD_MICROS as int)),
            z: q.z.1,
        },
    }
}

/// The flat box around a `YZ` rectangle, padded along `x`.
pub open spec fn yz_box(q: YZ) -> Aabb {
    Aabb {
        minimum: Vec3 {
            x: crate::vec3::to_fx(fx_sub(q.k@, RECT_PAD_MICROS as int)),
            y: q.y.0,
            z: q.z.0,
        },
        maximum: Vec3 {
            x: crate::vec3::to_fx(fx_add(q.k@, RECT_PAD_MICROS as int)),
            y: q.y.1,
            z: q.z.1,
        },
    }
}

impl XY {
    pub fn new(mp: usize, x: (Fx, Fx), y: (Fx, Fx), k: Fx) -> (r: XY)
        ensures
            r.mp == mp && r.x == x && r.y == y && r.k == k,
    {
        XY { mp, x, y, k }
    }

    /// Solve for the crossing of the plane `z == k` and bounds-check the
    /// other two coordinates; the outcome follows `rect_hit_t` exactly.
    pub fn hit(&self, r: &Ray, t_min: Fx, t_max: Fx) -> (res: Option<HitRecord>)
        ensures
            res.is_some() == rect_hit_t(
                self.k@,
                self.x.0@,
                self.x.1@,
                self.y.0@,
                self.y.1@,
                r.orig.z@,
                r.dir.z@,
                r.orig.x@,
                r.dir.x@,
                r.orig.y@,
                r.dir.y@,
                t_min@,
                t_max@,
            ).is_some(),
            res.is_some() ==> {
                let rec = res.unwrap();
                &&& rec.t@ == rect_hit_t(
                    self.k@,
                    self.x.0@,
                    self.x.1@,
                    self.y.0@,
                    self.y.1@,
                    r.orig.z@,
                    r.dir.z@,
                    r.orig.x@,
                    r.dir.x@,
                    r.orig.y@,
                    r.dir.y@,
                    t_min@,
                    t_max@,
                ).unwrap()
                &&& t_min@ <= rec.t@ <= t_max@
                &&& rec.mat == self.mp
                &&& rec.front_face == (r.dir.z@ < 0)
                &&& is_v3(
                    rec.p,
                    ray_at(*r, rec.t@).0,
                    ray_at(*r, rec.t@).1,
                    ray_at(*r, rec.t@).2,
                )
                &&& rec.u@ == rect_coord(
                    fx_add(r.orig.x@, fx_mul(rec.t@, r.dir.x@)),
                    self.x.0@,
                    self.x.1@,
                )
                &&& rec.v@ == rect_coord(
                    fx_add(r.orig.y@, fx_mul(rec.t@, r.dir.y@)),
                    self.y.0@,
                    self.y.1@,
                )
                &&& (rec.front_face ==> is_v3(rec.normal, 0, 0, FX_SCALE as int))
                &&& (!rec.front_face ==> is_v3(rec.normal, 0, 0, -(FX_SCALE as int)))
            },
    {
        let t = self.k.sub(r.orig.z).div(r.dir.z);
        if t.to_micros() < t_min.to_micros() || t_max.to_micros() < t.to_micros() {
            return None;
        }
        let x = r.orig.x.add(t.mul(r.dir.x));
        let y = r.orig.y.add(t.mul(r.dir.y));
        if x.to_micros() < self.x.0.to_micros() || self.x.1.to_micros() < x.to_micros()
            || y.to_micros() < self.y.0.to_micros() || self.y.1.to_micros() < y.to_micros() {
            return None;
        }
        let u = x.sub(self.x.0).div(self.x.1.sub(self.x.0));
        let v = y.sub(self.y.0).div(self.y.1.sub(self.y.0));
        let outward = Vec3::from_micros(0, 0, FX_SCALE);
        let (front_face, normal) = face_normal(r, &outward);
        proof {
            lemma_axis_dot(r.dir.x@, r.dir.y@, r.dir.z@);
        }
        Some(HitRecord { p: r.at(t), normal, mat: self.mp, t, u, v, front_face })
    }

    /// The flat box around the rectangle, padded along its flat axis.
    pub fn bounding_box(&self) -> (res: Aabb)
        ensures
            res.minimum.x@ == self.x.0@ && res.minimum.y@ == self.y.0@,
            res.maximum.x@ == self.x.1@ && res.maximum.y@ == self.y.1@,
            res.minimum.z@ == fx_sub(self.k@, RECT_PAD_MICROS as int),
            res.maximum.z@ == fx_add(self.k@, RECT_PAD_MICROS as int),
            res == xy_box(*self),
    {
        let pad = Fx::from_micros(RECT_PAD_MICROS);
        let r = Aabb::new(
            Vec3::new(self.x.0, self.y.0, self.k.sub(pad)),
            Vec3::new(self.x.1, self.y.1, self.k.add(pad)),
        );
        proof {
            assert(r == xy_box(*self));
        }
        r
    }
}

#[derive(Clone, Copy)]
pub struct XZ {
    pub mp: usize,
    pub x: (Fx, Fx),
    pub z: (Fx, Fx),
    pub k: Fx,
}

impl XZ {
    pub fn new(mp: usize, x: (Fx, Fx), z: (Fx, Fx), k: Fx) -> (r: XZ)
        ensures
            r.mp == mp && r.x == x && r.z == z && r.k == k,
    {
        XZ { mp, x, z, k }
    }

    /// Solve for the crossing of the plane `y == k`; the outcome follows
    /// `rect_hit_t` exactly.
    pub fn hit(&self, r: &Ray, t_min: Fx, t_max: Fx) -> (res: Option<HitRecord>)
        ensures
            res.is_some() == rect_hit_t(
                self.k@,
                self.x.0@,
                self.x.1@,
                self.z.0@,
                self.z.1@,
                r.orig.y@,
                r.dir.y@,
                r.orig.x@,
                r.dir.x@,
                r.orig.z@,
                r.dir.z@,
                t_min@,
                t_max@,
            ).is_some(),
            res.is_some() ==> {
                let rec = res.unwrap();
                &&& rec.t@ == rect_hit_t(
                    self.k@,
                    self.x.0@,
                    self.x.1@,
                    self.z.0@,
                    self.z.1@,
                    r.orig.y@,
                    r.dir.y@,
                    r.orig.x@,
                    r.dir.x@,
                    r.orig.z@,
                    r.dir.z@,
                    t_min@,
                    t_max@,
                ).unwrap()
                &&& t_min@ <= rec.t@ <= t_max@
                &&& rec.mat == self.mp
                &&& rec.front_face == (r.dir.y@ < 0)
                &&& is_v3(
                    rec.p,
                    ray_at(*r, rec.t@).0,
                    ray_at(*r, rec.t@).1,
                    ray_at(*r, rec.t@).2,
                )
                &&& rec.u@ == rect_coord(
                    fx_add(r.orig.x@, fx_mul(rec.t@, r.dir.x@)),
                    self.x.0@,
                    self.x.1@,
                )
                &&& rec.v@ == rect_coord(
                    fx_add(r.orig.z@, fx_mul(rec.t@, r.dir.z@)),
                    self.z.0@,
                    self.z.1@,
                )
                &&& (rec.front_face ==> is_v3(rec.normal, 0, FX_SCALE as int, 0))
                &&& (!rec.front_face ==> is_v3(rec.normal, 0, -(FX_SCALE as int), 0))
            },
    {
        let t = self.k.sub(r.orig.y).div(r.dir.y);
        if t.to_micros() < t_min.to_micros() || t_max.to_micros() < t.to_micros() {
            return None;
        }
        let x = r.orig.x.add(t.mul(r.dir.x));
        let z = r.orig.z.add(t.mul(r.dir.z));
        if x.to_micros() < self.x.0.to_micros() || self.x.1.to_micros() < x.to_micros()
            || z.to_micros() < self.z.0.to_micros() || self.z.1.to_micros() < z.to_micros() {
            return None;
        }
        let u = x.sub(self.x.0).div(self.x.1.sub(self.x.0));
        let v = z.sub(self.z.0).div(self.z.1.sub(self.z.0));
        let outward = Vec3::from_micros(0, FX_SCALE, 0);
        let (front_face, normal) = face_normal(r, &outward);
        proof {
            lemma_axis_dot(r.dir.x@, r.dir.y@, r.dir.z@);
        }
        Some(HitRecord { p: r.at(t), normal, mat: self.mp, t, u, v, front_face })
    }

    /// The flat box around the rectangle, padded along its flat axis.
    pub fn bounding_box(&self) -> (res: Aabb)
        ensures
            res.minimum.x@ == self.x.0@ && res.minimum.z@ == self.z.0@,
            res.maximum.x@ == self.x.1@ && res.maximum.z@ == self.z.1@,
            res.minimum.y@ == fx_sub(self.k@, RECT_PAD_MICROS as int),
            res.maximum.y@ == fx_add(self.k@, RECT_PAD_MICROS as int),
            res == xz_box(*self),
    {
        let pad = Fx::from_micros(RECT_PAD_MICROS);
        let r = Aabb::new(
            Vec3::new(self.x.0, self.k.sub(pad), self.z.0),
            Vec3::new(self.x.1, self.k.add(pad), self.z.1),
        );
        proof {
            assert(r == xz_box(*self));
        }
        r
    }
}

#[derive(Clone, Copy)]
pub struct YZ {
    pub mp: usize,
    pub y: (Fx, Fx),
    pub z: (Fx, Fx),
    pub k: Fx,
}

impl YZ {
    pub fn new(mp: usize, y: (Fx, Fx), z: (Fx, Fx), k: Fx) -> (r: YZ)
        ensures
            r.mp == mp && r.y == y && r.z == z && r.k == k,
    {
        YZ { mp, y, z, k }
    }

    /// Solve for the crossing of the plane `x == k`; the outcome follows
    /// `rect_hit_t` exactly.
    pub fn hit(&self, r: &Ray, t_min: Fx, t_max: Fx) -> (res: Option<HitRecord>)
        ensures
            res.is_some() == rect_hit_t(
                self.k@,
                self.y.0@,
                self.y.1@,
                self.z.0@,
                self.z.1@,
                r.orig.x@,
                r.dir.x@,
                r.orig.y@,
                r.dir.y@,
                r.orig.z@,
                r.dir.z@,
                t_min@,
                t_max@,
            ).is_some(),
            res.is_some() ==> {
                let rec = res.unwrap();
                &&& rec.t@ == rect_hit_t(
                    self.k@,
                    self.y.0@,
                    self.y.1@,
                    self.z.0@,
                    self.z.1@,
                    r.orig.x@,
                    r.dir.x@,
                    r.orig.y@,
                    r.dir.y@,
                    r.orig.z@,
                    r.dir.z@,
                    t_min@,
                    t_max@,
                ).unwrap()
                &&& t_min@ <= rec.t@ <= t_max@
                &&& rec.mat == self.mp
                &&& rec.front_face == (r.dir.x@ < 0)
                &&& is_v3(
                    rec.p,
                    ray_at(*r, rec.t@).0,
                    ray_at(*r, rec.t@).1,
                    ray_at(*r, rec.t@).2,
                )
                &&& rec.u@ == rect_coord(
                    fx_add(r.orig.y@, fx_mul(rec.t@, r.dir.y@)),
                    self.y.0@,
                    self.y.1@,
                )
                &&& rec.v@ == rect_coord(
                    fx_add(r.orig.z@, fx_mul(rec.t@, r.dir.z@)),
                    self.z.0@,
                    self.z.1@,
                )
                &&& (rec.front_face ==> is_v3(rec.normal, FX_SCALE as int, 0, 0))
                &&& (!rec.front_face ==> is_v3(rec.normal, -(FX_SCALE as int), 0, 0))
            },
    {
        let t = self.k.sub(r.orig.x).div(r.dir.x);
        if t.to_micros() < t_min.to_micros() || t_max.to_micros() < t.to_micros() {
            return None;
        }
        let y = r.orig.y.add(t.mul(r.dir.y));
        let z = r.orig.z.add(t.mul(r.dir.z));
        if y.to_micros() < self.y.0.to_micros() || self.y.1.to_micros() < y.to_micros()
            || z.to_micros() < self.z.0.to_micros() || self.z.1.to_micros() < z.to_micros() {
            return None;
        }
        let u = y.sub(self.y.0).div(self.y.1.sub(self.y.0));
        let v = z.sub(self.z.0).div(self.z.1.sub(self.z.0));
        let outward = Vec3::from_micros(FX_SCALE, 0, 0);
        let (front_face, normal) = face_normal(r, &outward);
        proof {
            lemma_axis_dot(r.dir.x@, r.dir.y@, r.dir.z@);
        }
        Some(HitRecord { p: r.at(t), normal, mat: self.mp, t, u, v, front_face })
    }

    /// The flat box around the rectangle, padded along its flat axis.
    pub fn bounding_box(&self) -> (res: Aabb)
        ensures
            res.minimum.y@ == self.y.0@ && res.minimum.z@ == self.z.0@,
            res.maximum.y@ == self.y.1@ && res.maximum.z@ == self.z.1@,
            res.minimum.x@ == fx_sub(self.k@, RECT_PAD_MICROS as int),
            res.maximum.x@ == fx_add(self.k@, RECT_PAD_MICROS as int),
            res == yz_box(*self),
    {
        let pad = Fx::from_micros(RECT_PAD_MICROS);
        let r = Aabb::new(
            Vec3::new(self.k.sub(pad), self.y.0, self.z.0),
            Vec3::new(self.k.add(pad), self.y.1, self.z.1),
        );
        proof {
            assert(r == yz_box(*self));
        }
        r
    }
}

/// The dot product of a direction with a coordinate axis is the matching
/// component.
proof fn lemma_axis_dot(dx: int, dy: int, dz: int)
    requires
        i64::MIN as int <= dx <= i64::MAX as int,
        i64::MIN as int <= dy <= i64::MAX as int,
        i64::MIN as int <= dz <= i64::MAX as int,
    ensures
        dot3i(dx, dy, dz, FX_SCALE as int, 0, 0) == dx,
        dot3i(dx, dy, dz, 0, FX_SCALE as int, 0) == dy,
        dot3i(dx, dy, dz, 0, 0, FX_SCALE as int) == dz,
{
    lemma_times_scale(dx);
    lemma_times_scale(dy);
    lemma_times_scale(dz);
    assert(fx_mul(dx, 0) == 0 && fx_mul(dy, 0) == 0 && fx_mul(dz, 0) == 0) by (nonlinear_arith);
}


pub struct Cube {
    pub box_min: Point,
    pub box_max: Point,
    pub sides: crate::hittable::HittableList,
}

impl Cube {
    /// A box composed of six axis-aligned rectangles sharing one material.
    pub fn new(p0: &Point, p1: &Point, mat: usize) -> (r: Cube)
        ensures
            r.box_min == *p0 && r.box_max == *p1,
            r.sides.objects@.len() == 6,
            forall|n: int|
                (mat as int) < n ==> crate::hittable::wf_olist(r.sides.objects@, n),
            crate::hittable::bounded_olist(r.sides.objects@),
            *r.sides.objects@[0] == crate::hittable::Hittable::RectXY(
                XY { mp: mat, x: (p0.x, p1.x), y: (p0.y, p1.y), k: p0.z },
            ),
            *r.sides.objects@[1] == crate::hittable::Hittable::RectXZ(
                XZ { mp: mat, x: (p0.x, p1.x), z: (p0.z, p1.z), k: p0.y },
            ),
            *r.sides.objects@[2] == crate::hittable::Hittable::RectYZ(
                YZ { mp: mat, y: (p0.y, p1.y), z: (p0.z, p1.z), k: p0.x },
            ),
            *r.sides.objects@[3] == crate::hittable::Hittable::RectXY(
                XY { mp: mat, x: (p0.x, p1.x), y: (p0.y, p1.y), k: p1.z },
            ),
            *r.sides.objects@[4] == crate::hittable::Hittable::RectXZ(
                XZ { mp: mat, x: (p0.x, p1.x), z: (p0.z, p1.z), k: p1.y },
            ),
            *r.sides.objects@[5] == crate::hittable::Hittable::RectYZ(
                YZ { mp: mat, y: (p0.y, p1.y), z: (p0.z, p1.z), k: p1.x },
            ),
    {
        let mut sides = crate::hittable::HittableList::with_capacity(6);
        sides.add(crate::hittable::Hittable::RectXY(XY::new(mat, (p0.x, p1.x), (p0.y, p1.y), p0.z)));
        sides.add(crate::hittable::Hittable::RectXZ(XZ::new(mat, (p0.x, p1.x), (p0.z, p1.z), p0.y)));
        sides.add(crate::hittable::Hittable::RectYZ(YZ::new(mat, (p0.y, p1.y), (p0.z, p1.z), p0.x)));
        sides.add(crate::hittable::Hittable::RectXY(XY::new(mat, (p0.x, p1.x), (p0.y, p1.y), p1.z)));
        sides.add(crate::hittable::Hittable::RectXZ(XZ::new(mat, (p0.x, p1.x), (p0.z, p1.z), p1.y)));
        sides.add(crate::hittable::Hittable::RectYZ(YZ::new(mat, (p0.y, p1.y), (p0.z, p1.z), p1.x)));
        proof {
            assert forall|n: int| (mat as int) < n implies crate::hittable::wf_olist(
                sides.objects@,
                n,
            ) by {
                assert forall|j: int| 0 <= j < sides.objects@.len() implies crate::hittable::wf_hittable(
                    *#[trigger] sides.objects@[j],
                    n,
                ) by {}
            }
            assert forall|j: int| 0 <= j < sides.objects@.len() implies crate::hittable::bounded_tree(
                *#[trigger] sides.objects@[j],
            ) by {}
        }
        Cube { box_min: *p0, box_max: *p1, sides }
    }
}

} // verus!
