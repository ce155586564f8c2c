//! Three-component vectors over the fixed-point scalar.
//!
//! `Vec3` doubles as a point and as a color, as the aliases say.  Every
//! operation is pinned componentwise to the fixed-point spec functions, so
//! that geometric contracts higher up can speak about exact values.

use vstd::prelude::*;

verus! {

use crate::fixed::{Fx, FX_SCALE, fx_add, fx_sub, fx_neg, fx_mul, fx_div, fx_sqrt_val};
use crate::rng::Prng;

/// Below this many millionths a component counts as zero.
pub const NEAR_ZERO_MICROS: i64 = 1;

#[derive(Clone, Copy, Debug, PartialEq, Eq, Structural)]
pub struct Vec3 {
    pub x: Fx,
    pub y: Fx,
    pub z: Fx,
}

pub type Point = Vec3;

pub type Color = Vec3;

/// The fixed-point dot product, saturating step by step in evaluation order.
pub open spec fn dot3(a: Vec3, b: Vec3) -> int {
    fx_add(fx_add(fx_mul(a.x@, b.x@), fx_mul(a.y@, b.y@)), fx_mul(a.z@, b.z@))
}

/// The squared length of a vector.
pub open spec fn len_sq3(a: Vec3) -> int {
    dot3(a, a)
}

/// A scalar from its fixed-point value, for building vectors in
/// specifications.
pub open spec fn to_fx(v: int) -> Fx {
    Fx { micros: v as i64 }
}

/// The fixed-point normalization of a vector, as a value.
pub open spec fn unit3(v: Vec3) -> Vec3 {
    let l = fx_sqrt_val(len_sq3(v));
    Vec3 { x: to_fx(fx_div(v.x@, l)), y: to_fx(fx_div(v.y@, l)), z: to_fx(fx_div(v.z@, l)) }
}

/// A color with every channel inside the unit interval.
pub open spec fn color01(c: Vec3) -> bool {
    0 <= c.x@ <= FX_SCALE as int && 0 <= c.y@ <= FX_SCALE as int && 0 <= c.z@ <= FX_SCALE as int
}

/// Whether all three components agree with the given values.
pub open spec fn is_v3(r: Vec3, x: int, y: int, z: int) -> bool {
    r.x@ == x && r.y@ == y && r.z@ == z
}

/// A square is never negative, even after rescaling.
pub proof fn lemma_fx_square_nonneg(c: int)
    ensures
        fx_mul(c, c) >= 0,
{
    assert(c * c >= 0) by (nonlinear_arith);
}

/// A squared length is never negative.
pub proof fn lemma_len_sq_nonneg(a: Vec3)
    ensures
        len_sq3(a) >= 0,
{
    lemma_fx_square_nonneg(a.x@);
    lemma_fx_square_nonneg(a.y@);
    lemma_fx_square_nonneg(a.z@);
}

impl Vec3 {
    pub fn new(x: Fx, y: Fx, z: Fx) -> (r: Vec3)
        ensures
            r.x == x && r.y == y && r.z == z,
    {
        Vec3 { x, y, z }
    }

    /// Build a vector from raw counts of millionths.
    pub fn from_micros(x: i64, y: i64, z: i64) -> (r: Vec3)
        ensures
            is_v3(r, x as int, y as int, z as int),
    {
        Vec3 { x: Fx::from_micros(x), y: Fx::from_micros(y), z: Fx::from_micros(z) }
    }

    /// Build a vector from whole units, saturating.
    pub fn from_whole(x: i64, y: i64, z: i64) -> (r: Vec3)
        ensures
            is_v3(
                r,
                crate::fixed::sat64(x * FX_SCALE as int),
                crate::fixed::sat64(y * FX_SCALE as int),
                crate::fixed::sat64(z * FX_SCALE as int),
            ),
    {
        Vec3 { x: Fx::from_whole(x), y: Fx::from_whole(y), z: Fx::from_whole(z) }
    }

    pub fn zeros() -> (r: Vec3)
        ensures
            is_v3(r, 0, 0, 0),
    {
        Vec3 { x: Fx::zero(), y: Fx::zero(), z: Fx::zero() }
    }

    pub fn ones() -> (r: Vec3)
        ensures
            is_v3(r, FX_SCALE as int, FX_SCALE as int, FX_SCALE as int),
    {
        Vec3 { x: Fx::one(), y: Fx::one(), z: Fx::one() }
    }

    pub fn x(&self) -> (r: Fx)
        ensures
            r == self.x,
    {
        self.x
    }

    pub fn y(&self) -> (r: Fx)
        ensures
            r == self.y,
    {
        self.y
    }

    pub fn z(&self) -> (r: Fx)
        ensures
            r == self.z,
    {
        self.z
    }

    pub fn add(self, o: Vec3) -> (r: Vec3)
        ensures
            is_v3(r, fx_add(self.x@, o.x@), fx_add(self.y@, o.y@), fx_add(self.z@, o.z@)),
    {
        Vec3 { x: self.x.add(o.x), y: self.y.add(o.y), z: self.z.add(o.z) }
    }

    pub fn sub(self, o: Vec3) -> (r: Vec3)
        ensures
            is_v3(r, fx_sub(self.x@, o.x@), fx_sub(self.y@, o.y@), fx_sub(self.z@, o.z@)),
    {
        Vec3 { x: self.x.sub(o.x), y: self.y.sub(o.y), z: self.z.sub(o.z) }
    }

    pub fn neg(self) -> (r: Vec3)
        ensures
            is_v3(r, fx_neg(self.x@), fx_neg(self.y@), fx_neg(self.z@)),
    {
        Vec3 { x: self.x.neg(), y: self.y.neg(), z: self.z.neg() }
    }

    /// Componentwise product, the color-modulation operation.
    pub fn mul(self, o: Vec3) -> (r: Vec3)
        ensures
            is_v3(r, fx_mul(self.x@, o.x@), fx_mul(self.y@, o.y@), fx_mul(self.z@, o.z@)),
    {
        Vec3 { x: self.x.mul(o.x), y: self.y.mul(o.y), z: self.z.mul(o.z) }
    }

    pub fn scale(self, t: Fx) -> (r: Vec3)
        ensures
            is_v3(r, fx_mul(self.x@, t@), fx_mul(self.y@, t@), fx_mul(self.z@, t@)),
    {
        Vec3 { x: self.x.mul(t), y: self.y.mul(t), z: self.z.mul(t) }
    }

    pub fn div_by(self, t: Fx) -> (r: Vec3)
        ensures
            is_v3(r, fx_div(self.x@, t@), fx_div(self.y@, t@), fx_div(self.z@, t@)),
    {
        Vec3 { x: self.x.div(t), y: self.y.div(t), z: self.z.div(t) }
    }

    pub fn dot(&self, o: &Vec3) -> (r: Fx)
        ensures
            r@ == dot3(*self, *o),
    {
        self.x.mul(o.x).add(self.y.mul(o.y)).add(self.z.mul(o.z))
    }

    pub fn cross(&self, o: &Vec3) -> (r: Vec3)
        ensures
            is_v3(
                r,
                fx_sub(fx_mul(self.y@, o.z@), fx_mul(self.z@, o.y@)),
                fx_sub(fx_mul(self.z@, o.x@), fx_mul(self.x@, o.z@)),
                fx_sub(fx_mul(self.x@, o.y@), fx_mul(self.y@, o.x@)),
            ),
    {
        Vec3 {
            x: self.y.mul(o.z).sub(self.z.mul(o.y)),
            y: self.z.mul(o.x).sub(self.x.mul(o.z)),
            z: self.x.mul(o.y).sub(self.y.mul(o.x)),
        }
    }

    pub fn length_squared(&self) -> (r: Fx)
        ensures
            r@ == len_sq3(*self),
            r@ >= 0,
    {
        proof {
            lemma_len_sq_nonneg(*self);
        }
        self.dot(self)
    }

    pub fn length(&self) -> (r: Fx)
        ensures
            r@ == fx_sqrt_val(len_sq3(*self)),
            r@ >= 0,
    {
        let ls = self.length_squared();
        let r = ls.sqrt();
        proof {
            if ls@ > 0 {
                assert(r@ >= 0);
            }
        }
        r
    }

    /// The direction scaled to unit length, in fixed point: each component
    /// divided by the fixed-point length.  A zero vector stays zero.
    pub fn unit_vector(&self) -> (r: Vec3)
        ensures
            ({
                let l = fx_sqrt_val(len_sq3(*self));
                is_v3(r, fx_div(self.x@, l), fx_div(self.y@, l), fx_div(self.z@, l))
            }),
            r == unit3(*self),
    {
        let l = self.length();
        let r = self.div_by(l);
        proof {
            assert(r.x == to_fx(r.x@) && r.y == to_fx(r.y@) && r.z == to_fx(r.z@));
        }
        r
    }

    /// Whether every component is below the resolution threshold in
    /// magnitude.
    pub fn near_zero(&self) -> (r: bool)
        ensures
            r == (-(NEAR_ZERO_MICROS as int) < self.x@ < NEAR_ZERO_MICROS as int
                && -(NEAR_ZERO_MICROS as int) < self.y@ < NEAR_ZERO_MICROS as int && -(
            NEAR_ZERO_MICROS as int) < self.z@ < NEAR_ZERO_MICROS as int),
    {
        let e = NEAR_ZERO_MICROS;
        let xm = self.x.to_micros();
        let ym = self.y.to_micros();
        let zm = self.z.to_micros();
        -e < xm && xm < e && -e < ym && ym < e && -e < zm && zm < e
    }

    /// Mirror reflection about a normal: `v - 2·(v·n)·n`, stepwise in fixed
    /// point.
    pub fn reflect(&self, n: &Vec3) -> (r: Vec3)
        ensures
            ({
                let d2 = fx_mul(2 * FX_SCALE as int, dot3(*self, *n));
                is_v3(
                    r,
                    fx_sub(self.x@, fx_mul(n.x@, d2)),
                    fx_sub(self.y@, fx_mul(n.y@, d2)),
                    fx_sub(self.z@, fx_mul(n.z@, d2)),
                )
            }),
            r == reflect3(*self, *n),
    {
        let d2 = Fx::from_micros(2 * FX_SCALE).mul(self.dot(n));
        let r = self.sub(n.scale(d2));
        proof {
            assert(r == reflect3(*self, *n));
        }
        r
    }
}

/// The componentwise negation of a vector, as a value.
pub open spec fn v3_neg(v: Vec3) -> Vec3 {
    Vec3 { x: to_fx(fx_neg(v.x@)), y: to_fx(fx_neg(v.y@)), z: to_fx(fx_neg(v.z@)) }
}

/// The componentwise sum of two vectors, as a value.
pub open spec fn v3_add(a: Vec3, b: Vec3) -> Vec3 {
    Vec3 {
        x: to_fx(fx_add(a.x@, b.x@)),
        y: to_fx(fx_add(a.y@, b.y@)),
        z: to_fx(fx_add(a.z@, b.z@)),
    }
}

/// The componentwise difference of two vectors, as a value.
pub open spec fn v3_sub(a: Vec3, b: Vec3) -> Vec3 {
    Vec3 {
        x: to_fx(fx_sub(a.x@, b.x@)),
        y: to_fx(fx_sub(a.y@, b.y@)),
        z: to_fx(fx_sub(a.z@, b.z@)),
    }
}

/// A vector scaled by a fixed-point factor, as a value.
pub open spec fn v3_scale(a: Vec3, t: int) -> Vec3 {
    Vec3 { x: to_fx(fx_mul(a.x@, t)), y: to_fx(fx_mul(a.y@, t)), z: to_fx(fx_mul(a.z@, t)) }
}

/// Mirror reflection about a normal, as a value: `v - 2·(v·n)·n`,
/// stepwise in fixed point.
pub open spec fn reflect3(v: Vec3, n: Vec3) -> Vec3 {
    let d2 = fx_mul(2 * FX_SCALE as int, dot3(v, n));
    Vec3 {
        x: to_fx(fx_sub(v.x@, fx_mul(n.x@, d2))),
        y: to_fx(fx_sub(v.y@, fx_mul(n.y@, d2))),
        z: to_fx(fx_sub(v.z@, fx_mul(n.z@, d2))),
    }
}

/// Whether every component is below the resolution threshold in magnitude.
pub open spec fn near_zero3(v: Vec3) -> bool {
    -(NEAR_ZERO_MICROS as int) < v.x@ < NEAR_ZERO_MICROS as int && -(NEAR_ZERO_MICROS as int)
        < v.y@ < NEAR_ZERO_MICROS as int && -(NEAR_ZERO_MICROS as int) < v.z@
        < NEAR_ZERO_MICROS as int
}

/// The cosine term of a refraction: `(-uv)·n`, capped at one.
pub open spec fn refract_cos(uv: Vec3, n: Vec3) -> int {
    let c = fx_add(
        fx_add(fx_mul(fx_neg(uv.x@), n.x@), fx_mul(fx_neg(uv.y@), n.y@)),
        fx_mul(fx_neg(uv.z@), n.z@),
    );
    if c < FX_SCALE as int {
        c
    } else {
        FX_SCALE as int
    }
}

/// The component of a refracted ray perpendicular to the normal:
/// `eta · (uv + cos·n)`.
pub open spec fn refract_perp(uv: Vec3, n: Vec3, eta: int) -> (int, int, int) {
    let c = refract_cos(uv, n);
    (
        fx_mul(fx_add(uv.x@, fx_mul(n.x@, c)), eta),
        fx_mul(fx_add(uv.y@, fx_mul(n.y@, c)), eta),
        fx_mul(fx_add(uv.z@, fx_mul(n.z@, c)), eta),
    )
}

/// A refracted direction by Snell's law, stepwise in fixed point.
pub open spec fn refract3(uv: Vec3, n: Vec3, eta: int) -> (int, int, int) {
    let (px, py, pz) = refract_perp(uv, n, eta);
    let ls = fx_add(fx_add(fx_mul(px, px), fx_mul(py, py)), fx_mul(pz, pz));
    let t = fx_sub(FX_SCALE as int, ls);
    let ta = if t >= 0 {
        t
    } else {
        crate::fixed::sat64(-t)
    };
    let tp = fx_neg(fx_sqrt_val(ta));
    (fx_add(px, fx_mul(n.x@, tp)), fx_add(py, fx_mul(n.y@, tp)), fx_add(pz, fx_mul(n.z@, tp)))
}

impl Vec3 {
    /// Refract a unit direction about a unit normal with the given ratio of
    /// refractive indices.
    pub fn refract(&self, n: &Vec3, etai_over_etat: Fx) -> (r: Vec3)
        ensures
            ({
                let (rx, ry, rz) = refract3(*self, *n, etai_over_etat@);
                is_v3(r, rx, ry, rz)
            }),
    {
        let cos_raw = self.neg().dot(n);
        let one = Fx::one();
        let cos_theta = if cos_raw.lt(&one) {
            cos_raw
        } else {
            one
        };
        let r_out_perp = self.add(n.scale(cos_theta)).scale(etai_over_etat);
        let t = one.sub(r_out_perp.length_squared());
        let tp = t.abs().sqrt().neg();
        let r_out_parallel = n.scale(tp);
        r_out_perp.add(r_out_parallel)
    }

    /// A draw with each component uniform in `[lo, hi)` millionths.
    pub fn random_range(p: &mut Prng, lo: i64, hi: i64) -> (r: Vec3)
        ensures
            lo < hi ==> lo as int <= r.x@ < hi as int && lo as int <= r.y@ < hi as int
                && lo as int <= r.z@ < hi as int,
    {
        let x = p.next_micros_in(lo, hi);
        let y = p.next_micros_in(lo, hi);
        let z = p.next_micros_in(lo, hi);
        Vec3::from_micros(x, y, z)
    }

    /// A rejection-sampled point strictly inside the unit sphere and away
    /// from the origin.  After a bounded number of failed draws a fixed
    /// interior point is returned.
    pub fn random_in_unit_sphere(p: &mut Prng) -> (r: Vec3)
        ensures
            0 < len_sq3(r) < FX_SCALE as int,
    {
        let mut tries: usize = 0;
        while tries < 64
            invariant
                true,
            decreases 64 - tries,
        {
            let v = Vec3::random_range(p, -(FX_SCALE - 1), FX_SCALE);
            let ls = v.length_squared();
            if 0 < ls.to_micros() && ls.to_micros() < FX_SCALE {
                return v;
            }
            tries = tries + 1;
        }
        let f = Vec3::from_micros(FX_SCALE / 2, 0, 0);
        proof {
            assert(f.x@ * f.x@ == 250_000_000_000 && f.y@ * f.y@ == 0 && f.z@ * f.z@ == 0)
                by (nonlinear_arith)
                requires
                    f.x@ == 500_000 && f.y@ == 0 && f.z@ == 0,
            ;
            assert(len_sq3(f) == 250_000);
        }
        f
    }

    /// A unit-length direction sampled uniformly enough for diffuse
    /// scattering: a point inside the unit sphere, normalized.
    pub fn random_unit_vector(p: &mut Prng) -> (r: Vec3)
        ensures
            exists|v: Vec3| #[trigger] is_unit_of(r, v),
    {
        let v = Vec3::random_in_unit_sphere(p);
        let r = v.unit_vector();
        proof {
            assert(is_unit_of(r, v));
        }
        r
    }

}

/// Whether `r` is the fixed-point normalization of a point `v` strictly
/// inside the unit sphere.
pub open spec fn is_unit_of(r: Vec3, v: Vec3) -> bool {
    let l = fx_sqrt_val(len_sq3(v));
    0 < len_sq3(v) < FX_SCALE as int && is_v3(r, fx_div(v.x@, l), fx_div(v.y@, l), fx_div(v.z@, l))
}

impl Vec3 {
    /// A point inside the unit sphere, flipped into the half space of the
    /// given normal when needed: against a normal of moderate magnitude the
    /// returned point never faces away from it.
    pub fn random_in_hemisphere(p: &mut Prng, normal: &Vec3) -> (r: Vec3)
        ensures
            -(FX_SCALE as int) < r.x@ < FX_SCALE as int,
            -(FX_SCALE as int) < r.y@ < FX_SCALE as int,
            -(FX_SCALE as int) < r.z@ < FX_SCALE as int,
            0 < len_sq3(r) < FX_SCALE as int,
            (-0x2000_0000_0000_0000 <= normal.x@ <= 0x2000_0000_0000_0000
                && -0x2000_0000_0000_0000 <= normal.y@ <= 0x2000_0000_0000_0000
                && -0x2000_0000_0000_0000 <= normal.z@ <= 0x2000_0000_0000_0000) ==> dot3(
                *normal,
                r,
            ) >= 0,
    {
        let in_unit = Vec3::random_in_unit_sphere(p);
        proof {
            lemma_in_sphere_components(in_unit);
        }
        if normal.dot(&in_unit).to_micros() > 0 {
            in_unit
        } else {
            let f = in_unit.neg();
            proof {
                lemma_neg_len_sq(in_unit, f);
                if -0x2000_0000_0000_0000 <= normal.x@ <= 0x2000_0000_0000_0000
                    && -0x2000_0000_0000_0000 <= normal.y@ <= 0x2000_0000_0000_0000
                    && -0x2000_0000_0000_0000 <= normal.z@ <= 0x2000_0000_0000_0000 {
                    lemma_dot_flip(*normal, in_unit, f);
                }
            }
            f
        }
    }

    /// A point inside the unit disk of the lens plane: `z` is zero.
    pub fn random_in_unit_disk(p: &mut Prng) -> (r: Vec3)
        ensures
            r.z@ == 0,
            len_sq3(r) < FX_SCALE as int,
    {
        let mut tries: usize = 0;
        while tries < 64
            invariant
                true,
            decreases 64 - tries,
        {
            let x = p.next_micros_in(-(FX_SCALE - 1), FX_SCALE);
            let y = p.next_micros_in(-(FX_SCALE - 1), FX_SCALE);
            let v = Vec3::from_micros(x, y, 0);
            let ls = v.length_squared();
            if ls.to_micros() < FX_SCALE {
                return v;
            }
            tries = tries + 1;
        }
        let f = Vec3::from_micros(0, 0, 0);
        proof {
            assert(f.x@ * f.x@ == 0 && f.y@ * f.y@ == 0 && f.z@ * f.z@ == 0) by (nonlinear_arith)
                requires
                    f.x@ == 0 && f.y@ == 0 && f.z@ == 0,
            ;
            assert(len_sq3(f) == 0);
        }
        f
    }
}

/// Against a normal of moderate magnitude, negating a point of the unit
/// ball negates the dot product exactly: no product or partial sum can
/// saturate.
proof fn lemma_dot_flip(n: Vec3, v: Vec3, f: Vec3)
    requires
        -0x2000_0000_0000_0000 <= n.x@ <= 0x2000_0000_0000_0000,
        -0x2000_0000_0000_0000 <= n.y@ <= 0x2000_0000_0000_0000,
        -0x2000_0000_0000_0000 <= n.z@ <= 0x2000_0000_0000_0000,
        -(FX_SCALE as int) < v.x@ < FX_SCALE as int,
        -(FX_SCALE as int) < v.y@ < FX_SCALE as int,
        -(FX_SCALE as int) < v.z@ < FX_SCALE as int,
        f.x@ == fx_neg(v.x@),
        f.y@ == fx_neg(v.y@),
        f.z@ == fx_neg(v.z@),
    ensures
        dot3(n, f) == -dot3(n, v),
{
    lemma_term_flip(n.x@, v.x@);
    lemma_term_flip(n.y@, v.y@);
    lemma_term_flip(n.z@, v.z@);
}

/// One product term of the flipped dot product: exactly the negated term,
/// within a quarter of the saturation range.
proof fn lemma_term_flip(a: int, b: int)
    requires
        -0x2000_0000_0000_0000 <= a <= 0x2000_0000_0000_0000,
        -(FX_SCALE as int) < b < FX_SCALE as int,
    ensures
        fx_mul(a, -b) == -fx_mul(a, b),
        -0x2000_0000_0000_0000 <= fx_mul(a, b) <= 0x2000_0000_0000_0000,
{
    assert(a * (-b) == -(a * b)) by (nonlinear_arith);
    assert(-0x2000_0000_0000_0000 * 1_000_000 <= a * b <= 0x2000_0000_0000_0000 * 1_000_000)
        by (nonlinear_arith)
        requires
            -0x2000_0000_0000_0000 <= a <= 0x2000_0000_0000_0000,
            -1_000_000 < b < 1_000_000,
    ;
    assert(crate::fixed::divp_trunc(-(a * b), 1_000_000) == -crate::fixed::divp_trunc(
        a * b,
        1_000_000,
    ));
    assert(-0x2000_0000_0000_0000 <= crate::fixed::divp_trunc(a * b, 1_000_000)
        <= 0x2000_0000_0000_0000) by (nonlinear_arith)
        requires
            -0x2000_0000_0000_0000 * 1_000_000 <= a * b <= 0x2000_0000_0000_0000 * 1_000_000,
    ;
}

/// Negating a vector whose components lie strictly inside the unit
/// interval keeps its squared length.
proof fn lemma_neg_len_sq(v: Vec3, f: Vec3)
    requires
        -(FX_SCALE as int) < v.x@ < FX_SCALE as int,
        -(FX_SCALE as int) < v.y@ < FX_SCALE as int,
        -(FX_SCALE as int) < v.z@ < FX_SCALE as int,
        f.x@ == fx_neg(v.x@),
        f.y@ == fx_neg(v.y@),
        f.z@ == fx_neg(v.z@),
    ensures
        len_sq3(f) == len_sq3(v),
{
    assert(f.x@ == -v.x@ && f.y@ == -v.y@ && f.z@ == -v.z@);
    assert((-v.x@) * (-v.x@) == v.x@ * v.x@ && (-v.y@) * (-v.y@) == v.y@ * v.y@ && (-v.z@) * (
    -v.z@) == v.z@ * v.z@) by (nonlinear_arith);
}

/// A point strictly inside the unit sphere has every component strictly
/// inside the unit interval.
proof fn lemma_in_sphere_components(v: Vec3)
    requires
        len_sq3(v) < FX_SCALE as int,
    ensures
        -(FX_SCALE as int) < v.x@ < FX_SCALE as int,
        -(FX_SCALE as int) < v.y@ < FX_SCALE as int,
        -(FX_SCALE as int) < v.z@ < FX_SCALE as int,
{
    lemma_fx_square_nonneg(v.x@);
    lemma_fx_square_nonneg(v.y@);
    lemma_fx_square_nonneg(v.z@);
    lemma_big_square(v.x@);
    lemma_big_square(v.y@);
    lemma_big_square(v.z@);
}

/// A component at or beyond one unit in magnitude has a rescaled square of
/// at least one unit.
proof fn lemma_big_square(c: int)
    ensures
        (c >= FX_SCALE as int || c <= -(FX_SCALE as int)) ==> fx_mul(c, c) >= FX_SCALE as int,
{
    if c >= FX_SCALE as int || c <= -(FX_SCALE as int) {
        assert(c * c >= 1_000_000_000_000) by (nonlinear_arith)
            requires
                c >= 1_000_000 || c <= -1_000_000,
        ;
        assert(c * c / 1_000_000 >= 1_000_000);
    }
}

} // verus!
