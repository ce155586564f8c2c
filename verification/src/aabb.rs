//! Axis-aligned bounding boxes with the slab intersection test.

use vstd::prelude::*;

verus! {

use crate::fixed::{Fx, FX_SCALE, fx_sub, fx_div, sat64};
use crate::ray::Ray;
use crate::vec3::{Point, Vec3};

#[derive(Clone, Copy, Debug, PartialEq, Eq, Structural)]
pub struct Aabb {
    pub minimum: Point,
    pub maximum: Point,
}

/// A well-formed box: the minimum corner is below the maximum corner on
/// every axis.
pub open spec fn box_wf(b: Aabb) -> bool {
    b.minimum.x@ <= b.maximum.x@ && b.minimum.y@ <= b.maximum.y@ && b.minimum.z@ <= b.maximum.z@
}

/// The smaller of two fixed-point values.
pub open spec fn imin(a: int, b: int) -> int {
    if a <= b {
        a
    } else {
        b
    }
}

/// The larger of two fixed-point values.
pub open spec fn imax(a: int, b: int) -> int {
    if a >= b {
        a
    } else {
        b
    }
}

/// The least box containing two boxes, as a value: componentwise minimum
/// of the minima and maximum of the maxima.
pub open spec fn box_union(a: Aabb, b: Aabb) -> Aabb {
    Aabb {
        minimum: Vec3 {
            x: crate::vec3::to_fx(imin(a.minimum.x@, b.minimum.x@)),
            y: crate::vec3::to_fx(imin(a.minimum.y@, b.minimum.y@)),
            z: crate::vec3::to_fx(imin(a.minimum.z@, b.minimum.z@)),
        },
        maximum: Vec3 {
            x: crate::vec3::to_fx(imax(a.maximum.x@, b.maximum.x@)),
            y: crate::vec3::to_fx(imax(a.maximum.y@, b.maximum.y@)),
            z: crate::vec3::to_fx(imax(a.maximum.z@, b.maximum.z@)),
        },
    }
}

/// Whether the outer box contains the inner one on every axis.
pub open spec fn box_contains(outer: Aabb, inner: Aabb) -> bool {
    outer.minimum.x@ <= inner.minimum.x@ && outer.minimum.y@ <= inner.minimum.y@
        && outer.minimum.z@ <= inner.minimum.z@ && inner.maximum.x@ <= outer.maximum.x@
        && inner.maximum.y@ <= outer.maximum.y@ && inner.maximum.z@ <= outer.maximum.z@
}

/// The union of two boxes contains each of them.
pub proof fn lemma_union_contains(a: Aabb, b: Aabb)
    ensures
        box_contains(box_union(a, b), a),
        box_contains(box_union(a, b), b),
{
}

/// Box containment is transitive.
pub proof fn lemma_contains_trans(a: Aabb, b: Aabb, c: Aabb)
    requires
        box_contains(a, b),
        box_contains(b, c),
    ensures
        box_contains(a, c),
{
}

/// Narrow a running parameter interval by one slab: solve for the two plane
/// crossings, order them by the direction's sign, and intersect.
pub open spec fn slab_narrow(mn: int, mx: int, org: int, dir: int, tmin: int, tmax: int) -> (
    int,
    int,
) {
    let t0 = fx_div(fx_sub(mn, org), dir);
    let t1 = fx_div(fx_sub(mx, org), dir);
    let lo = if dir < 0 {
        t1
    } else {
        t0
    };
    let hi = if dir < 0 {
        t0
    } else {
        t1
    };
    (
        if lo > tmin {
            lo
        } else {
            tmin
        },
        if hi < tmax {
            hi
        } else {
            tmax
        },
    )
}

/// The slab test over all three axes, short-circuiting when the interval
/// empties.
pub open spec fn aabb_hit_spec(b: Aabb, r: Ray, tmin: int, tmax: int) -> bool {
    let (n1, x1) = slab_narrow(b.minimum.x@, b.maximum.x@, r.orig.x@, r.dir.x@, tmin, tmax);
    if x1 <= n1 {
        false
    } else {
        let (n2, x2) = slab_narrow(b.minimum.y@, b.maximum.y@, r.orig.y@, r.dir.y@, n1, x1);
        if x2 <= n2 {
            false
        } else {
            let (n3, x3) = slab_narrow(b.minimum.z@, b.maximum.z@, r.orig.z@, r.dir.z@, n2, x2);
            x3 > n3
        }
    }
}

impl Aabb {
    pub fn new(minimum: Point, maximum: Point) -> (r: Aabb)
        ensures
            r.minimum == minimum && r.maximum == maximum,
    {
        Aabb { minimum, maximum }
    }

    /// Get a reference to the box's minimum corner.
    pub fn min(&self) -> (r: &Point)
        ensures
            *r == self.minimum,
    {
        &self.minimum
    }

    /// Get a reference to the box's maximum corner.
    pub fn max(&self) -> (r: &Point)
        ensures
            *r == self.maximum,
    {
        &self.maximum
    }

    /// Whether the ray crosses the box within the parameter interval,
    /// by the per-axis slab test.
    pub fn hit(&self, r: &Ray, t_min: Fx, t_max: Fx) -> (res: bool)
        ensures
            res == aabb_hit_spec(*self, *r, t_min@, t_max@),
    {
        let mut tn = t_min;
        let mut tx = t_max;

        let t0 = self.minimum.x.sub(r.orig.x).div(r.dir.x);
        let t1 = self.maximum.x.sub(r.orig.x).div(r.dir.x);
        let (lo, hi) = if r.dir.x.to_micros() < 0 {
            (t1, t0)
        } else {
            (t0, t1)
        };
        tn = lo.max(tn);
        tx = hi.min(tx);
        if tx.to_micros() <= tn.to_micros() {
            return false;
        }
        let t0 = self.minimum.y.sub(r.orig.y).div(r.dir.y);
        let t1 = self.maximum.y.sub(r.orig.y).div(r.dir.y);
        let (lo, hi) = if r.dir.y.to_micros() < 0 {
            (t1, t0)
        } else {
            (t0, t1)
        };
        tn = lo.max(tn);
        tx = hi.min(tx);
        if tx.to_micros() <= tn.to_micros() {
            return false;
        }
        let t0 = self.minimum.z.sub(r.orig.z).div(r.dir.z);
        let t1 = self.maximum.z.sub(r.orig.z).div(r.dir.z);
        let (lo, hi) = if r.dir.z.to_micros() < 0 {
            (t1, t0)
        } else {
            (t0, t1)
        };
        tn = lo.max(tn);
        tx = hi.min(tx);
        tx.to_micros() > tn.to_micros()
    }

    /// The least box containing both arguments: componentwise minimum of the
    /// minima and maximum of the maxima.  The result contains each input.
    pub fn surrounding_box(box0: &Aabb, box1: &Aabb) -> (r: Aabb)
        ensures
            r.minimum.x@ == if box0.minimum.x@ <= box1.minimum.x@ {
                box0.minimum.x@
            } else {
                box1.minimum.x@
            },
            r.minimum.y@ == if box0.minimum.y@ <= box1.minimum.y@ {
                box0.minimum.y@
            } else {
                box1.minimum.y@
            },
            r.minimum.z@ == if box0.minimum.z@ <= box1.minimum.z@ {
                box0.minimum.z@
            } else {
                box1.minimum.z@
            },
            r.maximum.x@ == if box0.maximum.x@ >= box1.maximum.x@ {
                box0.maximum.x@
            } else {
                box1.maximum.x@
            },
            r.maximum.y@ == if box0.maximum.y@ >= box1.maximum.y@ {
                box0.maximum.y@
            } else {
                box1.maximum.y@
            },
            r.maximum.z@ == if box0.maximum.z@ >= box1.maximum.z@ {
                box0.maximum.z@
            } else {
                box1.maximum.z@
            },
            r == box_union(*box0, *box1),
            box_contains(r, *box0),
            box_contains(r, *box1),
            box_wf(*box0) && box_wf(*box1) ==> box_wf(r),
    {
        let small = Vec3::new(
            box0.minimum.x.min(box1.minimum.x),
            box0.minimum.y.min(box1.minimum.y),
            box0.minimum.z.min(box1.minimum.z),
        );
        let big = Vec3::new(
            box0.maximum.x.max(box1.maximum.x),
            box0.maximum.y.max(box1.maximum.y),
            box0.maximum.z.max(box1.maximum.z),
        );
        let r = Aabb::new(small, big);
        proof {
            assert(r == box_union(*box0, *box1));
        }
        r
    }
}

impl Default for Aabb {
    /// The degenerate box at the origin.
    fn default() -> (r: Aabb)
        ensures
            r.minimum.x@ == 0 && r.minimum.y@ == 0 && r.minimum.z@ == 0,
            r.maximum.x@ == 0 && r.maximum.y@ == 0 && r.maximum.z@ == 0,
    {
        Aabb {
            minimum: Vec3 { x: Fx::from_micros(0), y: Fx::from_micros(0), z: Fx::from_micros(0) },
            maximum: Vec3 { x: Fx::from_micros(0), y: Fx::from_micros(0), z: Fx::from_micros(0) },
        }
    }
}

/// Dividing a fixed-point value by one is the identity.
proof fn lemma_fx_div_by_one(a: int)
    requires
        i64::MIN as int <= a <= i64::MAX as int,
    ensures
        fx_div(a, FX_SCALE as int) == a,
{
    assert(divp_one(a * FX_SCALE as int) == a) by (nonlinear_arith)
        requires
            true,
    ;
    assert(sat64(a) == a);
}

/// Helper: exact division of `a · FX_SCALE` back by `FX_SCALE`.
spec fn divp_one(p: int) -> int {
    crate::fixed::divp_trunc(p, FX_SCALE as int)
}

/// A ray that passes through the interior of a box hits it: sent along the
/// positive x axis from an origin whose y and z lie strictly inside the
/// box, the slab test accepts any interval that straddles the crossing of
/// the box's x extent.  This is the slab half of the bounding-box law; the
/// containment half is the `box_contains` clause of `surrounding_box`.
pub proof fn lemma_aabb_hit_through_interior(b: Aabb, r: Ray, tc: int, tmin: int, tmax: int)
    requires
        -0x1000_0000_0000_0000 <= b.minimum.x@ <= 0x1000_0000_0000_0000,
        -0x1000_0000_0000_0000 <= b.maximum.x@ <= 0x1000_0000_0000_0000,
        -0x1000_0000_0000_0000 <= r.orig.x@ <= 0x1000_0000_0000_0000,
        b.minimum.y@ < r.orig.y@ < b.maximum.y@,
        b.minimum.z@ < r.orig.z@ < b.maximum.z@,
        r.dir.x@ == FX_SCALE as int,
        r.dir.y@ == 0,
        r.dir.z@ == 0,
        b.minimum.x@ - r.orig.x@ < tc < b.maximum.x@ - r.orig.x@,
        tmin < tc < tmax,
    ensures
        aabb_hit_spec(b, r, tmin, tmax),
{
    lemma_fx_div_by_one(b.minimum.x@ - r.orig.x@);
    lemma_fx_div_by_one(b.maximum.x@ - r.orig.x@);
    assert(fx_sub(b.minimum.x@, r.orig.x@) == b.minimum.x@ - r.orig.x@);
    assert(fx_sub(b.maximum.x@, r.orig.x@) == b.maximum.x@ - r.orig.x@);
}

} // verus!
