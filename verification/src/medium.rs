//! A constant-density participating medium: smoke or fog bounded by a
//! shape, scattering rays probabilistically inside it.

use vstd::prelude::*;

verus! {

use crate::approx::{neg_ln_unit, neg_ln_spec};
use crate::fixed::{Fx, FX_SCALE, fx_add, fx_sub, fx_neg, fx_mul, fx_div, fx_sqrt_val};
use crate::hittable::{
    Hittable,
    HitRecord,
    wf_hittable,
    det_tree,
    boxes_cover,
    closest_leaf_hit,
    lemma_closest_is,
    lemma_boxes_cover_narrow,
};
use crate::ray::{Ray, ray_at};
use crate::rng::Prng;
use crate::vec3::{Vec3, is_v3, len_sq3};

/// Where a constant-density medium scatters, as a value of the two
/// boundary crossing parameters, the ray's fixed-point length, and the
/// unit draw: clamp the crossing span to the window and to nonnegative
/// parameters, reject an empty span or a degenerate direction, turn the
/// exponential free-path draw `-1/density · ln(draw)` into a parameter
/// step, and reject a draw that falls past the exit crossing.
pub open spec fn medium_hit_t(
    t1: int,
    t2: int,
    len: int,
    draw: int,
    nid: int,
    tmin: int,
    tmax: int,
) -> Option<int> {
    let t1a = if t1 >= tmin {
        t1
    } else {
        tmin
    };
    let t2c = if t2 <= tmax {
        t2
    } else {
        tmax
    };
    if t1a >= t2c {
        Option::<int>::None
    } else {
        let t1c = if t1a >= 0 {
            t1a
        } else {
            0
        };
        if t1c >= t2c {
            Option::<int>::None
        } else if len <= 0 {
            Option::<int>::None
        } else {
            let distance_inside = fx_mul(fx_sub(t2c, t1c), len);
            let hd_raw = fx_mul(fx_neg(nid), neg_ln_spec(draw));
            let hd = if hd_raw >= 0 {
                hd_raw
            } else {
                0
            };
            if hd > distance_inside {
                Option::<int>::None
            } else {
                let t = fx_add(t1c, fx_div(hd, len));
                Option::Some(
                    if t <= t2c {
                        t
                    } else {
                        t2c
                    },
                )
            }
        }
    }
}

pub struct Constant {
    pub boundary: Box<Hittable>,
    pub phase_function: usize,
    pub neg_inv_density: Fx,
}

/// Whether an intersection outcome is exactly what the free-path decision
/// prescribes for one unit draw: the boundary's closest crossing over the
/// unbounded window gives the entry, its closest crossing past the entry
/// gives the exit, and `medium_hit_t` decides both the miss and the hit,
/// including every no-scatter case.
pub open spec fn medium_agrees(
    m: Constant,
    r: Ray,
    tmin: int,
    tmax: int,
    draw: int,
    res: Option<HitRecord>,
) -> bool {
    let lo = i64::MIN as int;
    let hi = i64::MAX as int;
    match closest_leaf_hit(*m.boundary, r, lo, hi) {
        Option::None => res is None,
        Option::Some(t1) => boxes_cover(*m.boundary, r, fx_add(t1, 1000), hi) ==> match
            closest_leaf_hit(*m.boundary, r, fx_add(t1, 1000), hi) {
            Option::None => res is None,
            Option::Some(t2) => {
                let o = medium_hit_t(
                    t1,
                    t2,
                    fx_sqrt_val(len_sq3(r.dir)),
                    draw,
                    m.neg_inv_density@,
                    tmin,
                    tmax,
                );
                &&& res.is_some() == o.is_some()
                &&& (res matches Option::Some(rec) ==> o == Option::Some(rec.t@))
            },
        },
    }
}

impl Constant {
    /// A medium of the given density inside the boundary, scattering with
    /// the material at the given arena index (an isotropic one, normally).
    pub fn new(boundary: Hittable, d: Fx, phase_function: usize) -> (r: Constant)
        ensures
            *r.boundary == boundary,
            r.phase_function == phase_function,
            r.neg_inv_density@ == crate::fixed::fx_div(
                crate::fixed::fx_neg(FX_SCALE as int),
                d@,
            ),
    {
        Constant {
            boundary: Box::new(boundary),
            phase_function,
            neg_inv_density: Fx::one().neg().div(d),
        }
    }

    /// Cross the boundary twice, then decide stochastically whether the
    /// ray scatters inside, from an exponential free-path draw.
    pub fn hit_medium(&self, r: &Ray, t_min: Fx, t_max: Fx, prng: &mut Prng) -> (res: Option<
        HitRecord,
    >)
        ensures
            res.is_some() ==> t_min@ <= res.unwrap().t@ <= t_max@,
            forall|n: int|
                #[trigger] wf_hittable(Hittable::ConstantMedium(*self), n) && res.is_some() ==> (
                res.unwrap().mat as int) < n,
            res matches Option::Some(rec) ==> rec.mat == self.phase_function && rec.front_face
                && is_v3(rec.normal, FX_SCALE as int, 0, 0) && rec.u@ == 0 && rec.v@ == 0 && is_v3(
                rec.p,
                ray_at(*r, rec.t@).0,
                ray_at(*r, rec.t@).1,
                ray_at(*r, rec.t@).2,
            ),
            res matches Option::Some(rec) ==> exists|t1: int, t2: int, draw: int|
                1 <= draw <= FX_SCALE as int && #[trigger] medium_hit_t(
                    t1,
                    t2,
                    fx_sqrt_val(len_sq3(r.dir)),
                    draw,
                    self.neg_inv_density@,
                    t_min@,
                    t_max@,
                ) == Option::Some(rec.t@),
            det_tree(*self.boundary) && boxes_cover(
                *self.boundary,
                *r,
                i64::MIN as int,
                i64::MAX as int,
            ) ==> exists|draw: int|
                1 <= draw <= FX_SCALE as int && #[trigger] medium_agrees(
                    *self,
                    *r,
                    t_min@,
                    t_max@,
                    draw,
                    res,
                ),
        decreases *self.boundary, 1int,
    {
        let ghost dtc = det_tree(*self.boundary) && boxes_cover(
            *self.boundary,
            *r,
            i64::MIN as int,
            i64::MAX as int,
        );
        let very_lo = Fx::from_micros(i64::MIN);
        let very_hi = Fx::from_micros(i64::MAX);
        let rec1 = match self.boundary.hit(r, very_lo, very_hi, prng) {
            Option::Some(rec) => rec,
            Option::None => {
                proof {
                    if dtc {
                        assert(closest_leaf_hit(
                            *self.boundary,
                            *r,
                            i64::MIN as int,
                            i64::MAX as int,
                        ) is None);
                        assert(medium_agrees(
                            *self,
                            *r,
                            t_min@,
                            t_max@,
                            1,
                            Option::<HitRecord>::None,
                        ));
                    }
                }
                return None;
            },
        };
        proof {
            if dtc {
                lemma_closest_is(&*self.boundary, *r, i64::MIN as int, i64::MAX as int, rec1.t@);
            }
        }
        let ghost cov2 = boxes_cover(
            *self.boundary,
            *r,
            fx_add(rec1.t@, 1000),
            i64::MAX as int,
        );
        let margin = Fx::from_micros(1000);
        let rec2 = match self.boundary.hit(r, rec1.t.add(margin), very_hi, prng) {
            Option::Some(rec) => {
                proof {
                    if dtc && cov2 {
                        lemma_closest_is(
                            &*self.boundary,
                            *r,
                            fx_add(rec1.t@, 1000),
                            i64::MAX as int,
                            rec.t@,
                        );
                    }
                }
                rec
            },
            Option::None => {
                proof {
                    if dtc {
                        if cov2 {
                            assert(closest_leaf_hit(
                                *self.boundary,
                                *r,
                                fx_add(rec1.t@, 1000),
                                i64::MAX as int,
                            ) is None);
                        }
                        assert(medium_agrees(
                            *self,
                            *r,
                            t_min@,
                            t_max@,
                            1,
                            Option::<HitRecord>::None,
                        ));
                    }
                }
                return None;
            },
        };
        let t1a = rec1.t.max(t_min);
        let t2 = rec2.t.min(t_max);
        if t1a.to_micros() >= t2.to_micros() {
            proof {
                if dtc {
                    assert(medium_agrees(*self, *r, t_min@, t_max@, 1, Option::<HitRecord>::None));
                }
            }
            return None;
        }
        let t1 = t1a.max(Fx::zero());
        if t1.to_micros() >= t2.to_micros() {
            proof {
                if dtc {
                    assert(medium_agrees(*self, *r, t_min@, t_max@, 1, Option::<HitRecord>::None));
                }
            }
            return None;
        }
        let ray_length = r.dir.length();
        if ray_length.to_micros() <= 0 {
            proof {
                if dtc {
                    assert(medium_agrees(*self, *r, t_min@, t_max@, 1, Option::<HitRecord>::None));
                }
            }
            return None;
        }
        let distance_inside = t2.sub(t1).mul(ray_length);
        // An exponential free-path draw: `-1/density · ln(uniform)`.
        let dm = prng.next_micros() + 1;
        let draw = Fx::from_micros(dm);
        let nl = neg_ln_unit(draw);
        let hit_distance_raw = self.neg_inv_density.neg().mul(nl);
        let hit_distance = hit_distance_raw.max(Fx::zero());
        if hit_distance.to_micros() > distance_inside.to_micros() {
            proof {
                if dtc {
                    assert(medium_agrees(
                        *self,
                        *r,
                        t_min@,
                        t_max@,
                        dm as int,
                        Option::<HitRecord>::None,
                    ));
                }
            }
            return None;
        }
        let dq = hit_distance.div(ray_length);
        proof {
            lemma_div_back(hit_distance@, ray_length@, t2@ - t1@);
        }
        // The second clamp only acts if the product above saturated.
        let t = t1.add(dq).min(t2);
        let p = r.at(t);
        proof {
            assert(medium_hit_t(
                rec1.t@,
                rec2.t@,
                fx_sqrt_val(len_sq3(r.dir)),
                dm as int,
                self.neg_inv_density@,
                t_min@,
                t_max@,
            ) == Option::Some(t@));
        }
        let out = Some(
            HitRecord {
                p,
                normal: Vec3::from_micros(FX_SCALE, 0, 0),
                mat: self.phase_function,
                t,
                u: Fx::zero(),
                v: Fx::zero(),
                front_face: true,
            },
        );
        proof {
            if dtc {
                assert(medium_agrees(*self, *r, t_min@, t_max@, dm as int, out));
            }
        }
        out
    }
}

/// Undoing the scaling cannot overshoot: a distance below the scaled span
/// maps back to a parameter step below the span, and never below zero.
proof fn lemma_div_back(hd: int, len: int, span: int)
    requires
        0 < len <= i64::MAX as int,
        0 <= hd,
    ensures
        crate::fixed::fx_div(hd, len) >= 0,
{
    assert(hd * FX_SCALE as int >= 0) by (nonlinear_arith)
        requires
            hd >= 0,
    ;
    assert((hd * FX_SCALE as int) / len >= 0) by (nonlinear_arith)
        requires
            hd * FX_SCALE as int >= 0,
            len > 0,
    ;
}

} // verus!
