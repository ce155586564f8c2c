//! Perlin gradient noise: a fixed table of random unit gradients and three
//! permutation tables, built once per scene, then read by every noise and
//! turbulence lookup.

use vstd::prelude::*;

verus! {

use crate::cvec::rand_fx_in;
use crate::fixed::{Fx, FX_SCALE, fx_add, fx_sub, fx_mul};
use crate::rng::rand_below;
use crate::vec3::{Point, Vec3, dot3, to_fx};
use crate::approx::floor_div_rem;

/// The wrapped table index of a cell coordinate: the low byte of its
/// two's-complement form, which is the coordinate modulo the table size.
pub open spec fn mask_spec(i: int) -> int {
    i % 256
}

/// The Hermite fade of a fraction, stepwise in fixed point.
pub open spec fn fade_spec(t: int) -> int {
    fx_mul(fx_mul(t, t), fx_sub(3 * FX_SCALE as int, fx_mul(2 * FX_SCALE as int, t)))
}

/// Either the faded weight or its complement, by corner parity.
pub open spec fn corner_weight_spec(sel: int, faded: int) -> int {
    if sel == 1 {
        faded
    } else {
        fx_sub(FX_SCALE as int, faded)
    }
}

/// One corner's contribution to the noise value: the three axis weights
/// times the gradient dotted with the offset from the corner.
pub open spec fn corner_term_spec(
    si: int,
    sj: int,
    sk: int,
    grad: Vec3,
    u: int,
    v: int,
    w: int,
) -> int {
    let wv = Vec3 {
        x: to_fx(fx_sub(u, si * FX_SCALE as int)),
        y: to_fx(fx_sub(v, sj * FX_SCALE as int)),
        z: to_fx(fx_sub(w, sk * FX_SCALE as int)),
    };
    fx_mul(
        fx_mul(
            fx_mul(corner_weight_spec(si, fade_spec(u)), corner_weight_spec(sj, fade_spec(v))),
            corner_weight_spec(sk, fade_spec(w)),
        ),
        dot3(grad, wv),
    )
}

/// The gradient gathered at one corner of a cell: the three permutation
/// tables are read at the wrapped coordinates and combined by exclusive
/// or into an index of the gradient table.
pub open spec fn gather_spec(p: Perlin, ix: int, iy: int, iz: int, di: int, dj: int, dk: int) -> Vec3 {
    let a = mask_spec(ix + di);
    let b = mask_spec(iy + dj);
    let c = mask_spec(iz + dk);
    let idx = (p.perm_x@[a] as u64) ^ (p.perm_y@[b] as u64) ^ (p.perm_z@[c] as u64);
    p.ranvec@[idx as int]
}

/// The smoothed trilinear blend of the eight corner contributions, summed
/// in the fold's order.
pub open spec fn interp_spec(
    c000: Vec3,
    c001: Vec3,
    c010: Vec3,
    c011: Vec3,
    c100: Vec3,
    c101: Vec3,
    c110: Vec3,
    c111: Vec3,
    u: int,
    v: int,
    w: int,
) -> int {
    fx_add(
        fx_add(
            fx_add(
                fx_add(
                    fx_add(
                        fx_add(
                            fx_add(
                                fx_add(0, corner_term_spec(0, 0, 0, c000, u, v, w)),
                                corner_term_spec(0, 0, 1, c001, u, v, w),
                            ),
                            corner_term_spec(0, 1, 0, c010, u, v, w),
                        ),
                        corner_term_spec(0, 1, 1, c011, u, v, w),
                    ),
                    corner_term_spec(1, 0, 0, c100, u, v, w),
                ),
                corner_term_spec(1, 0, 1, c101, u, v, w),
            ),
            corner_term_spec(1, 1, 0, c110, u, v, w),
        ),
        corner_term_spec(1, 1, 1, c111, u, v, w),
    )
}

/// The noise field at a point: split each coordinate into cell and
/// fraction by floor division, gather the eight corner gradients, and
/// interpolate.
pub open spec fn noise_spec(p: Perlin, pt: Vec3) -> int {
    let ix = pt.x@ / (FX_SCALE as int);
    let iy = pt.y@ / (FX_SCALE as int);
    let iz = pt.z@ / (FX_SCALE as int);
    let u = pt.x@ % (FX_SCALE as int);
    let v = pt.y@ % (FX_SCALE as int);
    let w = pt.z@ % (FX_SCALE as int);
    interp_spec(
        gather_spec(p, ix, iy, iz, 0, 0, 0),
        gather_spec(p, ix, iy, iz, 0, 0, 1),
        gather_spec(p, ix, iy, iz, 0, 1, 0),
        gather_spec(p, ix, iy, iz, 0, 1, 1),
        gather_spec(p, ix, iy, iz, 1, 0, 0),
        gather_spec(p, ix, iy, iz, 1, 0, 1),
        gather_spec(p, ix, iy, iz, 1, 1, 0),
        gather_spec(p, ix, iy, iz, 1, 1, 1),
        u,
        v,
        w,
    )
}

/// The octave sum of the turbulence fold after some steps: each octave
/// adds the weighted noise at the running point, halves the weight and
/// doubles the point.
pub open spec fn turb_accum_spec(p: Perlin, pt: Vec3, acc: int, weight: int, depth: nat) -> int
    decreases depth,
{
    if depth == 0 {
        acc
    } else {
        turb_accum_spec(
            p,
            Vec3 {
                x: to_fx(fx_mul(pt.x@, 2 * FX_SCALE as int)),
                y: to_fx(fx_mul(pt.y@, 2 * FX_SCALE as int)),
                z: to_fx(fx_mul(pt.z@, 2 * FX_SCALE as int)),
            },
            fx_add(acc, fx_mul(weight, noise_spec(p, pt))),
            fx_mul(weight, 500_000),
            (depth - 1) as nat,
        )
    }
}

/// Multi-octave turbulence as a value: the magnitude of the octave sum.
pub open spec fn turb_spec(p: Perlin, pt: Vec3, depth: nat) -> int {
    let a = turb_accum_spec(p, pt, 0, FX_SCALE as int, depth);
    if a >= 0 {
        a
    } else {
        crate::fixed::sat64(-a)
    }
}

/// Entries in each table.
pub const POINT_COUNT: usize = 256;

/// Distinct positions of an index table hold distinct entries: together
/// with full length and the range bound this says the table is a
/// permutation of the indices.
pub open spec fn injective_tbl(s: Seq<usize>) -> bool {
    forall|a: int, b: int| 0 <= a < b < s.len() ==> #[trigger] s[a] != #[trigger] s[b]
}

/// Whether every component of a gradient lies inside one unit in
/// magnitude.
pub open spec fn gradient_bounded(v: Vec3) -> bool {
    &&& -(FX_SCALE as int) <= v.x@ <= FX_SCALE as int
    &&& -(FX_SCALE as int) <= v.y@ <= FX_SCALE as int
    &&& -(FX_SCALE as int) <= v.z@ <= FX_SCALE as int
}

/// Well-formed tables: full length, every permutation entry a valid table
/// index, and every gradient component inside one unit in magnitude.
pub open spec fn perlin_wf(p: Perlin) -> bool {
    &&& p.ranvec@.len() == POINT_COUNT as int
    &&& p.perm_x@.len() == POINT_COUNT as int
    &&& p.perm_y@.len() == POINT_COUNT as int
    &&& p.perm_z@.len() == POINT_COUNT as int
    &&& forall|i: int|
        0 <= i < POINT_COUNT as int ==> (#[trigger] p.perm_x@[i]) < POINT_COUNT as int
    &&& forall|i: int|
        0 <= i < POINT_COUNT as int ==> (#[trigger] p.perm_y@[i]) < POINT_COUNT as int
    &&& forall|i: int|
        0 <= i < POINT_COUNT as int ==> (#[trigger] p.perm_z@[i]) < POINT_COUNT as int
    &&& forall|i: int|
        0 <= i < POINT_COUNT as int ==> gradient_bounded(#[trigger] p.ranvec@[i])
}

pub struct Perlin {
    pub ranvec: Vec<Vec3>,
    pub perm_x: Vec<usize>,
    pub perm_y: Vec<usize>,
    pub perm_z: Vec<usize>,
}

impl Perlin {
    /// Fresh random tables: unit-ish gradients and three shuffled index
    /// tables.
    pub fn new() -> (r: Perlin)
        ensures
            perlin_wf(r),
            injective_tbl(r.perm_x@) && injective_tbl(r.perm_y@) && injective_tbl(r.perm_z@),
    {
        let mut ranvec: Vec<Vec3> = Vec::new();
        let mut i: usize = 0;
        while i < POINT_COUNT
            invariant
                i <= POINT_COUNT,
                ranvec@.len() == i,
                forall|j: int| 0 <= j < i ==> gradient_bounded(#[trigger] ranvec@[j]),
            decreases POINT_COUNT - i,
        {
            let lo = Fx::from_micros(-(FX_SCALE - 1));
            let hi = Fx::one();
            let v = Vec3::new(rand_fx_in(lo, hi), rand_fx_in(lo, hi), rand_fx_in(lo, hi));
            // Normalize, then clamp: near the origin the fixed-point
            // normalization can overshoot one unit, and a bounded gradient
            // is what bounds the noise.
            let n = v.unit_vector();
            let one = Fx::one();
            let none = Fx::from_micros(-FX_SCALE);
            let g = Vec3::new(
                n.x.clamp(none, one),
                n.y.clamp(none, one),
                n.z.clamp(none, one),
            );
            ranvec.push(g);
            i = i + 1;
        }
        Perlin {
            ranvec,
            perm_x: Self::generate_perm(),
            perm_y: Self::generate_perm(),
            perm_z: Self::generate_perm(),
        }
    }

    /// Evaluate the noise field at a point: split each coordinate into cell
    /// and fraction, gather the eight corner gradients through the
    /// permutation tables, and interpolate with a Hermite fade.
    pub fn noise(&self, p: &Point) -> (r: Fx)
        requires
            perlin_wf(*self),
        ensures
            r@ == noise_spec(*self, *p),
    {
        let (ix, uxm) = floor_div_rem(p.x.to_micros(), FX_SCALE);
        let (iy, uym) = floor_div_rem(p.y.to_micros(), FX_SCALE);
        let (iz, uzm) = floor_div_rem(p.z.to_micros(), FX_SCALE);
        proof {
            assert(-0x4000_0000_0000_0000 <= ix <= 0x4000_0000_0000_0000 && -0x4000_0000_0000_0000
                <= iy <= 0x4000_0000_0000_0000 && -0x4000_0000_0000_0000 <= iz
                <= 0x4000_0000_0000_0000) by (nonlinear_arith)
                requires
                    ix == p.x@ / (FX_SCALE as int) && iy == p.y@ / (FX_SCALE as int) && iz == p.z@
                        / (FX_SCALE as int),
                    i64::MIN as int <= p.x@ <= i64::MAX as int,
                    i64::MIN as int <= p.y@ <= i64::MAX as int,
                    i64::MIN as int <= p.z@ <= i64::MAX as int,
            ;
        }
        let u = Fx::from_micros(uxm);
        let v = Fx::from_micros(uym);
        let w = Fx::from_micros(uzm);

        let c000 = self.gather(ix, iy, iz, 0, 0, 0);
        let c001 = self.gather(ix, iy, iz, 0, 0, 1);
        let c010 = self.gather(ix, iy, iz, 0, 1, 0);
        let c011 = self.gather(ix, iy, iz, 0, 1, 1);
        let c100 = self.gather(ix, iy, iz, 1, 0, 0);
        let c101 = self.gather(ix, iy, iz, 1, 0, 1);
        let c110 = self.gather(ix, iy, iz, 1, 1, 0);
        let c111 = self.gather(ix, iy, iz, 1, 1, 1);

        Self::perlin_interp(c000, c001, c010, c011, c100, c101, c110, c111, u, v, w)
    }

    /// Look up the gradient at one corner of the cell.
    fn gather(&self, ix: i64, iy: i64, iz: i64, di: i64, dj: i64, dk: i64) -> (r: Vec3)
        requires
            perlin_wf(*self),
            -0x4000_0000_0000_0000 <= ix <= 0x4000_0000_0000_0000,
            -0x4000_0000_0000_0000 <= iy <= 0x4000_0000_0000_0000,
            -0x4000_0000_0000_0000 <= iz <= 0x4000_0000_0000_0000,
            0 <= di <= 1 && 0 <= dj <= 1 && 0 <= dk <= 1,
        ensures
            r == gather_spec(*self, ix as int, iy as int, iz as int, di as int, dj as int, dk as int),
    {
        let a = Self::mask(ix + di);
        let b = Self::mask(iy + dj);
        let c = Self::mask(iz + dk);
        let px = self.perm_x[a] as u64;
        let py = self.perm_y[b] as u64;
        let pz = self.perm_z[c] as u64;
        let idx: u64 = px ^ py ^ pz;
        proof {
            assert(px < 256 && py < 256 && pz < 256 ==> (px ^ py ^ pz) < 256) by (bit_vector);
        }
        self.ranvec[idx as usize]
    }

    /// Wrap a cell index into the table range: the low byte of the
    /// two's-complement form is the index modulo the table size.
    fn mask(i: i64) -> (r: usize)
        ensures
            r < 256,
            r as int == mask_spec(i as int),
    {
        let wide: u64 = if i >= 0 {
            i as u64
        } else {
            ((i as i128) + 0x1_0000_0000_0000_0000i128) as u64
        };
        let m: u64 = wide & 255;
        proof {
            assert(wide & 255 < 256 && wide & 255 == wide % 256) by (bit_vector);
            if i < 0 {
                lemma_mod_pow64(i as int);
            }
        }
        m as usize
    }

    /// The Hermite fade of a fraction.
    fn fade(t: Fx) -> (r: Fx)
        ensures
            r@ == fade_spec(t@),
    {
        let three = Fx::from_micros(3 * FX_SCALE);
        let two = Fx::from_micros(2 * FX_SCALE);
        t.mul(t).mul(three.sub(two.mul(t)))
    }

    /// Either the faded weight or its complement, by corner parity.
    fn corner_weight(sel: i64, faded: Fx) -> (r: Fx)
        ensures
            r@ == corner_weight_spec(sel as int, faded@),
    {
        if sel == 1 {
            faded
        } else {
            Fx::one().sub(faded)
        }
    }

    /// One corner's contribution: the three axis weights times the gradient
    /// dotted with the offset from the corner.
    fn corner_term(sel_i: i64, sel_j: i64, sel_k: i64, grad: Vec3, u: Fx, v: Fx, w: Fx) -> (r: Fx)
        requires
            0 <= sel_i <= 1 && 0 <= sel_j <= 1 && 0 <= sel_k <= 1,
        ensures
            r@ == corner_term_spec(sel_i as int, sel_j as int, sel_k as int, grad, u@, v@, w@),
    {
        let uu = Self::fade(u);
        let vv = Self::fade(v);
        let ww = Self::fade(w);
        let weight_v = Vec3::new(
            u.sub(Fx::from_whole(sel_i)),
            v.sub(Fx::from_whole(sel_j)),
            w.sub(Fx::from_whole(sel_k)),
        );
        proof {
            assert(weight_v == (Vec3 {
                x: to_fx(fx_sub(u@, sel_i as int * FX_SCALE as int)),
                y: to_fx(fx_sub(v@, sel_j as int * FX_SCALE as int)),
                z: to_fx(fx_sub(w@, sel_k as int * FX_SCALE as int)),
            }));
        }
        Self::corner_weight(sel_i, uu).mul(Self::corner_weight(sel_j, vv)).mul(
            Self::corner_weight(sel_k, ww),
        ).mul(grad.dot(&weight_v))
    }

    /// Smoothed trilinear interpolation of the eight corner gradients.
    fn perlin_interp(
        c000: Vec3,
        c001: Vec3,
        c010: Vec3,
        c011: Vec3,
        c100: Vec3,
        c101: Vec3,
        c110: Vec3,
        c111: Vec3,
        u: Fx,
        v: Fx,
        w: Fx,
    ) -> (r: Fx)
        ensures
            r@ == interp_spec(c000, c001, c010, c011, c100, c101, c110, c111, u@, v@, w@),
    {
        let mut accum = Fx::zero();
        accum = accum.add(Self::corner_term(0, 0, 0, c000, u, v, w));
        accum = accum.add(Self::corner_term(0, 0, 1, c001, u, v, w));
        accum = accum.add(Self::corner_term(0, 1, 0, c010, u, v, w));
        accum = accum.add(Self::corner_term(0, 1, 1, c011, u, v, w));
        accum = accum.add(Self::corner_term(1, 0, 0, c100, u, v, w));
        accum = accum.add(Self::corner_term(1, 0, 1, c101, u, v, w));
        accum = accum.add(Self::corner_term(1, 1, 0, c110, u, v, w));
        accum = accum.add(Self::corner_term(1, 1, 1, c111, u, v, w));
        accum
    }

    /// Turbulence with the standard seven octaves.
    pub fn turb(&self, p: &Point) -> (r: Fx)
        requires
            perlin_wf(*self),
        ensures
            r@ >= 0,
            r@ == turb_spec(*self, *p, 7),
    {
        self.turb_with_depth(p, 7)
    }

    /// Multi-octave turbulence: sum octaves of noise at doubling frequency
    /// and halving amplitude, then take the magnitude.
    pub fn turb_with_depth(&self, p: &Point, depth: usize) -> (r: Fx)
        requires
            perlin_wf(*self),
        ensures
            r@ >= 0,
            r@ == turb_spec(*self, *p, depth as nat),
    {
        let mut accum = Fx::zero();
        let mut temp_p = *p;
        let mut weight = Fx::one();
        let half = Fx::from_micros(FX_SCALE / 2);
        let two = Fx::from_micros(2 * FX_SCALE);
        let mut i: usize = 0;
        while i < depth
            invariant
                perlin_wf(*self),
                i <= depth,
                half@ == 500_000,
                two@ == 2 * FX_SCALE as int,
                turb_accum_spec(*self, temp_p, accum@, weight@, (depth - i) as nat)
                    == turb_accum_spec(*self, *p, 0, FX_SCALE as int, depth as nat),
            decreases depth - i,
        {
            let ghost p_before = temp_p;
            let ghost a_before = accum@;
            let ghost w_before = weight@;
            accum = accum.add(weight.mul(self.noise(&temp_p)));
            weight = weight.mul(half);
            temp_p = temp_p.scale(two);
            proof {
                assert(temp_p == (Vec3 {
                    x: to_fx(fx_mul(p_before.x@, 2 * FX_SCALE as int)),
                    y: to_fx(fx_mul(p_before.y@, 2 * FX_SCALE as int)),
                    z: to_fx(fx_mul(p_before.z@, 2 * FX_SCALE as int)),
                }));
                assert(turb_accum_spec(*self, p_before, a_before, w_before, (depth - i) as nat)
                    == turb_accum_spec(
                    *self,
                    temp_p,
                    accum@,
                    weight@,
                    (depth - i - 1) as nat,
                ));
            }
            i = i + 1;
        }
        accum.abs()
    }

    /// A freshly shuffled index table: a permutation of the indices.
    fn generate_perm() -> (r: Vec<usize>)
        ensures
            r@.len() == POINT_COUNT as int,
            forall|i: int| 0 <= i < POINT_COUNT as int ==> (#[trigger] r@[i]) < POINT_COUNT as int,
            injective_tbl(r@),
    {
        let mut p: Vec<usize> = Vec::new();
        let mut i: usize = 0;
        while i < POINT_COUNT
            invariant
                i <= POINT_COUNT,
                p@.len() == i,
                forall|j: int| 0 <= j < i ==> (#[trigger] p@[j]) == j,
            decreases POINT_COUNT - i,
        {
            p.push(i);
            i = i + 1;
        }
        Self::permutate(&mut p);
        p
    }

    /// Fisher–Yates shuffle: every swap keeps the entries' range and
    /// their distinctness.
    fn permutate(p: &mut Vec<usize>)
        requires
            old(p)@.len() == POINT_COUNT as int,
            forall|j: int|
                0 <= j < POINT_COUNT as int ==> (#[trigger] old(p)@[j]) < POINT_COUNT as int,
            injective_tbl(old(p)@),
        ensures
            final(p)@.len() == POINT_COUNT as int,
            forall|j: int|
                0 <= j < POINT_COUNT as int ==> (#[trigger] final(p)@[j]) < POINT_COUNT as int,
            injective_tbl(final(p)@),
    {
        let mut i: usize = POINT_COUNT - 1;
        while i >= 1
            invariant
                i <= POINT_COUNT - 1,
                p@.len() == POINT_COUNT as int,
                forall|j: int|
                    0 <= j < POINT_COUNT as int ==> (#[trigger] p@[j]) < POINT_COUNT as int,
                injective_tbl(p@),
            decreases i,
        {
            let target = rand_below(i + 1);
            let a = p[i];
            let b = p[target];
            let ghost before = p@;
            p[i] = b;
            p[target] = a;
            proof {
                assert forall|x: int, y: int| 0 <= x < y < p@.len() implies #[trigger] p@[x]
                    != #[trigger] p@[y] by {
                    let ox = if x == i as int {
                        target as int
                    } else if x == target as int {
                        i as int
                    } else {
                        x
                    };
                    let oy = if y == i as int {
                        target as int
                    } else if y == target as int {
                        i as int
                    } else {
                        y
                    };
                    assert(p@[x] == before[ox] && p@[y] == before[oy]);
                    assert(before[ox] != before[oy]);
                }
            }
            i = i - 1;
        }
    }
}

/// The low byte survives a shift by a full word: the index modulo the
/// word range, taken modulo the table size, is the index modulo the table
/// size.
proof fn lemma_mod_pow64(i: int)
    ensures
        (i + 0x1_0000_0000_0000_0000) % 256 == i % 256,
{
    assert((i + 0x100_0000_0000_0000 * 256) % 256 == i % 256) by (nonlinear_arith);
}

impl Default for Perlin {
    fn default() -> (r: Perlin)
        ensures
            perlin_wf(r),
    {
        Perlin::new()
    }
}

} // verus!
