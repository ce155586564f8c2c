//! Component vectors of any length.
//!
//! `CVec` is the general numeric tuple: a run of fixed-point scalars with
//! the usual componentwise arithmetic and the sampling helpers.  The
//! three-component `Vec3` is the shape the renderer works with; `CVec`
//! keeps the general operations available at any length, with contracts
//! over the sequence of component values.

use vstd::prelude::*;

verus! {

use crate::fixed::{Fx, FX_SCALE, fx_add, fx_sub, fx_mul, fx_div, fx_sqrt_val};
use crate::rng::rand_unit_micros;
use crate::vec3::NEAR_ZERO_MICROS;

/// The fixed-point dot product of two equally long runs of components,
/// accumulated left to right with per-step saturation.
pub open spec fn dot_seq(a: Seq<int>, b: Seq<int>) -> int
    decreases a.len(),
{
    if a.len() == 0 || b.len() == 0 {
        0
    } else {
        fx_add(dot_seq(a.drop_last(), b.drop_last()), fx_mul(a.last(), b.last()))
    }
}

#[derive(Clone, Debug, PartialEq, Eq)]
pub struct CVec {
    pub data: Vec<Fx>,
}

impl View for CVec {
    type V = Seq<int>;

    open spec fn view(&self) -> Seq<int> {
        self.data@.map_values(|f: Fx| f@)
    }
}

impl CVec {
    /// Wrap a run of scalars.
    pub fn from_data(data: Vec<Fx>) -> (r: CVec)
        ensures
            r@ == data@.map_values(|f: Fx| f@),
    {
        CVec { data }
    }

    /// The components, read-only.
    pub fn data(&self) -> (r: &Vec<Fx>)
        ensures
            r@.map_values(|f: Fx| f@) == self@,
    {
        &self.data
    }

    /// The components, writable.
    pub fn data_mut(&mut self) -> &mut Vec<Fx> {
        &mut self.data
    }

    pub fn len(&self) -> (r: usize)
        ensures
            r == self@.len(),
    {
        self.data.len()
    }

    /// The componentwise sum of two equally long vectors.
    pub fn add(&self, rhs: &CVec) -> (r: CVec)
        requires
            self@.len() == rhs@.len(),
        ensures
            r@.len() == self@.len(),
            forall|i: int| 0 <= i < r@.len() ==> #[trigger] r@[i] == fx_add(self@[i], rhs@[i]),
    {
        let n = self.data.len();
        let mut data: Vec<Fx> = Vec::new();
        let mut i: usize = 0;
        while i < n
            invariant
                i <= n,
                n == self@.len(),
                self@.len() == rhs@.len(),
                data@.len() == i,
                forall|k: int|
                    0 <= k < i ==> (#[trigger] data@[k])@ == fx_add(self@[k], rhs@[k]),
            decreases n - i,
        {
            data.push(self.data[i].add(rhs.data[i]));
            i = i + 1;
        }
        CVec { data }
    }

    /// The componentwise difference of two equally long vectors.
    pub fn sub(&self, rhs: &CVec) -> (r: CVec)
        requires
            self@.len() == rhs@.len(),
        ensures
            r@.len() == self@.len(),
            forall|i: int| 0 <= i < r@.len() ==> #[trigger] r@[i] == fx_sub(self@[i], rhs@[i]),
    {
        let n = self.data.len();
        let mut data: Vec<Fx> = Vec::new();
        let mut i: usize = 0;
        while i < n
            invariant
                i <= n,
                n == self@.len(),
                self@.len() == rhs@.len(),
                data@.len() == i,
                forall|k: int|
                    0 <= k < i ==> (#[trigger] data@[k])@ == fx_sub(self@[k], rhs@[k]),
            decreases n - i,
        {
            data.push(self.data[i].sub(rhs.data[i]));
            i = i + 1;
        }
        CVec { data }
    }

    /// The componentwise product of two equally long vectors.
    pub fn mul(&self, rhs: &CVec) -> (r: CVec)
        requires
            self@.len() == rhs@.len(),
        ensures
            r@.len() == self@.len(),
            forall|i: int| 0 <= i < r@.len() ==> #[trigger] r@[i] == fx_mul(self@[i], rhs@[i]),
    {
        let n = self.data.len();
        let mut data: Vec<Fx> = Vec::new();
        let mut i: usize = 0;
        while i < n
            invariant
                i <= n,
                n == self@.len(),
                self@.len() == rhs@.len(),
                data@.len() == i,
                forall|k: int|
                    0 <= k < i ==> (#[trigger] data@[k])@ == fx_mul(self@[k], rhs@[k]),
            decreases n - i,
        {
            data.push(self.data[i].mul(rhs.data[i]));
            i = i + 1;
        }
        CVec { data }
    }

    /// Every component scaled by a factor.
    pub fn scale(&self, t: Fx) -> (r: CVec)
        ensures
            r@.len() == self@.len(),
            forall|i: int| 0 <= i < r@.len() ==> #[trigger] r@[i] == fx_mul(self@[i], t@),
    {
        let n = self.data.len();
        let mut data: Vec<Fx> = Vec::new();
        let mut i: usize = 0;
        while i < n
            invariant
                i <= n,
                n == self@.len(),
                data@.len() == i,
                forall|k: int| 0 <= k < i ==> (#[trigger] data@[k])@ == fx_mul(self@[k], t@),
            decreases n - i,
        {
            data.push(self.data[i].mul(t));
            i = i + 1;
        }
        CVec { data }
    }

    /// Every component divided by a divisor.
    pub fn div_by(&self, t: Fx) -> (r: CVec)
        ensures
            r@.len() == self@.len(),
            forall|i: int| 0 <= i < r@.len() ==> #[trigger] r@[i] == fx_div(self@[i], t@),
    {
        let n = self.data.len();
        let mut data: Vec<Fx> = Vec::new();
        let mut i: usize = 0;
        while i < n
            invariant
                i <= n,
                n == self@.len(),
                data@.len() == i,
                forall|k: int| 0 <= k < i ==> (#[trigger] data@[k])@ == fx_div(self@[k], t@),
            decreases n - i,
        {
            data.push(self.data[i].div(t));
            i = i + 1;
        }
        CVec { data }
    }

    /// Add another vector into this one, componentwise.
    pub fn add_assign(&mut self, rhs: &CVec)
        requires
            old(self)@.len() == rhs@.len(),
        ensures
            final(self)@.len() == old(self)@.len(),
            forall|i: int|
                0 <= i < final(self)@.len() ==> #[trigger] final(self)@[i] == fx_add(
                    old(self)@[i],
                    rhs@[i],
                ),
    {
        let r = self.add(rhs);
        self.data = r.data;
    }

    /// Scale this vector by a factor in place.
    pub fn mul_assign(&mut self, t: Fx)
        ensures
            final(self)@.len() == old(self)@.len(),
            forall|i: int|
                0 <= i < final(self)@.len() ==> #[trigger] final(self)@[i] == fx_mul(
                    old(self)@[i],
                    t@,
                ),
    {
        let r = self.scale(t);
        self.data = r.data;
    }

    /// Divide this vector by a divisor in place.
    pub fn div_assign(&mut self, t: Fx)
        ensures
            final(self)@.len() == old(self)@.len(),
            forall|i: int|
                0 <= i < final(self)@.len() ==> #[trigger] final(self)@[i] == fx_div(
                    old(self)@[i],
                    t@,
                ),
    {
        let r = self.div_by(t);
        self.data = r.data;
    }

    /// A vector of `n` ones.
    pub fn ones(n: usize) -> (r: CVec)
        ensures
            r@.len() == n,
            forall|i: int| 0 <= i < n ==> r@[i] == FX_SCALE as int,
    {
        let mut data: Vec<Fx> = Vec::new();
        let mut i: usize = 0;
        while i < n
            invariant
                i <= n,
                data@.len() == i,
                forall|j: int| 0 <= j < i ==> (#[trigger] data@[j])@ == FX_SCALE as int,
            decreases n - i,
        {
            data.push(Fx::one());
            i = i + 1;
        }
        CVec { data }
    }

    /// A vector of `n` zeros.
    pub fn zeros(n: usize) -> (r: CVec)
        ensures
            r@.len() == n,
            forall|i: int| 0 <= i < n ==> r@[i] == 0,
    {
        let mut data: Vec<Fx> = Vec::new();
        let mut i: usize = 0;
        while i < n
            invariant
                i <= n,
                data@.len() == i,
                forall|j: int| 0 <= j < i ==> (#[trigger] data@[j])@ == 0,
            decreases n - i,
        {
            data.push(Fx::zero());
            i = i + 1;
        }
        CVec { data }
    }

    /// A vector of `n` draws, each uniform in `[lo, hi)` millionths.
    pub fn random_range(n: usize, lo: Fx, hi: Fx) -> (r: CVec)
        ensures
            r@.len() == n,
            lo@ < hi@ ==> forall|i: int| 0 <= i < n ==> lo@ <= #[trigger] r@[i] < hi@,
    {
        let mut data: Vec<Fx> = Vec::new();
        let mut i: usize = 0;
        while i < n
            invariant
                i <= n,
                data@.len() == i,
                lo@ < hi@ ==> forall|j: int| 0 <= j < i ==> lo@ <= (#[trigger] data@[j])@ < hi@,
            decreases n - i,
        {
            data.push(rand_fx_in(lo, hi));
            i = i + 1;
        }
        CVec { data }
    }

    /// The dot product with another vector of the same length.
    pub fn dot(&self, rhs: &CVec) -> (r: Fx)
        requires
            self@.len() == rhs@.len(),
        ensures
            r@ == dot_seq(self@, rhs@),
    {
        let n = self.data.len();
        let mut res = Fx::zero();
        let mut i: usize = 0;
        while i < n
            invariant
                i <= n,
                n == self@.len(),
                self@.len() == rhs@.len(),
                res@ == dot_seq(self@.take(i as int), rhs@.take(i as int)),
            decreases n - i,
        {
            proof {
                assert(self@.take(i + 1).drop_last() =~= self@.take(i as int));
                assert(rhs@.take(i + 1).drop_last() =~= rhs@.take(i as int));
                assert(self@.take(i + 1).last() == self@[i as int]);
                assert(rhs@.take(i + 1).last() == rhs@[i as int]);
            }
            res = res.add(self.data[i].mul(rhs.data[i]));
            i = i + 1;
        }
        proof {
            assert(self@.take(n as int) =~= self@);
            assert(rhs@.take(n as int) =~= rhs@);
        }
        res
    }

    /// The squared length: the dot product with itself.
    pub fn length_squared(&self) -> (r: Fx)
        ensures
            r@ == dot_seq(self@, self@),
            r@ >= 0,
    {
        proof {
            lemma_dot_seq_self_nonneg(self@);
        }
        self.dot(self)
    }

    /// The fixed-point length: the square root of the squared length.
    pub fn length(&self) -> (r: Fx)
        ensures
            r@ == fx_sqrt_val(dot_seq(self@, self@)),
    {
        self.length_squared().sqrt()
    }

    /// The vector scaled to unit length, componentwise.
    pub fn unit_vector(&self) -> (r: CVec)
        ensures
            r@.len() == self@.len(),
            forall|i: int|
                0 <= i < self@.len() ==> r@[i] == fx_div(
                    self@[i],
                    fx_sqrt_val(dot_seq(self@, self@)),
                ),
    {
        let l = self.length();
        let n = self.data.len();
        let mut data: Vec<Fx> = Vec::new();
        let mut i: usize = 0;
        while i < n
            invariant
                i <= n,
                n == self@.len(),
                data@.len() == i,
                l@ == fx_sqrt_val(dot_seq(self@, self@)),
                forall|j: int| 0 <= j < i ==> (#[trigger] data@[j])@ == fx_div(self@[j], l@),
            decreases n - i,
        {
            data.push(self.data[i].div(l));
            i = i + 1;
        }
        CVec { data }
    }

    /// Whether every component is below the resolution threshold in
    /// magnitude.
    pub fn near_zero(&self) -> (r: bool)
        ensures
            r == forall|i: int|
                0 <= i < self@.len() ==> -(NEAR_ZERO_MICROS as int) < #[trigger] self@[i] < (
                NEAR_ZERO_MICROS as int),
    {
        let n = self.data.len();
        let mut i: usize = 0;
        while i < n
            invariant
                i <= n,
                n == self@.len(),
                forall|j: int|
                    0 <= j < i ==> -(NEAR_ZERO_MICROS as int) < #[trigger] self@[j] < (
                    NEAR_ZERO_MICROS as int),
            decreases n - i,
        {
            let m = self.data[i].to_micros();
            if !(-NEAR_ZERO_MICROS < m && m < NEAR_ZERO_MICROS) {
                proof {
                    assert(!(-(NEAR_ZERO_MICROS as int) < self@[i as int] < NEAR_ZERO_MICROS as int));
                }
                return false;
            }
            i = i + 1;
        }
        true
    }

    /// A draw inside the unit sphere of dimension `n`.  After a bounded
    /// number of failed attempts the origin, which lies inside, is returned.
    pub fn random_in_unit_sphere(n: usize) -> (r: CVec)
        ensures
            r@.len() == n,
            dot_seq(r@, r@) < FX_SCALE as int,
            forall|i: int| 0 <= i < n ==> -(FX_SCALE as int) < #[trigger] r@[i] < FX_SCALE as int,
    {
        let lo = Fx::from_micros(-(FX_SCALE - 1));
        let hi = Fx::one();
        let mut tries: usize = 0;
        while tries < 64
            invariant
                lo@ == -(FX_SCALE as int) + 1,
                hi@ == FX_SCALE as int,
            decreases 64 - tries,
        {
            let p = CVec::random_range(n, lo, hi);
            if p.length_squared().to_micros() < FX_SCALE {
                proof {
                    assert forall|i: int|
                        0 <= i < n implies -(FX_SCALE as int) < #[trigger] p@[i]
                        < FX_SCALE as int by {
                        assert(lo@ <= p@[i] < hi@);
                    }
                }
                return p;
            }
            tries = tries + 1;
        }
        let z = CVec::zeros(n);
        proof {
            lemma_dot_seq_zero(z@);
        }
        z
    }

    /// A unit direction: a point inside the unit sphere, normalized.
    pub fn random_unit_vector(n: usize) -> (r: CVec)
        ensures
            r@.len() == n,
    {
        CVec::random_in_unit_sphere(n).unit_vector()
    }

    /// A point inside the unit sphere, flipped to the half space this vector
    /// points into when needed.
    pub fn random_in_hemisphere(&self) -> (r: CVec)
        ensures
            r@.len() == self@.len(),
            dot_seq(r@, r@) < FX_SCALE as int,
    {
        let in_unit = CVec::random_in_unit_sphere(self.data.len());
        if self.dot(&in_unit).to_micros() > 0 {
            in_unit
        } else {
            let f = in_unit.negated();
            proof {
                lemma_dot_seq_neg(in_unit@, f@);
            }
            f
        }
    }

    /// The componentwise negation.
    pub fn negated(&self) -> (r: CVec)
        ensures
            r@.len() == self@.len(),
            forall|i: int| 0 <= i < self@.len() ==> r@[i] == crate::fixed::fx_neg(self@[i]),
    {
        let n = self.data.len();
        let mut data: Vec<Fx> = Vec::new();
        let mut i: usize = 0;
        while i < n
            invariant
                i <= n,
                n == self@.len(),
                data@.len() == i,
                forall|j: int|
                    0 <= j < i ==> (#[trigger] data@[j])@ == crate::fixed::fx_neg(self@[j]),
            decreases n - i,
        {
            data.push(self.data[i].neg());
            i = i + 1;
        }
        CVec { data }
    }

    /// Mirror reflection about a normal of the same length:
    /// `v - 2·(v·n)·n`, stepwise in fixed point.
    pub fn reflect(&self, n: &CVec) -> (r: CVec)
        requires
            self@.len() == n@.len(),
        ensures
            r@.len() == self@.len(),
            forall|i: int|
                0 <= i < self@.len() ==> r@[i] == fx_sub(
                    self@[i],
                    fx_mul(n@[i], fx_mul(2 * FX_SCALE as int, dot_seq(self@, n@))),
                ),
    {
        let d2 = Fx::from_micros(2 * FX_SCALE).mul(self.dot(n));
        let count = self.data.len();
        let mut data: Vec<Fx> = Vec::new();
        let mut i: usize = 0;
        while i < count
            invariant
                i <= count,
                count == self@.len(),
                self@.len() == n@.len(),
                data@.len() == i,
                d2@ == fx_mul(2 * FX_SCALE as int, dot_seq(self@, n@)),
                forall|j: int|
                    0 <= j < i ==> (#[trigger] data@[j])@ == fx_sub(self@[j], fx_mul(n@[j], d2@)),
            decreases count - i,
        {
            data.push(self.data[i].sub(n.data[i].mul(d2)));
            i = i + 1;
        }
        CVec { data }
    }
}

impl Default for CVec {
    /// The empty vector.
    fn default() -> (r: CVec)
        ensures
            r@.len() == 0,
    {
        CVec { data: Vec::new() }
    }
}

/// Negating every component of a vector whose components lie strictly
/// inside the unit interval keeps its squared length: each squared term is
/// unchanged, so the whole fold is.
proof fn lemma_dot_seq_neg(a: Seq<int>, b: Seq<int>)
    requires
        a.len() == b.len(),
        forall|i: int|
            0 <= i < a.len() ==> -(FX_SCALE as int) < #[trigger] a[i] < FX_SCALE as int && b[i]
                == crate::fixed::fx_neg(a[i]),
    ensures
        dot_seq(b, b) == dot_seq(a, a),
    decreases a.len(),
{
    if a.len() > 0 {
        let ap = a.drop_last();
        let bp = b.drop_last();
        assert forall|i: int|
            0 <= i < ap.len() implies -(FX_SCALE as int) < #[trigger] ap[i] < FX_SCALE as int
            && bp[i] == crate::fixed::fx_neg(ap[i]) by {
            assert(ap[i] == a[i] && bp[i] == b[i]);
        }
        lemma_dot_seq_neg(ap, bp);
        assert(b.last() == -a.last());
        assert((-a.last()) * (-a.last()) == a.last() * a.last()) by (nonlinear_arith);
    }
}

/// One scalar draw, uniform in `[lo, hi)`; an empty range yields `lo`.
pub fn rand_fx_in(lo: Fx, hi: Fx) -> (r: Fx)
    ensures
        lo@ < hi@ ==> lo@ <= r@ < hi@,
        lo@ >= hi@ ==> r@ == lo@,
{
    let u = rand_unit_micros();
    let lm = lo.to_micros();
    let hm = hi.to_micros();
    if lm < hm {
        let span: i128 = (hm as i128) - (lm as i128);
        proof {
            assert(0 <= (u as i128) * span && (u as i128) * span < span * 1_000_000)
                by (nonlinear_arith)
                requires
                    0 <= (u as i128) && (u as i128) < 1_000_000,
                    span > 0,
            ;
            assert(0 <= (u as i128) * span / 1_000_000 && (u as i128) * span / 1_000_000 < span)
                by (nonlinear_arith)
                requires
                    0 <= (u as i128) * span && (u as i128) * span < span * 1_000_000,
                    span > 0,
            ;
        }
        let off: i128 = ((u as i128) * span) / (FX_SCALE as i128);
        Fx::from_micros((lm as i128 + off) as i64)
    } else {
        lo
    }
}

/// The dot product of a vector with itself is never negative.
pub proof fn lemma_dot_seq_self_nonneg(a: Seq<int>)
    ensures
        dot_seq(a, a) >= 0,
    decreases a.len(),
{
    if a.len() > 0 {
        lemma_dot_seq_self_nonneg(a.drop_last());
        crate::vec3::lemma_fx_square_nonneg(a.last());
    }
}

/// The dot product of an all-zero vector with itself is zero.
pub proof fn lemma_dot_seq_zero(a: Seq<int>)
    requires
        forall|i: int| 0 <= i < a.len() ==> a[i] == 0,
    ensures
        dot_seq(a, a) == 0,
    decreases a.len(),
{
    if a.len() > 0 {
        lemma_dot_seq_zero(a.drop_last());
        assert(a.last() == 0);
        assert(fx_mul(0, 0) == 0) by {
            assert(0int * 0int == 0) by (nonlinear_arith);
        }
    }
}

} // verus!
