//! Fixed-point scalar arithmetic.
//!
//! A scalar is an `i64` counted in millionths of a unit.  Addition,
//! subtraction and negation saturate at the `i64` range; multiplication and
//! division truncate toward zero after rescaling, then saturate.  Division by
//! zero yields the saturated value of the matching sign, which plays the role
//! that an infinite quotient plays in the slab test of an axis-aligned box.

use vstd::prelude::*;

verus! {

use vstd::std_specs::cmp::PartialOrdSpec;

/// Number of fixed-point steps in one unit.
pub const FX_SCALE: i64 = 1_000_000;

/// Clamp a mathematical integer into the `i64` range.
pub open spec fn sat64(x: int) -> int {
    if x > i64::MAX as int {
        i64::MAX as int
    } else if x < i64::MIN as int {
        i64::MIN as int
    } else {
        x
    }
}

/// Division truncated toward zero, for a positive divisor.
pub open spec fn divp_trunc(x: int, d: int) -> int
    recommends
        d > 0,
{
    if x >= 0 {
        x / d
    } else {
        -((-x) / d)
    }
}

/// Division truncated toward zero, for any nonzero divisor.
pub open spec fn divt(x: int, d: int) -> int
    recommends
        d != 0,
{
    if d > 0 {
        divp_trunc(x, d)
    } else {
        -divp_trunc(x, -d)
    }
}

/// The value of a saturating fixed-point sum.
pub open spec fn fx_add(a: int, b: int) -> int {
    sat64(a + b)
}

/// The value of a saturating fixed-point difference.
pub open spec fn fx_sub(a: int, b: int) -> int {
    sat64(a - b)
}

/// The value of a saturating fixed-point negation.
pub open spec fn fx_neg(a: int) -> int {
    sat64(-a)
}

/// The value of a fixed-point product: rescale, truncate, saturate.
pub open spec fn fx_mul(a: int, b: int) -> int {
    sat64(divp_trunc(a * b, FX_SCALE as int))
}

/// The value of a fixed-point quotient.  A zero divisor saturates with the
/// sign of the dividend.
pub open spec fn fx_div(a: int, b: int) -> int {
    if b == 0 {
        if a > 0 {
            i64::MAX as int
        } else if a < 0 {
            i64::MIN as int
        } else {
            0
        }
    } else {
        sat64(divt(a * FX_SCALE as int, b))
    }
}

/// Whether `r` is the fixed-point square root of `a`: zero for nonpositive
/// input, otherwise the floor of the square root of `a · FX_SCALE`.
pub open spec fn is_fx_sqrt(r: int, a: int) -> bool {
    if a <= 0 {
        r == 0
    } else {
        r >= 0 && r * r <= a * (FX_SCALE as int) && a * (FX_SCALE as int) < (r + 1) * (r + 1)
    }
}

/// The fixed-point square root as a function, pinned by `is_fx_sqrt`.
pub open spec fn fx_sqrt_val(a: int) -> int {
    choose|r: int| is_fx_sqrt(r, a)
}

/// `is_fx_sqrt` determines the root uniquely, so any witness equals
/// `fx_sqrt_val`.
pub proof fn lemma_fx_sqrt_val(a: int, r: int)
    requires
        is_fx_sqrt(r, a),
    ensures
        fx_sqrt_val(a) == r,
{
    assert(is_fx_sqrt(fx_sqrt_val(a), a)) by {
        assert(exists|s: int| is_fx_sqrt(s, a));
    }
    let w = fx_sqrt_val(a);
    if a > 0 {
        assert(w == r) by (nonlinear_arith)
            requires
                w >= 0,
                r >= 0,
                w * w <= a * (FX_SCALE as int),
                a * (FX_SCALE as int) < (w + 1) * (w + 1),
                r * r <= a * (FX_SCALE as int),
                a * (FX_SCALE as int) < (r + 1) * (r + 1),
        ;
    }
}

/// A fixed-point scalar: `micros` millionths of a unit.
#[derive(Clone, Copy, Debug, PartialEq, Eq, Structural)]
pub struct Fx {
    pub micros: i64,
}

impl View for Fx {
    type V = int;

    open spec fn view(&self) -> int {
        self.micros as int
    }
}

impl Fx {
    /// Build a scalar from a raw count of millionths.
    pub fn from_micros(m: i64) -> (r: Fx)
        ensures
            r@ == m as int,
    {
        Fx { micros: m }
    }

    /// The raw count of millionths.
    pub fn to_micros(self) -> (r: i64)
        ensures
            r as int == self@,
    {
        self.micros
    }

    /// Build a scalar from a whole number of units, saturating.
    pub fn from_whole(w: i64) -> (r: Fx)
        ensures
            r@ == sat64(w * FX_SCALE as int),
    {
        proof {
            assert(-0x8000_0000_0000_0000_0000_0000i128 <= (w as i128) * 1_000_000i128
                <= 0x8000_0000_0000_0000_0000_0000i128) by (nonlinear_arith)
                requires
                    i64::MIN as i128 <= w as i128 <= i64::MAX as i128,
            ;
        }
        let wide: i128 = (w as i128) * (FX_SCALE as i128);
        Fx { micros: sat_i128(wide) }
    }

    pub fn zero() -> (r: Fx)
        ensures
            r@ == 0,
    {
        Fx { micros: 0 }
    }

    pub fn one() -> (r: Fx)
        ensures
            r@ == FX_SCALE as int,
    {
        Fx { micros: FX_SCALE }
    }

    pub fn add(self, o: Fx) -> (r: Fx)
        ensures
            r@ == fx_add(self@, o@),
    {
        let wide: i128 = (self.micros as i128) + (o.micros as i128);
        Fx { micros: sat_i128(wide) }
    }

    pub fn sub(self, o: Fx) -> (r: Fx)
        ensures
            r@ == fx_sub(self@, o@),
    {
        let wide: i128 = (self.micros as i128) - (o.micros as i128);
        Fx { micros: sat_i128(wide) }
    }

    pub fn neg(self) -> (r: Fx)
        ensures
            r@ == fx_neg(self@),
    {
        let wide: i128 = -(self.micros as i128);
        Fx { micros: sat_i128(wide) }
    }

    pub fn mul(self, o: Fx) -> (r: Fx)
        ensures
            r@ == fx_mul(self@, o@),
    {
        let (na, ma) = sign_mag(self.micros);
        let (nb, mb) = sign_mag(o.micros);
        proof {
            assert(ma * mb <= 0x4000_0000_0000_0000_0000_0000_0000_0000u128) by (nonlinear_arith)
                requires
                    ma <= 0x8000_0000_0000_0000u128,
                    mb <= 0x8000_0000_0000_0000u128,
            ;
        }
        let p: u128 = ma * mb;
        let q: u128 = p / (FX_SCALE as u128);
        proof {
            lemma_abs_mul(self@, o@);
            lemma_divp_trunc_mag(self@ * o@, FX_SCALE as int);
        }
        Fx { micros: sat_mag(na != nb, q) }
    }

    pub fn div(self, o: Fx) -> (r: Fx)
        ensures
            r@ == fx_div(self@, o@),
    {
        if o.micros == 0 {
            if self.micros > 0 {
                Fx { micros: i64::MAX }
            } else if self.micros < 0 {
                Fx { micros: i64::MIN }
            } else {
                Fx { micros: 0 }
            }
        } else {
            let (na, ma) = sign_mag(self.micros);
            let (nb, mb) = sign_mag(o.micros);
            proof {
                assert(ma * 1_000_000u128 <= 0x4000_0000_0000_0000_0000_0000_0000_0000u128)
                    by (nonlinear_arith)
                    requires
                        ma <= 0x8000_0000_0000_0000u128,
                ;
            }
            let p: u128 = ma * (FX_SCALE as u128);
            let q: u128 = p / mb;
            proof {
                lemma_abs_mul(self@, FX_SCALE as int);
                lemma_divt_mag(self@ * FX_SCALE as int, o@);
            }
            Fx { micros: sat_mag(na != nb, q) }
        }
    }

    /// Square root in fixed point: the greatest `r` with `r·r <= a` as real
    /// quantities, i.e. the floor of the square root of `a · FX_SCALE` in
    /// millionths.  Nonpositive inputs map to zero.
    pub fn sqrt(self) -> (r: Fx)
        ensures
            r@ == fx_sqrt_val(self@),
            is_fx_sqrt(r@, self@),
    {
        if self.micros <= 0 {
            proof {
                lemma_fx_sqrt_val(self@, 0);
            }
            return Fx { micros: 0 };
        }
        let x: u128 = (self.micros as u128) * (FX_SCALE as u128);
        let mut lo: u128 = 0;
        let mut hi: u128 = 3_100_000_000_000;
        proof {
            assert((3_100_000_000_000 * 3_100_000_000_000) as u128 > x) by (nonlinear_arith)
                requires
                    x <= i64::MAX as u128 * 1_000_000,
            ;
        }
        while lo + 1 < hi
            invariant
                lo * lo <= x,
                x < hi * hi,
                lo < hi,
                hi <= 3_100_000_000_000,
            decreases hi - lo,
        {
            let mid: u128 = lo + (hi - lo) / 2;
            proof {
                assert(mid * mid <= 3_100_000_000_000u128 * 3_100_000_000_000u128)
                    by (nonlinear_arith)
                    requires
                        mid <= 3_100_000_000_000u128,
                ;
            }
            if mid * mid <= x {
                lo = mid;
            } else {
                hi = mid;
            }
        }
        proof {
            lemma_fx_sqrt_val(self@, lo as int);
        }
        Fx { micros: lo as i64 }
    }

    pub fn abs(self) -> (r: Fx)
        ensures
            r@ == if self@ >= 0 {
                self@
            } else {
                sat64(-self@)
            },
    {
        if self.micros >= 0 {
            self
        } else {
            self.neg()
        }
    }

    pub fn min(self, o: Fx) -> (r: Fx)
        ensures
            r@ == if self@ <= o@ {
                self@
            } else {
                o@
            },
    {
        if self.micros <= o.micros {
            self
        } else {
            o
        }
    }

    pub fn max(self, o: Fx) -> (r: Fx)
        ensures
            r@ == if self@ >= o@ {
                self@
            } else {
                o@
            },
    {
        if self.micros >= o.micros {
            self
        } else {
            o
        }
    }

    /// Clamp into `[lo, hi]`.
    pub fn clamp(self, lo: Fx, hi: Fx) -> (r: Fx)
        requires
            lo@ <= hi@,
        ensures
            r@ == if self@ < lo@ {
                lo@
            } else if self@ > hi@ {
                hi@
            } else {
                self@
            },
    {
        if self.micros < lo.micros {
            lo
        } else if self.micros > hi.micros {
            hi
        } else {
            self
        }
    }
}

impl Default for Fx {
    fn default() -> (r: Fx)
        ensures
            r@ == 0,
    {
        Fx { micros: 0 }
    }
}

impl PartialOrd for Fx {
    fn partial_cmp(&self, other: &Fx) -> (r: Option<core::cmp::Ordering>) {
        if self.micros < other.micros {
            Some(core::cmp::Ordering::Less)
        } else if self.micros == other.micros {
            Some(core::cmp::Ordering::Equal)
        } else {
            Some(core::cmp::Ordering::Greater)
        }
    }
}

impl vstd::std_specs::cmp::PartialOrdSpecImpl for Fx {
    open spec fn obeys_partial_cmp_spec() -> bool {
        true
    }

    open spec fn partial_cmp_spec(&self, other: &Fx) -> Option<core::cmp::Ordering> {
        if self@ < other@ {
            Some(core::cmp::Ordering::Less)
        } else if self@ == other@ {
            Some(core::cmp::Ordering::Equal)
        } else {
            Some(core::cmp::Ordering::Greater)
        }
    }
}

/// Split an `i64` into a sign flag and a magnitude.
fn sign_mag(x: i64) -> (r: (bool, u128))
    ensures
        r.1 == if x >= 0 {
            x as int
        } else {
            -(x as int)
        },
        r.0 == (x < 0),
{
    if x >= 0 {
        (false, x as u128)
    } else {
        (true, (-(x as i128)) as u128)
    }
}

/// Reassemble a sign flag and magnitude into an `i64`, saturating.
fn sat_mag(neg: bool, m: u128) -> (r: i64)
    ensures
        r as int == sat64(
            if neg {
                -(m as int)
            } else {
                m as int
            },
        ),
{
    if neg {
        if m >= 9_223_372_036_854_775_808u128 {
            i64::MIN
        } else {
            -(m as i64)
        }
    } else {
        if m > i64::MAX as u128 {
            i64::MAX
        } else {
            m as i64
        }
    }
}

/// Saturate an `i128` into the `i64` range.
fn sat_i128(x: i128) -> (r: i64)
    ensures
        r as int == sat64(x as int),
{
    if x > i64::MAX as i128 {
        i64::MAX
    } else if x < i64::MIN as i128 {
        i64::MIN
    } else {
        x as i64
    }
}

/// Magnitudes multiply: `|a|·|b| == |a·b|`.
proof fn lemma_abs_mul(a: int, b: int)
    by (nonlinear_arith)
    ensures
        (if a >= 0 {
            a
        } else {
            -a
        }) * (if b >= 0 {
            b
        } else {
            -b
        }) == if a * b >= 0 {
            a * b
        } else {
            -(a * b)
        },
        (a * b < 0) <==> ((a < 0) != (b < 0)) && a != 0 && b != 0,
{
}

/// Truncating division by a positive divisor, through magnitudes.
proof fn lemma_divp_trunc_mag(x: int, d: int)
    requires
        d > 0,
    ensures
        x >= 0 ==> divp_trunc(x, d) == x / d,
        x < 0 ==> divp_trunc(x, d) == -((-x) / d),
{
}

/// Truncating division by any nonzero divisor, through magnitudes:
/// the quotient is the quotient of the magnitudes, negated when the
/// signs differ.
proof fn lemma_divt_mag(x: int, d: int)
    requires
        d != 0,
    ensures
        divt(x, d) == if (x < 0) != (d < 0) {
            -((if x >= 0 {
                x
            } else {
                -x
            }) / (if d >= 0 {
                d
            } else {
                -d
            }))
        } else {
            (if x >= 0 {
                x
            } else {
                -x
            }) / (if d >= 0 {
                d
            } else {
                -d
            })
        },
{
    if d > 0 {
        if x >= 0 {
        } else {
        }
    } else {
        if x >= 0 {
        } else {
        }
    }
}



/// Every natural number has an integer square-root floor.
proof fn lemma_sqrt_floor_exists(n: int)
    requires
        n >= 0,
    ensures
        exists|r: int| r >= 0 && (#[trigger] (r * r)) <= n < (r + 1) * (r + 1),
    decreases n,
{
    if n == 0 {
        assert(0 >= 0 && 0 * 0 <= 0 < (0 + 1) * (0 + 1)) by (nonlinear_arith);
    } else {
        lemma_sqrt_floor_exists(n - 1);
        let r = choose|r: int| r >= 0 && (#[trigger] (r * r)) <= n - 1 < (r + 1) * (r + 1);
        if n < (r + 1) * (r + 1) {
            assert(r >= 0 && r * r <= n < (r + 1) * (r + 1));
        } else {
            assert(n == (r + 1) * (r + 1));
            assert((r + 1) * (r + 1) < (r + 2) * (r + 2)) by (nonlinear_arith)
                requires
                    r >= 0,
            ;
            assert(r + 1 >= 0 && (r + 1) * (r + 1) <= n < (r + 2) * (r + 2));
        }
    }
}

/// The square-root value is well defined: it satisfies its own
/// characterization and is never negative.
pub proof fn lemma_fx_sqrt_props(a: int)
    requires
        a <= i64::MAX as int,
    ensures
        is_fx_sqrt(fx_sqrt_val(a), a),
        fx_sqrt_val(a) >= 0,
{
    if a <= 0 {
        assert(is_fx_sqrt(0, a));
        assert(exists|r: int| is_fx_sqrt(r, a));
    } else {
        assert(a * (FX_SCALE as int) >= 0) by (nonlinear_arith)
            requires
                a > 0,
        ;
        lemma_sqrt_floor_exists(a * (FX_SCALE as int));
        let w = choose|r: int|
            r >= 0 && (#[trigger] (r * r)) <= a * (FX_SCALE as int) < (r + 1) * (r + 1);
        assert(is_fx_sqrt(w, a));
        assert(exists|r: int| is_fx_sqrt(r, a));
    }
}

/// Saturation preserves order.
pub proof fn lemma_sat64_mono(x: int, y: int)
    requires
        x <= y,
    ensures
        sat64(x) <= sat64(y),
{
}

/// Truncating division by a fixed divisor preserves order, and so does
/// the whole fixed-point quotient in its dividend.
pub proof fn lemma_fx_div_mono(x: int, y: int, d: int)
    requires
        x <= y,
        d >= 0,
    ensures
        fx_div(x, d) <= fx_div(y, d),
{
    if d == 0 {
    } else {
        assert(x * FX_SCALE as int <= y * FX_SCALE as int) by (nonlinear_arith)
            requires
                x <= y,
        ;
        lemma_divt_mono(x * FX_SCALE as int, y * FX_SCALE as int, d);
        lemma_sat64_mono(divt(x * FX_SCALE as int, d), divt(y * FX_SCALE as int, d));
    }
}

/// Truncation toward zero preserves order for a positive divisor.
proof fn lemma_divp_trunc_mono(a: int, b: int, d: int)
    requires
        a <= b,
        d > 0,
    ensures
        divp_trunc(a, d) <= divp_trunc(b, d),
{
    if a >= 0 {
        assert(a / d <= b / d) by (nonlinear_arith)
            requires
                0 <= a <= b && d > 0,
        ;
    } else if b < 0 {
        assert((-b) / d <= (-a) / d) by (nonlinear_arith)
            requires
                a <= b < 0 && d > 0,
        ;
    } else {
        assert(0 <= b / d && 0 <= (-a) / d) by (nonlinear_arith)
            requires
                a < 0 <= b && d > 0,
        ;
    }
}

/// Truncation toward zero preserves order for any nonzero divisor's sign
/// taken into account.
proof fn lemma_divt_mono(a: int, b: int, d: int)
    requires
        a <= b,
        d != 0,
    ensures
        d > 0 ==> divt(a, d) <= divt(b, d),
        d < 0 ==> divt(b, d) <= divt(a, d),
{
    if d > 0 {
        lemma_divp_trunc_mono(a, b, d);
    } else {
        lemma_divp_trunc_mono(a, b, -d);
    }
}

} // verus!
