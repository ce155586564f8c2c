//! Dyadic approximations of the transcendental functions the renderer
//! needs: a sine for the procedural textures, a binary logarithm with the
//! natural logarithm derived from it for the participating medium, and a
//! power for gamma correction.
//!
//! Each function is an elementary fixed-point formula — range reduction
//! plus one low-order rational or linear piece — and its contract pins the
//! result to the matching spec function exactly, together with the range
//! facts callers rely on.

use vstd::prelude::*;

verus! {

use vstd::arithmetic::div_mod::{lemma_fundamental_div_mod, lemma_fundamental_div_mod_converse};
use vstd::arithmetic::power2::{pow2, lemma_pow2_unfold, lemma_pow2_strictly_increases, lemma2_to64};
use crate::fixed::{Fx, FX_SCALE, fx_neg, fx_mul};

/// Half a turn, in millionths.
pub const PI_MICROS: i64 = 3_141_593;

/// The natural logarithm of two, in millionths.
pub const LN2_MICROS: i64 = 693_147;

/// Floor division with remainder by a positive divisor.
pub fn floor_div_rem(t: i64, d: i64) -> (r: (i64, i64))
    requires
        2 <= d,
    ensures
        t as int == r.0 * d + r.1,
        0 <= r.1 < d,
        r.0 == t as int / d as int,
        r.1 == t as int % d as int,
{
    let du = d as u64;
    let (q, rem): (i64, i64) = if t >= 0 {
        let tu = t as u64;
        proof {
            lemma_fundamental_div_mod(tu as int, du as int);
            assert((du as int) * (tu as int / du as int) == (tu as int / du as int) * (du as int))
                by (nonlinear_arith);
        }
        ((tu / du) as i64, (tu % du) as i64)
    } else {
        let m: u128 = (-(t as i128)) as u128;
        let qm: u128 = m / (du as u128);
        let rm: u128 = m % (du as u128);
        proof {
            assert(qm <= 0x4000_0000_0000_0000u128) by (nonlinear_arith)
                requires
                    qm == m / (du as u128),
                    2 <= du as u128,
                    m <= 0x8000_0000_0000_0000u128,
            ;
            lemma_fundamental_div_mod(m as int, du as int);
            assert((-(qm as int)) * (du as int) == -((du as int) * (qm as int)) && (-(
            qm as int) - 1) * (du as int) == -((du as int) * (qm as int)) - (du as int))
                by (nonlinear_arith);
        }
        if rm == 0 {
            (-(qm as i64), 0)
        } else {
            (-(qm as i64) - 1, d - (rm as i64))
        }
    };
    proof {
        lemma_fundamental_div_mod_converse(t as int, d as int, q as int, rem as int);
    }
    (q, rem)
}

/// The rational half-wave: a quadratic-over-quadratic sine approximation on
/// `[0, PI)`, exact at the ends and the crest.
pub open spec fn half_sin_spec(rem: int) -> int {
    let p = rem * (PI_MICROS as int - rem);
    (16 * p * FX_SCALE as int) / (5 * PI_MICROS as int * PI_MICROS as int - 4 * p)
}

/// The approximate sine of an angle in fixed-point radians: reduce by half
/// turns, apply the half wave, flip sign on odd half turns.
pub open spec fn sin_spec(t: int) -> int {
    let q = t / (PI_MICROS as int);
    let rem = t % (PI_MICROS as int);
    if q % 2 == 0 {
        half_sin_spec(rem)
    } else {
        -half_sin_spec(rem)
    }
}

/// The approximate sine, pinned to `sin_spec` and bounded by one in
/// magnitude.  Positive on the first half turn, negative on the second.
pub fn fx_sin(t: Fx) -> (r: Fx)
    ensures
        r@ == sin_spec(t@),
        -(FX_SCALE as int) <= r@ <= FX_SCALE as int,
{
    let (q, rem) = floor_div_rem(t.to_micros(), PI_MICROS);
    proof {
        assert(0 <= rem * (PI_MICROS as int - rem) && 4 * (rem * (PI_MICROS as int - rem)) <= (
        PI_MICROS as int) * (PI_MICROS as int)) by (nonlinear_arith)
            requires
                0 <= rem < PI_MICROS as int,
        ;
    }
    let p: i64 = rem * (PI_MICROS - rem);
    let num: u128 = 16 * (p as u128) * 1_000_000;
    let den: u128 = (5 * (PI_MICROS as u128) * (PI_MICROS as u128)) - 4 * (p as u128);
    proof {
        assert(num <= den * 1_000_000) by (nonlinear_arith)
            requires
                16 * (p as int) <= 5 * (PI_MICROS as int) * (PI_MICROS as int) - 4 * (p as int),
                num == 16 * (p as int) * 1_000_000,
                den == 5 * (PI_MICROS as int) * (PI_MICROS as int) - 4 * (p as int),
        ;
        assert(0 <= num as int / den as int <= FX_SCALE as int) by (nonlinear_arith)
            requires
                den > 0,
                num <= den * 1_000_000,
        ;
    }
    let h: i64 = (num / den) as i64;
    proof {
        assert(h as int == half_sin_spec(rem as int));
    }
    let even = if q >= 0 {
        (q as u64) % 2 == 0
    } else {
        ((-(q as i128)) as u128) % 2 == 0
    };
    proof {
        if q < 0 {
            assert((q as int) % 2 == ((-(q as int)) % 2));
        }
    }
    if even {
        Fx::from_micros(h)
    } else {
        Fx::from_micros(-h)
    }
}

/// The piecewise-linear binary logarithm of `v` millionths, in millionths:
/// halve above one, double below a half, and interpolate linearly on the
/// final octave.
pub open spec fn log2_approx(v: int) -> int
    recommends
        v >= 1,
    decreases
            (if v > FX_SCALE as int {
                v + FX_SCALE as int
            } else {
                FX_SCALE as int - v
            }),
    when v >= 1
{
    if v > FX_SCALE as int {
        FX_SCALE as int + log2_approx(v / 2)
    } else if 2 * v <= FX_SCALE as int {
        log2_approx(2 * v) - FX_SCALE as int
    } else {
        2 * v - 2 * FX_SCALE as int
    }
}

/// The binary logarithm is not positive at or below one.
pub proof fn lemma_log2_nonpos(v: int)
    requires
        1 <= v <= FX_SCALE as int,
    ensures
        log2_approx(v) <= 0,
    decreases FX_SCALE as int - v,
{
    if 2 * v <= FX_SCALE as int {
        lemma_log2_nonpos(2 * v);
    }
}

/// The binary logarithm, pinned to `log2_approx`.
pub fn log2_fx(v: Fx) -> (r: Fx)
    requires
        1 <= v@,
    ensures
        r@ == log2_approx(v@),
        v@ <= FX_SCALE as int ==> r@ <= 0,
{
    let ghost v0 = v@;
    let mut x: i64 = v.to_micros();
    let mut k: i64 = 0;
    proof {
        lemma2_to64();
        assert(x as int * pow2(0) == x as int && (x as int + 1) * pow2(0) == x as int + 1)
            by (nonlinear_arith)
            requires
                pow2(0) == 1,
        ;
    }
    while x > FX_SCALE
        invariant
            1 <= x,
            0 <= k <= 63,
            log2_approx(v0) == k * FX_SCALE as int + log2_approx(x as int),
            x as int * pow2(k as nat) <= v0,
            v0 < (x as int + 1) * pow2(k as nat),
            v0 <= i64::MAX as int,
        decreases x,
    {
        let x2 = {
            let xu = x as u64;
            (xu / 2) as i64
        };
        proof {
            lemma_pow2_unfold((k + 1) as nat);
            assert(x2 as int * pow2((k + 1) as nat) <= x as int * pow2(k as nat) && (x as int + 1)
                * pow2(k as nat) <= (x2 as int + 1) * pow2((k + 1) as nat)) by (nonlinear_arith)
                requires
                    x2 == x as int / 2,
                    x >= 2,
                    pow2((k + 1) as nat) == 2 * pow2(k as nat),
                    pow2(k as nat) >= 0,
            ;
            // The count of halvings stays small: otherwise the scaled value
            // would exceed the 64-bit range.
            lemma2_to64();
            if k >= 63 {
                lemma_pow2_strictly_increases(62, k as nat);
                assert(x as int * pow2(k as nat) > i64::MAX as int) by (nonlinear_arith)
                    requires
                        x as int > FX_SCALE as int,
                        pow2(k as nat) >= 0x4000_0000_0000_0000,
                ;
            }
            assert(log2_approx(x as int) == FX_SCALE as int + log2_approx(x as int / 2));
        }
        x = x2;
        k = k + 1;
    }
    let ghost xm = x as int;
    let ghost km = k as int;
    let mut m: u64 = 0;
    while 2 * x <= FX_SCALE
        invariant
            1 <= x <= FX_SCALE,
            0 <= m <= 20,
            x as int == xm * pow2(m as nat),
            1 <= xm,
            k == km - m,
            0 <= km <= 63,
            log2_approx(v0) == km * FX_SCALE as int + log2_approx(xm),
            log2_approx(xm) == log2_approx(x as int) - m * FX_SCALE as int,
        decreases FX_SCALE as int - x,
    {
        proof {
            lemma_pow2_unfold((m + 1) as nat);
            assert(2 * (x as int) == xm * pow2((m + 1) as nat)) by (nonlinear_arith)
                requires
                    x as int == xm * pow2(m as nat),
                    pow2((m + 1) as nat) == 2 * pow2(m as nat),
            ;
            lemma2_to64();
            if m >= 20 {
                lemma_pow2_strictly_increases(20, (m + 1) as nat);
                assert(xm * pow2((m + 1) as nat) > FX_SCALE as int) by (nonlinear_arith)
                    requires
                        xm >= 1,
                        pow2((m + 1) as nat) > 1_048_576,
                ;
            }
            assert(log2_approx(2 * x as int) - FX_SCALE as int == log2_approx(x as int));
        }
        x = 2 * x;
        m = m + 1;
        k = k - 1;
    }
    proof {
        assert(log2_approx(v0) == k * FX_SCALE as int + log2_approx(x as int));
        assert(log2_approx(x as int) == 2 * x - 2 * FX_SCALE as int);
        if v0 <= FX_SCALE as int {
            lemma_log2_nonpos(v0);
        }
    }
    Fx::from_micros(k * FX_SCALE + (2 * x - 2 * FX_SCALE))
}

/// The negated natural logarithm of a value in `(0, 1]`, through the binary
/// logarithm: `-ln(u) == -log2(u) · ln 2`.
pub open spec fn neg_ln_spec(u: int) -> int {
    fx_mul(fx_neg(log2_approx(u)), LN2_MICROS as int)
}

/// The negated natural logarithm of a unit-interval value, used for the
/// exponential free-path draw of a participating medium.
pub fn neg_ln_unit(u: Fx) -> (r: Fx)
    requires
        1 <= u@ <= FX_SCALE as int,
    ensures
        r@ == neg_ln_spec(u@),
        r@ >= 0,
{
    let l = log2_fx(u);
    let r = l.neg().mul(Fx::from_micros(LN2_MICROS));
    proof {
        assert(fx_neg(l@) >= 0);
        assert(fx_neg(l@) * LN2_MICROS as int >= 0) by (nonlinear_arith)
            requires
                fx_neg(l@) >= 0,
        ;
    }
    r
}

/// Repeated saturating doubling.
pub open spec fn dbl_k(x: int, k: nat) -> int
    decreases k,
{
    if k == 0 {
        x
    } else {
        crate::fixed::sat64(2 * dbl_k(x, (k - 1) as nat))
    }
}

/// Repeated halving, truncating toward zero on nonnegative values.
pub open spec fn hlv_k(x: int, k: nat) -> int
    decreases k,
{
    if k == 0 {
        x
    } else {
        hlv_k(x, (k - 1) as nat) / 2
    }
}

/// The piecewise-linear power of two of `m` millionths: split into whole
/// exponent and fraction, interpolate the fraction linearly, then shift.
pub open spec fn exp2_approx(m: int) -> int {
    let q = m / (FX_SCALE as int);
    let f = m % (FX_SCALE as int);
    if q >= 0 {
        dbl_k(FX_SCALE as int + f, q as nat)
    } else {
        hlv_k(FX_SCALE as int + f, (-q) as nat)
    }
}

/// The power of two, pinned to `exp2_approx`; not negative, and at most one
/// when the exponent is not positive.
pub fn exp2_fx(m: Fx) -> (r: Fx)
    requires
        -100_000_000_000 <= m@ <= 100_000_000_000,
    ensures
        r@ == exp2_approx(m@),
        r@ >= 0,
        m@ < 0 ==> r@ <= FX_SCALE as int,
{
    let (q, f) = floor_div_rem(m.to_micros(), FX_SCALE);
    let base: i64 = FX_SCALE + f;
    if q >= 0 {
        let mut acc: i64 = base;
        let mut i: i64 = 0;
        while i < q
            invariant
                0 <= i <= q,
                q <= 100_000,
                acc as int == dbl_k(base as int, i as nat),
                acc >= 0,
            decreases q - i,
        {
            acc = crate::fixed::Fx::from_micros(acc).add(crate::fixed::Fx::from_micros(acc))
                .to_micros();
            i = i + 1;
        }
        proof {
            if m@ < 0 {
                assert(false);
            }
        }
        Fx::from_micros(acc)
    } else {
        let mut acc: i64 = base;
        let mut i: i64 = 0;
        let n = -q;
        while i < n
            invariant
                0 <= i <= n,
                n <= 100_000,
                acc as int == hlv_k(base as int, i as nat),
                0 <= acc <= 2 * FX_SCALE as int,
            decreases n - i,
        {
            acc = ((acc as u64) / 2) as i64;
            i = i + 1;
        }
        proof {
            lemma_hlv_le(base as int, n as nat);
        }
        Fx::from_micros(acc)
    }
}

/// One halving already brings a sub-two value to at most one.
proof fn lemma_hlv_le(x: int, k: nat)
    requires
        0 <= x <= 2 * FX_SCALE as int,
        k >= 1,
    ensures
        0 <= hlv_k(x, k) <= FX_SCALE as int,
    decreases k,
{
    if k == 1 {
        assert(hlv_k(x, 0) == x);
        assert(hlv_k(x, 1) == x / 2);
    } else {
        lemma_hlv_le(x, (k - 1) as nat);
        assert(hlv_k(x, k) == hlv_k(x, (k - 1) as nat) / 2);
    }
}

/// The approximate power `v` to the `e`, through the binary logarithm and
/// exponential, with the exponent clamped to the range the exponential
/// takes.
pub open spec fn pow_approx(v: int, e: int) -> int {
    let m = fx_mul(log2_approx(v), e);
    if m > 100_000_000_000 {
        i64::MAX as int
    } else if m < -100_000_000_000 {
        0
    } else {
        exp2_approx(m)
    }
}

/// The approximate power, pinned to `pow_approx`.  An exponent in `(0, 1]`
/// keeps a unit-interval value inside the unit interval.
pub fn pow_fx(v: Fx, e: Fx) -> (r: Fx)
    requires
        1 <= v@,
    ensures
        r@ == pow_approx(v@, e@),
        r@ >= 0,
        v@ <= FX_SCALE as int && e@ > 0 ==> r@ <= FX_SCALE as int,
{
    let l = log2_fx(v);
    let m = l.mul(e);
    proof {
        if v@ <= FX_SCALE as int && e@ > 0 {
            assert(log2_approx(v@) * e@ <= 0) by (nonlinear_arith)
                requires
                    log2_approx(v@) <= 0,
                    e@ > 0,
            ;
        }
    }
    if m.to_micros() > 100_000_000_000 {
        Fx::from_micros(i64::MAX)
    } else if m.to_micros() < -100_000_000_000 {
        Fx::zero()
    } else {
        let r = exp2_fx(m);
        proof {
            if v@ <= FX_SCALE as int && e@ > 0 && m@ == 0 {
                assert(exp2_approx(0) == FX_SCALE as int);
            }
        }
        r
    }
}

} // verus!
