//! The fixed-point scalar and the dyadic approximations.

use ray_tracing::approx::{fx_sin, log2_fx, neg_ln_unit, pow_fx};
use ray_tracing::fixed::{Fx, FX_SCALE};

#[test]
fn fx_add_and_saturation() {
    let a = Fx::from_micros(1_500_000);
    let b = Fx::from_micros(2_500_000);
    assert_eq!(a.add(b).to_micros(), 4_000_000);
    let big = Fx::from_micros(i64::MAX);
    assert_eq!(big.add(Fx::one()).to_micros(), i64::MAX);
    let small = Fx::from_micros(i64::MIN);
    assert_eq!(small.sub(Fx::one()).to_micros(), i64::MIN);
}

#[test]
fn fx_mul_truncates_toward_zero() {
    // 1.5 * 2.5 == 3.75
    assert_eq!(
        Fx::from_micros(1_500_000).mul(Fx::from_micros(2_500_000)).to_micros(),
        3_750_000
    );
    // (-0.000001) * 0.5 truncates to zero, not away from it.
    assert_eq!(Fx::from_micros(-1).mul(Fx::from_micros(500_000)).to_micros(), 0);
}

#[test]
fn fx_div_by_zero_saturates_by_sign() {
    let z = Fx::zero();
    assert_eq!(Fx::one().div(z).to_micros(), i64::MAX);
    assert_eq!(Fx::one().neg().div(z).to_micros(), i64::MIN);
    assert_eq!(z.div(z).to_micros(), 0);
}

#[test]
fn fx_div_exact_and_truncating() {
    assert_eq!(Fx::from_whole(3).div(Fx::from_whole(2)).to_micros(), 1_500_000);
    // 0.1 / 1.2 == 0.08333...
    assert_eq!(
        Fx::from_micros(100_000).div(Fx::from_micros(1_200_000)).to_micros(),
        83_333
    );
}

#[test]
fn fx_sqrt_exact_square_and_floor() {
    assert_eq!(Fx::from_whole(4).sqrt().to_micros(), 2_000_000);
    assert_eq!(Fx::from_micros(250_000).sqrt().to_micros(), 500_000);
    // sqrt(2) floors to 1.414213...
    assert_eq!(Fx::from_whole(2).sqrt().to_micros(), 1_414_213);
    assert_eq!(Fx::from_micros(-5).sqrt().to_micros(), 0);
}

#[test]
fn fx_clamp_min_max() {
    let lo = Fx::zero();
    let hi = Fx::one();
    assert_eq!(Fx::from_micros(-3).clamp(lo, hi).to_micros(), 0);
    assert_eq!(Fx::from_micros(1_000_001).clamp(lo, hi).to_micros(), 1_000_000);
    assert_eq!(Fx::from_micros(77).clamp(lo, hi).to_micros(), 77);
    assert_eq!(Fx::one().min(Fx::zero()).to_micros(), 0);
    assert_eq!(Fx::one().max(Fx::zero()).to_micros(), 1_000_000);
}

#[test]
fn sin_endpoints_and_signs() {
    assert_eq!(fx_sin(Fx::zero()).to_micros(), 0);
    // Positive on the first half turn, negative on the second.
    assert!(fx_sin(Fx::from_micros(1_570_796)).to_micros() > 900_000);
    assert!(fx_sin(Fx::from_micros(1_570_796)).to_micros() <= 1_000_000);
    assert!(fx_sin(Fx::from_micros(4_712_389)).to_micros() < -900_000);
    // A negative angle lands on the negative half wave.
    assert!(fx_sin(Fx::from_micros(-1_570_796)).to_micros() < 0);
}

#[test]
fn log2_of_powers_of_two() {
    assert_eq!(log2_fx(Fx::one()).to_micros(), 0);
    assert_eq!(log2_fx(Fx::from_whole(2)).to_micros(), 1_000_000);
    assert_eq!(log2_fx(Fx::from_whole(8)).to_micros(), 3_000_000);
    assert_eq!(log2_fx(Fx::from_micros(500_000)).to_micros(), -1_000_000);
    assert_eq!(log2_fx(Fx::from_micros(250_000)).to_micros(), -2_000_000);
}

#[test]
fn neg_ln_of_one_is_zero_and_grows() {
    assert_eq!(neg_ln_unit(Fx::one()).to_micros(), 0);
    let half = neg_ln_unit(Fx::from_micros(500_000)).to_micros();
    // -ln(0.5) == ln 2.
    assert_eq!(half, 693_147);
    let small = neg_ln_unit(Fx::from_micros(1)).to_micros();
    assert!(small > half);
}

#[test]
fn pow_square_root_via_half_exponent() {
    // 0.25 ^ 0.5 == 0.5 exactly on the dyadic grid.
    let r = pow_fx(Fx::from_micros(250_000), Fx::from_micros(500_000));
    assert_eq!(r.to_micros(), 500_000);
    // An exponent of one is close to the identity on powers of two.
    let r = pow_fx(Fx::from_whole(2), Fx::one());
    assert_eq!(r.to_micros(), 2_000_000);
}

#[test]
fn scalar_comparisons() {
    assert!(Fx::zero() < Fx::one());
    assert!(Fx::from_micros(-5) < Fx::zero());
    assert_eq!(Fx::from_micros(7), Fx::from_micros(7));
    assert_eq!(FX_SCALE, 1_000_000);
}
