//! Randomness sources.
//!
//! Two kinds of draws are used.  Scene-level choices (gradient tables,
//! partition axes, the convenience samplers on `CVec`) draw from the process
//! generator of the `rand` crate through two trusted wrappers.  The render
//! path instead draws from `Prng`, a small verified generator seeded per
//! worker, so that a render with a fixed seed is a deterministic function of
//! its inputs.

use vstd::prelude::*;

verus! {

use crate::fixed::FX_SCALE;

/// Relies on rand::Rng::gen_range: a draw from `0..FX_SCALE` lies in that
/// half-open range.
#[verifier::external_body]
pub(crate) fn rand_unit_micros() -> (r: i64)
    ensures
        0 <= r < FX_SCALE as int,
{
    rand::Rng::gen_range(&mut rand::thread_rng(), 0..FX_SCALE)
}

/// Relies on rand::Rng::gen_range: a draw from `0..n` is below `n`.
#[verifier::external_body]
pub(crate) fn rand_below(n: usize) -> (r: usize)
    requires
        n > 0,
    ensures
        r < n,
{
    rand::Rng::gen_range(&mut rand::thread_rng(), 0..n)
}

/// One step of the xorshift-star recurrence.
pub open spec fn prng_step(s: u64) -> u64 {
    let a = s ^ (s >> 12u64);
    let b = a ^ (a << 25u64);
    b ^ (b >> 27u64)
}

/// The output word derived from a state.
pub open spec fn prng_out(s: u64) -> u64 {
    s.wrapping_mul(0x2545F4914F6CDD1Du64)
}

/// A small deterministic generator: one per render worker, seeded from the
/// run's seed and the worker's row, as the concurrency model asks.
pub struct Prng {
    pub state: u64,
}

impl Prng {
    pub fn seeded(seed: u64) -> (r: Prng)
        ensures
            r.state == seed | 1u64,
    {
        // An all-zero state would be a fixed point of the recurrence.
        Prng { state: seed | 1 }
    }

    /// Advance the state and hand out one word.
    pub fn next_u64(&mut self) -> (r: u64)
        ensures
            final(self).state == prng_step(old(self).state),
            r == prng_out(final(self).state),
    {
        let s0 = self.state;
        let a = s0 ^ (s0 >> 12);
        let b = a ^ (a << 25);
        let s1 = b ^ (b >> 27);
        self.state = s1;
        s1.wrapping_mul(0x2545F4914F6CDD1D)
    }

    /// A draw in `[0, FX_SCALE)`: a fixed-point value in `[0, 1)`.
    pub fn next_micros(&mut self) -> (r: i64)
        ensures
            final(self).state == prng_step(old(self).state),
            0 <= r < FX_SCALE as int,
    {
        let w = self.next_u64();
        (w % (FX_SCALE as u64)) as i64
    }

    /// A draw in `(-FX_SCALE, FX_SCALE)`: a fixed-point value in `(-1, 1)`.
    pub fn next_micros_signed(&mut self) -> (r: i64)
        ensures
            final(self).state == prng_step(old(self).state),
            -(FX_SCALE as int) < r < FX_SCALE as int,
    {
        let w = self.next_u64();
        (w % (2 * FX_SCALE as u64 - 1)) as i64 - (FX_SCALE - 1)
    }

    /// A draw in `[lo, hi)` millionths; an empty range yields `lo`.
    pub fn next_micros_in(&mut self, lo: i64, hi: i64) -> (r: i64)
        ensures
            final(self).state == prng_step(old(self).state),
            lo < hi ==> lo <= r < hi,
            lo >= hi ==> r == lo,
    {
        let w = self.next_u64();
        if lo < hi {
            let span: u128 = (hi as i128 - lo as i128) as u128;
            let off: u128 = (w as u128) % span;
            ((lo as i128) + (off as i128)) as i64
        } else {
            lo
        }
    }
}

} // verus!
