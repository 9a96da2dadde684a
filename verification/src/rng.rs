//! Deterministic pseudo-random source.
//!
//! Every caller owns and threads its own 32-bit seed; there is no global
//! random state, so a run is reproducible from the initial seed alone.  The
//! core operation is [`khash`], a pure multiply-xor-shift integer mix; the
//! derived operations draw uniform values and biased coin flips from a seed,
//! and [`SeedStream`] wraps a mutable seed behind advancing (`sample`) and
//! non-advancing (`peek`) draws.
//!
//! Probabilities are expressed as numerators over 2^32: a draw `d` succeeds
//! with probability `p / 2^32` when `d < p`.

use vstd::prelude::*;
use vstd::arithmetic::div_mod::lemma_div_by_multiple;
use vstd::arithmetic::div_mod::lemma_div_is_ordered;
use vstd::arithmetic::div_mod::lemma_div_pos_is_pos;

verus! {

/// One round of the mix: xor, then a wrapping multiply by a large odd
/// constant.
pub open spec fn khash_round(state: u32, x: u32) -> u32 {
    (state ^ x).wrapping_mul(2654435769u32)
}

/// The hash as a mathematical function: three multiply-xor-shift rounds.
pub open spec fn khash_spec(state: u32) -> u32 {
    let a = khash_round(state, 2747636419u32);
    let b = khash_round(a, a >> 16u32);
    khash_round(b, b >> 16u32)
}

/// Pure hash-based random source: same input, same output, on every machine.
pub fn khash(state: u32) -> (r: u32)
    ensures
        r == khash_spec(state),
{
    let a = (state ^ 2747636419u32).wrapping_mul(2654435769u32);
    let b = (a ^ (a >> 16u32)).wrapping_mul(2654435769u32);
    (b ^ (b >> 16u32)).wrapping_mul(2654435769u32)
}

/// A uniform draw from `[lo, hi]`, as a function of the hash value `h`:
/// `lo` plus the fraction `h / 2^32` of the interval's length.
pub open spec fn uniform_of(h: u32, lo: int, hi: int) -> int {
    lo + (h * (hi - lo)) / 0x1_0000_0000
}

/// A uniform draw lands in its interval, whatever the hash value.
pub proof fn lemma_uniform_of_range(h: u32, lo: int, hi: int)
    requires
        lo <= hi,
    ensures
        lo <= uniform_of(h, lo, hi) <= hi,
{
    let range = hi - lo;
    assert(0 <= h * range <= 0x1_0000_0000 * range) by (nonlinear_arith)
        requires
            0 <= h < 0x1_0000_0000,
            range >= 0,
    ;
    lemma_div_pos_is_pos(h * range, 0x1_0000_0000);
    lemma_div_is_ordered(h * range, 0x1_0000_0000 * range, 0x1_0000_0000);
    lemma_div_by_multiple(range, 0x1_0000_0000);
}

/// Draws a value uniformly from the interval `[lo, hi]`.
pub fn kuniform(seed: u32, lo: i64, hi: i64) -> (r: i64)
    requires
        lo <= hi,
        hi - lo < 0x8000_0000,
    ensures
        r == uniform_of(khash_spec(seed), lo as int, hi as int),
        lo <= r <= hi,
{
    let h: u64 = khash(seed) as u64;
    let range: u64 = (hi - lo) as u64;
    proof {
        assert(h * range < 0x8000_0000_0000_0000) by (nonlinear_arith)
            requires
                h < 0x1_0000_0000,
                range < 0x8000_0000,
        ;
    }
    let prod: u64 = h * range;
    let off: u64 = prod / 0x1_0000_0000;
    proof {
        assert(prod <= 0x1_0000_0000 * (range as int)) by (nonlinear_arith)
            requires
                prod == h * range,
                h < 0x1_0000_0000,
        ;
        assert(off <= range) by (nonlinear_arith)
            requires
                off == prod / 0x1_0000_0000,
                prod <= 0x1_0000_0000 * (range as int),
        ;
    }
    lo + (off as i64)
}

/// The hash value of `seed`, read as the numerator of a unit-interval
/// fraction over 2^32.
pub fn krand(seed: u32) -> (r: u32)
    ensures
        r == khash_spec(seed),
{
    khash(seed)
}

/// A coin flip that succeeds with probability `threshold / 2^32`.
pub fn chance(seed: u32, threshold: u32) -> (r: bool)
    ensures
        r == (khash_spec(seed) < threshold),
{
    khash(seed) < threshold
}

/// A random sequence: a mutable seed behind advancing and non-advancing
/// draws.  Repeated `peek`s without a `sample` return the same value, and
/// the next `sample` returns exactly the peeked value.
pub struct SeedStream {
    pub seed: u32,
}

impl SeedStream {
    pub fn new(seed: u32) -> (r: SeedStream)
        ensures
            r.seed == seed,
    {
        SeedStream { seed }
    }

    /// Advances the state and returns the drawn value.
    pub fn sample(&mut self) -> (r: u32)
        ensures
            final(self).seed == khash_spec(old(self).seed),
            r == khash_spec(old(self).seed),
    {
        self.seed = khash(self.seed);
        self.seed
    }

    /// Returns the value the next `sample` would draw, without advancing.
    pub fn peek(&self) -> (r: u32)
        ensures
            r == khash_spec(self.seed),
    {
        khash(self.seed)
    }
}

/// Relies on minirng::hash::next_u32: it replaces the state with the same
/// three-round multiply-xor-shift mix that [`khash`] computes, and returns
/// the new state.
pub assume_specification[ minirng::hash::next_u32 ](state: &mut u32) -> (r: u32)
    ensures
        *final(state) == khash_spec(*old(state)),
        r == khash_spec(*old(state)),
;

/// Relies on minirng::hash::random_seed: a seed derived from the system
/// clock.  Nothing is promised of its value.
#[verifier::external_body]
pub(crate) fn fresh_seed() -> u32 {
    minirng::hash::random_seed()
}

} // verus!
