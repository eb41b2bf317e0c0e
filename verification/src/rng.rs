//! A small linear congruential generator, used to pick random offsets.
use vstd::prelude::*;

verus! {

/// Multiplier of the generator's linear congruential step.
pub const LCG_MULTIPLIER: u64 = 6364136223846793005;

/// Increment of the generator's linear congruential step.
pub const LCG_INCREMENT: u64 = 1442695040888963407;

/// The state that follows `state` in the generator's sequence:
/// `state * LCG_MULTIPLIER + LCG_INCREMENT`, modulo 2^64.
pub open spec fn lcg_next(state: u64) -> u64 {
    ((state * LCG_MULTIPLIER + LCG_INCREMENT) % 0x1_0000_0000_0000_0000int) as u64
}

/// Two wrapping operations in a row compute one step of the generator.
proof fn lemma_wrapping_step(state: u64)
    ensures
        vstd::wrapping::u64_specs::wrapping_add(
            vstd::wrapping::u64_specs::wrapping_mul(state, LCG_MULTIPLIER),
            LCG_INCREMENT,
        ) == lcg_next(state),
{
    let m: int = 0x1_0000_0000_0000_0000int;
    let p: int = state * LCG_MULTIPLIER;
    let c: int = LCG_INCREMENT as int;
    assert(p >= 0) by (nonlinear_arith)
        requires p == state * LCG_MULTIPLIER;
    vstd::arithmetic::div_mod::lemma_add_mod_noop(p, c, m);
    vstd::arithmetic::div_mod::lemma_small_mod(c as nat, m as nat);
    let w: int = p % m;
    assert(0 <= w < m) by {
        vstd::arithmetic::div_mod::lemma_mod_bound(p, m);
    }
    if w + c > u64::MAX {
        assert((w + c) % m == w + c - m) by {
            vstd::arithmetic::div_mod::lemma_mod_add_multiples_vanish(w + c - m, m);
            vstd::arithmetic::div_mod::lemma_small_mod((w + c - m) as nat, m as nat);
        }
    } else {
        vstd::arithmetic::div_mod::lemma_small_mod((w + c) as nat, m as nat);
    }
}

/// Distinct states have distinct successors, so the generator never merges
/// two sequences: every state lies on a cycle of the step.
pub proof fn law_step_is_injective(a: u64, b: u64)
    requires
        lcg_next(a) == lcg_next(b),
    ensures
        a == b,
{
    lemma_wrapping_step(a);
    lemma_wrapping_step(b);
    let ma = vstd::wrapping::u64_specs::wrapping_mul(a, LCG_MULTIPLIER);
    let mb = vstd::wrapping::u64_specs::wrapping_mul(b, LCG_MULTIPLIER);
    assert(ma == mb);
    assert(ma == a * LCG_MULTIPLIER % 0x1_0000_0000_0000_0000int);
    assert(((a * 6364136223846793005u64) % 0x1_0000_0000_0000_0000 * 13877824140714322085u64)
        % 0x1_0000_0000_0000_0000 == a) by (bit_vector);
    assert(((b * 6364136223846793005u64) % 0x1_0000_0000_0000_0000 * 13877824140714322085u64)
        % 0x1_0000_0000_0000_0000 == b) by (bit_vector);
}

/// The seed taken when the clock cannot be read.
pub const FALLBACK_SEED: u64 = 0xDEAD_BEEF_CAFE_BABE;

/// The number that `range_inclusive` draws from a raw output `x`:
/// `lo` plus the remainder of `x` by the width of `lo..=hi`.
pub open spec fn pick_in_range(x: u64, lo: i32, hi: i32) -> int {
    lo + x % ((hi - lo + 1) as u64)
}

/// A draw in `lo..=hi` always lies in the range, and every number of the
/// range is the draw of some generator output.
pub proof fn law_pick_in_range(x: u64, lo: i32, hi: i32, v: i32)
    requires
        lo <= hi,
    ensures
        pick_in_range(x, lo, hi) == lo + (x as int) % (hi - lo + 1),
        lo <= pick_in_range(x, lo, hi) <= hi,
        lo <= v <= hi ==> pick_in_range((v - lo) as u64, lo, hi) == v,
{
    let span = (hi - lo + 1) as u64;
    assert(span as int == hi - lo + 1);
    assert(x % span < span);
    if lo <= v <= hi {
        vstd::arithmetic::div_mod::lemma_small_mod((v - lo) as nat, span as nat);
    }
}

/// A pseudo-random linear congruential generator with a period of 2^64
/// (`crate::period::law_full_period`).
pub struct SmallRng {
    pub state: u64,
}

impl SmallRng {
    /// Seeds a generator from a reading of the clock: the nanoseconds since
    /// the Unix epoch, or `None` when the clock stands before the epoch.
    /// The seed is one generator step past the reading, or past
    /// `FALLBACK_SEED` without one.
    pub fn seed_from_clock(since_epoch_nanos: Option<u64>) -> (r: SmallRng)
        ensures
            r.state == lcg_next(
                match since_epoch_nanos {
                    Some(n) => n,
                    None => FALLBACK_SEED,
                },
            ),
    {
        let nanos = match since_epoch_nanos {
            Some(n) => n,
            None => FALLBACK_SEED,
        };
        proof {
            lemma_wrapping_step(nanos);
        }
        SmallRng { state: nanos.wrapping_mul(LCG_MULTIPLIER).wrapping_add(LCG_INCREMENT) }
    }

    /// Advances the generator by one step and returns its new state.
    pub fn next_u64(&mut self) -> (r: u64)
        ensures
            final(self).state == lcg_next(old(self).state),
            r == final(self).state,
    {
        proof {
            lemma_wrapping_step(self.state);
        }
        self.state = self.state.wrapping_mul(LCG_MULTIPLIER).wrapping_add(LCG_INCREMENT);
        self.state
    }

    /// Draws a number in `lo..=hi`, for any such range of `i32` values (the
    /// width of the range is taken in 64 bits, where it cannot overflow). An
    /// empty range (`hi == lo - 1`) gives `lo` and leaves the generator as it
    /// was.
    pub fn range_inclusive(&mut self, lo: i32, hi: i32) -> (r: i32)
        requires
            lo <= hi + 1,
        ensures
            hi - lo + 1 == 0 ==> r == lo && final(self).state == old(self).state,
            hi - lo + 1 > 0 ==> {
                &&& final(self).state == lcg_next(old(self).state)
                &&& r == pick_in_range(final(self).state, lo, hi)
                &&& lo <= r <= hi
            },
    {
        let span = (hi as i64 - lo as i64 + 1) as u64;
        if span == 0 {
            return lo;
        }
        let x = self.next_u64();
        let k = x % span;
        (lo as i64 + k as i64) as i32
    }
}

} // verus!
