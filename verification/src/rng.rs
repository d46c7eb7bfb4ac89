//! Sources of the random draws the simulation consumes: the process-wide
//! source of the `rand` crate, and a small verified linear congruential
//! generator for seeded, reproducible runs.

use rand::Rng;
use vstd::prelude::*;

verus! {

/// Modulus of the linear congruential generator.
pub const LCG_MODULUS: u64 = 4294967296;

/// Multiplier of the linear congruential generator.
pub const LCG_MULTIPLIER: u64 = 1664525;

/// Increment of the linear congruential generator.
pub const LCG_INCREMENT: u64 = 1013904223;

/// Widest range a draw may be asked for; keeps `hi - lo + 1` and the final
/// sum inside `i64`.
pub const DRAW_BOUND: i64 = 1_000_000_000_000;

/// Relies on rand::Rng::gen_range over an inclusive integer range: it returns
/// a value of the range, and panics only when the range is empty, which the
/// precondition rules out. Nothing more is promised of a random draw.
#[verifier::external_body]
pub(crate) fn rand_inclusive(lo: i64, hi: i64) -> (r: i64)
    requires
        lo <= hi,
    ensures
        lo <= r <= hi,
{
    rand::thread_rng().gen_range(lo..=hi)
}

/// The successor of a generator state.
#[verifier::opaque]
pub open spec fn lcg_next(s: nat) -> nat {
    (s * (LCG_MULTIPLIER as nat) + (LCG_INCREMENT as nat)) % (LCG_MODULUS as nat)
}

/// The state `k` steps after `s`.
pub open spec fn rng_after(s: nat, k: nat) -> nat
    decreases k,
{
    if k == 0 {
        s
    } else {
        lcg_next(rng_after(s, (k - 1) as nat))
    }
}

/// The value drawn from state `s` when a value in `[lo, hi]` is asked for.
pub open spec fn lcg_val(s: nat, lo: int, hi: int) -> int
    recommends
        lo <= hi,
{
    lo + (lcg_next(s) % ((hi - lo + 1) as nat)) as int
}

/// Stepping through the generator `a + b` times is stepping `a` times and
/// then `b` times.
pub proof fn lemma_rng_after_add(s: nat, a: nat, b: nat)
    ensures
        rng_after(s, a + b) == rng_after(rng_after(s, a), b),
    decreases b,
{
    if b > 0 {
        lemma_rng_after_add(s, a, (b - 1) as nat);
    }
}

/// A drawn value lies in the range asked for.
pub proof fn lemma_lcg_val_in_range(s: nat, lo: int, hi: int)
    requires
        lo <= hi,
    ensures
        lo <= lcg_val(s, lo, hi) <= hi,
{
    let w = (hi - lo + 1) as nat;
    assert(lcg_next(s) % w < w) by {
        vstd::arithmetic::div_mod::lemma_mod_bound(lcg_next(s) as int, w as int);
    }
}

/// A deterministic uniform source: a linear congruential generator with a
/// 32-bit state, so that every arithmetic step fits a `u64`. Two generators
/// built from the same seed hand out the same draws in the same order.
#[derive(Clone, Copy, PartialEq, Eq, Structural, Debug)]
pub struct Lcg {
    /// Current state; kept below `LCG_MODULUS`.
    pub state: u64,
}

impl View for Lcg {
    type V = nat;

    open spec fn view(&self) -> nat {
        self.state as nat
    }
}

impl Lcg {
    /// The state is inside the generator's modulus.
    pub open spec fn wf(self) -> bool {
        self.state < LCG_MODULUS
    }

    /// A generator whose draws are fixed by `seed` alone.
    pub fn new(seed: u64) -> (r: Lcg)
        ensures
            r.wf(),
            r@ == (seed as nat) % (LCG_MODULUS as nat),
    {
        Lcg { state: seed % LCG_MODULUS }
    }

    /// One draw: a value in `[lo, hi]` fixed by the current state, which
    /// advances by one step.
    pub fn draw(&mut self, lo: i64, hi: i64) -> (r: i64)
        requires
            old(self).wf(),
            lo <= hi,
            -DRAW_BOUND <= lo,
            hi <= DRAW_BOUND,
        ensures
            final(self).wf(),
            final(self)@ == lcg_next(old(self)@),
            r == lcg_val(old(self)@, lo as int, hi as int),
            lo <= r <= hi,
    {
        proof {
            reveal(lcg_next);
            lemma_lcg_val_in_range(old(self)@, lo as int, hi as int);
        }
        let next: u64 = (self.state * LCG_MULTIPLIER + LCG_INCREMENT) % LCG_MODULUS;
        self.state = next;
        let width: u64 = ((hi - lo) as u64) + 1;
        let rem: u64 = next % width;
        lo + (rem as i64)
    }
}

} // verus!
