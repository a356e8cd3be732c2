//! The filter's injectable random source. A `RandomGenerator` is either
//! seeded (a pseudo-random generator of the `rand` crate, reproducible from
//! a `u64` seed) or scripted (a fixed sequence of values consumed in order,
//! for deterministic runs). Every stochastic operation of the filter draws
//! through this handle; only the two thin wrappers over `rand` are trusted.

use crate::utils::clamp_i64;
use crate::{SCALE, SPEED_MAX, WEIGHT_SCALE};
use rand::rngs::StdRng;
use vstd::prelude::*;

verus! {

/// Declares rand's `StdRng` so the generator can hold one; the type is
/// opaque to the verifier.
#[verifier::external_type_specification]
#[verifier::external_body]
pub struct ExStdRng(StdRng);

/// Relies on rand's `SeedableRng::seed_from_u64`: builds a pseudo-random
/// generator from a word-sized seed; nothing is assumed of its stream.
#[verifier::external_body]
fn std_rng_from_seed(seed: u64) -> StdRng {
    <StdRng as rand::SeedableRng>::seed_from_u64(seed)
}

/// Relies on rand's `RngExt::random_range` over an `i64` half-open range:
/// it returns a value uniformly distributed in `[lo, hi)` and panics only
/// when the range is empty, which the precondition rules out.
#[verifier::external_body]
fn std_rng_range(rng: &mut StdRng, lo: i64, hi: i64) -> (r: i64)
    requires
        lo < hi,
    ensures
        lo <= r < hi,
{
    rand::RngExt::random_range(rng, lo..hi)
}

/// Largest span a single uniform draw may cover.
pub const SPAN_MAX: i64 = 4_000_000_000_000_000_000;

/// An injectable source of randomness: a seeded pseudo-random generator,
/// or a fixed script of values consumed cyclically.
pub enum RandomGenerator {
    Seeded { rng: StdRng },
    Scripted { vals: Vec<i64>, next: usize },
}

/// The value a scripted source folds into `[lo, hi)`: the current script
/// entry, reduced modulo the span (`lo` when the script is empty).
pub open spec fn scripted_fold(vals: Seq<i64>, next: int, lo: int, hi: int) -> int {
    if vals.len() == 0 {
        lo
    } else {
        lo + ((vals[next] as int) % (hi - lo))
    }
}

/// The raw value a scripted source hands out (`dflt` when the script is
/// empty).
pub open spec fn scripted_raw(vals: Seq<i64>, next: int, dflt: int) -> int {
    if vals.len() == 0 {
        dflt
    } else {
        vals[next] as int
    }
}

/// The script position after one draw: one step forward, wrapping around.
pub open spec fn advance(vals: Seq<i64>, next: int) -> int {
    if vals.len() == 0 {
        next
    } else if next + 1 < vals.len() {
        next + 1
    } else {
        0
    }
}

impl RandomGenerator {
    /// A scripted source is well formed when its position is inside the
    /// script (or the script is empty).
    pub open spec fn wf(self) -> bool {
        self is Scripted ==> (self->Scripted_vals@.len() == 0 || (self->Scripted_next as int)
            < self->Scripted_vals@.len())
    }

    /// A reproducible pseudo-random source.
    pub fn seeded(seed: u64) -> (r: RandomGenerator)
        ensures
            r.wf(),
            r is Seeded,
    {
        RandomGenerator::Seeded { rng: std_rng_from_seed(seed) }
    }

    /// A deterministic source that replays `vals` cyclically.
    pub fn scripted(vals: Vec<i64>) -> (r: RandomGenerator)
        ensures
            r.wf(),
            r is Scripted,
            r->Scripted_vals@ == vals@,
            r->Scripted_next == 0,
    {
        RandomGenerator::Scripted { vals, next: 0 }
    }

    /// Draw a value in `[lo, hi)`: uniformly for a seeded source; for a
    /// scripted source, the current script entry folded into the range.
    pub fn random_uniform_range(&mut self, lo: i64, hi: i64) -> (r: i64)
        requires
            old(self).wf(),
            lo < hi,
            hi - lo <= SPAN_MAX,
        ensures
            final(self).wf(),
            lo <= r < hi,
            (*old(self)) is Seeded ==> (*final(self)) is Seeded,
            (*old(self)) is Scripted ==> {
                &&& (*final(self)) is Scripted
                &&& (*final(self))->Scripted_vals@ == (*old(self))->Scripted_vals@
                &&& (*final(self))->Scripted_next as int == advance(
                    (*old(self))->Scripted_vals@,
                    (*old(self))->Scripted_next as int,
                )
                &&& r as int == scripted_fold(
                    (*old(self))->Scripted_vals@,
                    (*old(self))->Scripted_next as int,
                    lo as int,
                    hi as int,
                )
            },
    {
        match self {
            RandomGenerator::Seeded { rng } => std_rng_range(rng, lo, hi),
            RandomGenerator::Scripted { vals, next } => {
                if vals.len() == 0 {
                    lo
                } else {
                    let v = vals[*next];
                    *next = if *next + 1 < vals.len() {
                        *next + 1
                    } else {
                        0
                    };
                    let span = hi - lo;
                    let m = v.checked_rem_euclid(span).unwrap();
                    lo + m
                }
            },
        }
    }

    /// Draw a probability in fixed point: a value in `[0, WEIGHT_SCALE)`.
    pub fn random_uniform(&mut self) -> (r: i64)
        requires
            old(self).wf(),
        ensures
            final(self).wf(),
            0 <= r < WEIGHT_SCALE,
            (*old(self)) is Seeded ==> (*final(self)) is Seeded,
            (*old(self)) is Scripted ==> {
                &&& (*final(self)) is Scripted
                &&& (*final(self))->Scripted_vals@ == (*old(self))->Scripted_vals@
                &&& (*final(self))->Scripted_next as int == advance(
                    (*old(self))->Scripted_vals@,
                    (*old(self))->Scripted_next as int,
                )
                &&& r as int == scripted_fold(
                    (*old(self))->Scripted_vals@,
                    (*old(self))->Scripted_next as int,
                    0,
                    WEIGHT_SCALE as int,
                )
            },
    {
        self.random_uniform_range(0, WEIGHT_SCALE)
    }

    /// Draw an index in `[lo, hi)`.
    pub fn random_usize_uniform_range(&mut self, lo: usize, hi: usize) -> (r: usize)
        requires
            old(self).wf(),
            lo < hi,
            hi <= 0x7fff_ffff_ffff_ffff,
            hi - lo <= SPAN_MAX,
        ensures
            final(self).wf(),
            lo <= r < hi,
            (*old(self)) is Seeded ==> (*final(self)) is Seeded,
            (*old(self)) is Scripted ==> (*final(self)) is Scripted,
    {
        let r = self.random_uniform_range(lo as i64, hi as i64);
        r as usize
    }

    /// Draw from an approximately normal distribution with the given mean
    /// and standard deviation (in fixed point). A seeded source sums twelve
    /// uniform draws; a scripted source hands out its current entry
    /// saturated into the six-sigma interval. Either way the result lies
    /// within six standard deviations of the mean.
    pub fn random_normal(&mut self, mean: i64, std_dev: i64) -> (r: i64)
        requires
            old(self).wf(),
            0 <= std_dev <= SPEED_MAX,
            -SPEED_MAX <= mean <= SPEED_MAX,
        ensures
            final(self).wf(),
            mean - 6 * std_dev <= r <= mean + 6 * std_dev,
            (*old(self)) is Seeded ==> (*final(self)) is Seeded,
            (*old(self)) is Scripted ==> {
                &&& (*final(self)) is Scripted
                &&& (*final(self))->Scripted_vals@ == (*old(self))->Scripted_vals@
                &&& (*final(self))->Scripted_next as int == advance(
                    (*old(self))->Scripted_vals@,
                    (*old(self))->Scripted_next as int,
                )
                &&& r as int == crate::utils::clamp_spec(
                    scripted_raw(
                        (*old(self))->Scripted_vals@,
                        (*old(self))->Scripted_next as int,
                        mean as int,
                    ),
                    mean - 6 * std_dev,
                    mean + 6 * std_dev,
                )
            },
    {
        match self {
            RandomGenerator::Seeded { rng } => {
                let mut acc: i64 = 0;
                let mut i: usize = 0;
                while i < 12
                    invariant
                        i <= 12,
                        0 <= acc <= 999 * i,
                    decreases 12 - i,
                {
                    let d = std_rng_range(rng, 0, SCALE);
                    acc = acc + d;
                    i = i + 1;
                }
                let centered: i64 = acc - 6 * SCALE;
                proof {
                    assert(-6000 <= centered <= 6000);
                    assert(-6000 * std_dev <= std_dev * centered <= 6000 * std_dev
                        && -6_000_000_000_000 <= std_dev * centered <= 6_000_000_000_000)
                        by (nonlinear_arith)
                        requires
                            -6000 <= centered <= 6000,
                            0 <= std_dev <= 1_000_000_000,
                    ;
                }
                let prod: i64 = std_dev * centered;
                let dev: i64 = prod / SCALE;
                proof {
                    assert(dev == crate::utils::tdiv(prod as int, 1000));
                    assert(-6 * std_dev <= dev <= 6 * std_dev) by (nonlinear_arith)
                        requires
                            -6000 * std_dev <= prod <= 6000 * std_dev,
                            0 <= std_dev,
                            dev == crate::utils::tdiv(prod as int, 1000),
                    ;
                }
                mean + dev
            },
            RandomGenerator::Scripted { vals, next } => {
                let v: i64 = if vals.len() == 0 {
                    mean
                } else {
                    let v = vals[*next];
                    *next = if *next + 1 < vals.len() {
                        *next + 1
                    } else {
                        0
                    };
                    v
                };
                clamp_i64(v, mean - 6 * std_dev, mean + 6 * std_dev)
            },
        }
    }
}

} // verus!
