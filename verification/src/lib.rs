//! A sequential Monte Carlo (particle filter) classifier for the latent
//! behavioral mode of a moving vessel, inferred from noisy kinematic
//! observations.
//!
//! All kinematic quantities (positions, headings, speeds, weights) are held
//! in fixed-point form: scaled 64-bit integers, so that every arithmetic
//! step of the filter can be verified. The only unverified code is the thin
//! layer over the `rand` crate that produces uniform integer draws.

pub mod context;
pub mod fishing_context;
pub mod geometry;
pub mod markov_graph;
pub mod observation;
pub mod particle;
pub mod random_generator;
pub mod utils;

use vstd::prelude::*;

verus! {

/// Fixed-point scale for positions, speeds and time deltas: one unit of the
/// physical quantity is `SCALE` ticks (milli-units).
pub const SCALE: i64 = 1000;

/// Headings are kept in milli-degrees; a full turn is `FULL_TURN` ticks.
pub const FULL_TURN: i64 = 360_000;

/// Scale of the components of a unit direction vector.
pub const DIR_SCALE: i64 = 1_000_000;

/// Normalized particle weights sum to exactly `WEIGHT_SCALE`.
pub const WEIGHT_SCALE: i64 = 1_000_000_000;

/// Largest weight a particle ever carries (raw emission scores included).
pub const WEIGHT_MAX: i64 = 1_000_000_000_000;

/// Largest admissible magnitude of a position coordinate (in ticks).
pub const POS_MAX: i64 = 1_000_000_000_000;

/// Largest admissible magnitude of a speed value (in ticks).
pub const SPEED_MAX: i64 = 1_000_000_000;

/// Largest admissible time delta between two observations (in ticks).
pub const TIME_MAX: i64 = 1_000_000_000;

} // verus!
