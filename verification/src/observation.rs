//! Observations: immutable, timestamped position reports of the vessel,
//! already converted to fixed-point form by the ingestion layer.

use crate::geometry::Point;
use crate::particle::ParticleContextType;
use crate::{FULL_TURN, POS_MAX, SPEED_MAX, TIME_MAX};
use vstd::prelude::*;

verus! {

/// One input record of the filter: position, time delta since the previous
/// record, heading, speed, and an optional ground-truth mode label (used
/// only for evaluation, carried through unchanged).
#[derive(Debug, Clone, Copy, PartialEq, Eq, Structural)]
pub struct Observation {
    pub pos: Point,
    pub time: i64,
    pub heading: i64,
    pub speed: i64,
    pub context: ParticleContextType,
}

impl Observation {
    /// Well-formedness of an observation: every quantity is within the
    /// world bounds the filter works in.
    pub open spec fn wf(self) -> bool {
        &&& -POS_MAX <= self.pos.x <= POS_MAX
        &&& -POS_MAX <= self.pos.y <= POS_MAX
        &&& 0 <= self.time <= TIME_MAX
        &&& 0 <= self.heading < FULL_TURN
        &&& 0 <= self.speed <= SPEED_MAX
    }
}

} // verus!
