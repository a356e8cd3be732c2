//! Particles: weighted hypotheses about the vessel's kinematic state and
//! latent behavioral mode, together with the full per-step mode history.

use crate::geometry::Point;
use crate::{DIR_SCALE, FULL_TURN, POS_MAX, SPEED_MAX, WEIGHT_MAX};
use vstd::prelude::*;

verus! {

/// One of the closed set of latent behavioral modes: transiting out to the
/// fishing grounds, actively fishing, or transiting back to port.
#[derive(Debug, Clone, Copy, PartialEq, Eq, Hash, Structural)]
pub enum ParticleContextType {
    GoFishing,
    Fishing,
    GoToPort,
}

/// The fixed priority order over modes used to break ties deterministically:
/// lower rank wins.
pub open spec fn rank_spec(m: ParticleContextType) -> int {
    match m {
        ParticleContextType::GoFishing => 0,
        ParticleContextType::Fishing => 1,
        ParticleContextType::GoToPort => 2,
    }
}

impl ParticleContextType {
    /// Position of this mode in the fixed tie-breaking priority order.
    pub fn rank(self) -> (r: u8)
        ensures
            r == rank_spec(self),
    {
        match self {
            ParticleContextType::GoFishing => 0,
            ParticleContextType::Fishing => 1,
            ParticleContextType::GoToPort => 2,
        }
    }

    /// The textual label of this mode.
    pub fn as_str(self) -> (r: &'static str)
        ensures
            r@ == match self {
                ParticleContextType::GoFishing => "GoFishing"@,
                ParticleContextType::Fishing => "Fishing"@,
                ParticleContextType::GoToPort => "GoToPort"@,
            },
    {
        match self {
            ParticleContextType::GoFishing => "GoFishing",
            ParticleContextType::Fishing => "Fishing",
            ParticleContextType::GoToPort => "GoToPort",
        }
    }

    /// Parse a mode from its textual label.
    pub fn from_str(s: &str) -> (r: Option<ParticleContextType>)
        ensures
            r == if s@ == "GoFishing"@ {
                Some(ParticleContextType::GoFishing)
            } else if s@ == "Fishing"@ {
                Some(ParticleContextType::Fishing)
            } else if s@ == "GoToPort"@ {
                Some(ParticleContextType::GoToPort)
            } else {
                None::<ParticleContextType>
            },
    {
        let owned = s.to_owned();
        if owned == "GoFishing".to_owned() {
            Some(ParticleContextType::GoFishing)
        } else if owned == "Fishing".to_owned() {
            Some(ParticleContextType::Fishing)
        } else if owned == "GoToPort".to_owned() {
            Some(ParticleContextType::GoToPort)
        } else {
            None
        }
    }
}

impl Default for ParticleContextType {
    /// The designated start mode of a freshly seeded population, and the
    /// documented fallback label.
    fn default() -> (r: Self)
        ensures
            r == ParticleContextType::GoFishing,
    {
        ParticleContextType::GoFishing
    }
}

/// Two particles agree in every field but possibly the weight, the whole
/// mode history included.
pub open spec fn particle_like_unweighted(a: Particle, b: Particle) -> bool {
    &&& a.pos == b.pos
    &&& a.direction == b.direction
    &&& a.heading == b.heading
    &&& a.speed == b.speed
    &&& a.context == b.context
    &&& a.memory@ == b.memory@
}

/// Two particles agree in every field, the whole mode history included.
pub open spec fn particle_like(a: Particle, b: Particle) -> bool {
    &&& particle_like_unweighted(a, b)
    &&& a.weight == b.weight
}

/// One weighted hypothesis of the filter: kinematic state, current mode,
/// normalized weight, and the append-only history of modes (one entry per
/// processed observation).
#[derive(Debug, Clone)]
pub struct Particle {
    pub pos: Point,
    pub direction: Point,
    pub heading: i64,
    pub speed: i64,
    pub weight: i64,
    pub context: ParticleContextType,
    pub memory: Vec<ParticleContextType>,
}

impl Particle {
    /// An independently mutable copy of this particle, equal to it field
    /// by field (including the whole mode history).
    pub fn duplicate(&self) -> (r: Particle)
        ensures
            r.pos == self.pos,
            r.direction == self.direction,
            r.heading == self.heading,
            r.speed == self.speed,
            r.weight == self.weight,
            r.context == self.context,
            r.memory@ == self.memory@,
    {
        let memory = self.memory.clone();
        proof {
            assert(memory@ =~= self.memory@);
        }
        Particle {
            pos: self.pos,
            direction: self.direction,
            heading: self.heading,
            speed: self.speed,
            weight: self.weight,
            context: self.context,
            memory,
        }
    }

    /// Well-formedness of a particle's kinematic state and weight: every
    /// quantity stays within the world bounds the filter maintains.
    pub open spec fn wf(self) -> bool {
        &&& -POS_MAX <= self.pos.x <= POS_MAX
        &&& -POS_MAX <= self.pos.y <= POS_MAX
        &&& -DIR_SCALE <= self.direction.x <= DIR_SCALE
        &&& -DIR_SCALE <= self.direction.y <= DIR_SCALE
        &&& 0 <= self.heading < FULL_TURN
        &&& -SPEED_MAX <= self.speed <= SPEED_MAX
        &&& 0 <= self.weight <= WEIGHT_MAX
    }
}

/// A recorded snapshot of a whole particle population.
#[derive(Debug, Clone)]
pub struct ParticleHistory {
    pub particles: Vec<Particle>,
}

} // verus!
