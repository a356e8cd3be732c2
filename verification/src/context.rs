//! Coarse two-way context labels and a plain kinematic state record.

use crate::geometry::Point;
use vstd::prelude::*;

verus! {

/// A coarse two-way classification of what the vessel is doing.
#[derive(Debug, Clone, Copy, PartialEq, Eq, Structural)]
pub enum ContextType {
    SAILING,
    FISHING,
}

/// A plain kinematic state with its coarse context label.
#[derive(Debug, Clone, Copy, PartialEq, Eq, Structural)]
pub struct ContextState {
    pub pos: Point,
    pub direction: Point,
    pub heading: i64,
    pub speed: i64,
    pub context: ContextType,
}

} // verus!
