//! Chain descriptors: plain data naming the nodes a solver pass works on.
//!
//! A descriptor owns no node; it holds identifiers into a
//! [`crate::store::NodeManager`], root first, and may be rebuilt freely by
//! the driver.

use vstd::prelude::*;

use crate::fx::Vec2;
use crate::store::NodeID;

verus! {

/// A chain for forward kinematics: node identifiers, root first. A chain
/// of fewer than two nodes is a no-op for the propagator.
pub struct ForwardKinematic {
    pub nodes: Vec<NodeID>,
}

/// A chain for the FABRIK solver: node identifiers root first, the world
/// position the root is pinned to (or `None` to pin it where it stands at
/// the start of the solve), the world position the tail should reach, and
/// the cycle budget of one call.
pub struct InverseKinematic {
    pub nodes: Vec<NodeID>,
    pub anchor: Option<Vec2>,
    pub target: Vec2,
    pub cycles: usize,
}

} // verus!
