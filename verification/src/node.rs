//! A single joint of a kinematic chain: a circular segment with a radius,
//! a world position, an orientation, and the allowed range of its
//! orientation relative to its parent.

use vstd::prelude::*;

use crate::fx::{Vec2, Vec2View, ANGLE_LIMIT, POSE_BOUND, RADIUS_MAX, TURN};

verus! {

/// The default rotation limit: 40 degrees on either side of the parent.
pub const DEFAULT_ANGLE: i64 = 477218588;

/// The default radius: 80 pixels.
pub const DEFAULT_RADIUS: i64 = 5242880;

/// One circular segment of a chain.
///
/// `rotation` is a binary angle and is not wrapped automatically; the
/// solvers reason modulo a full turn. `min_rotation` and `max_rotation`
/// bound the signed offset of this node's orientation relative to its
/// parent's during a constrained pass.
#[derive(Clone, Copy, Debug, PartialEq, Eq, Structural)]
pub struct Node {
    pub radius: i64,
    pub pos: Vec2,
    pub rotation: i64,
    pub max_rotation: i64,
    pub min_rotation: i64,
}

/// The mathematical value of a [`Node`]: its fields as unbounded integers.
pub ghost struct NodeView {
    pub radius: int,
    pub pos: Vec2View,
    pub rotation: int,
    pub max_rotation: int,
    pub min_rotation: int,
}

impl NodeView {
    /// A node the solvers can work on: positive radius, ordered rotation
    /// limits, and every field within the fixed-point working range.
    pub open spec fn wf(self) -> bool {
        &&& 0 < self.radius <= RADIUS_MAX
        &&& -ANGLE_LIMIT <= self.min_rotation <= self.max_rotation <= ANGLE_LIMIT
        &&& -POSE_BOUND <= self.pos.x <= POSE_BOUND
        &&& -POSE_BOUND <= self.pos.y <= POSE_BOUND
        &&& -POSE_BOUND <= self.rotation <= POSE_BOUND
    }
}

impl View for Node {
    type V = NodeView;

    open spec fn view(&self) -> NodeView {
        NodeView {
            radius: self.radius as int,
            pos: self.pos@,
            rotation: self.rotation as int,
            max_rotation: self.max_rotation as int,
            min_rotation: self.min_rotation as int,
        }
    }
}

impl Default for Node {
    /// A node of the default radius at the origin, pointing along the
    /// positive x axis, with the default symmetric rotation limit.
    fn default() -> (r: Node)
        ensures
            r.radius == DEFAULT_RADIUS,
            r.pos.x == 0 && r.pos.y == 0,
            r.rotation == 0,
            r.max_rotation == DEFAULT_ANGLE,
            r.min_rotation == -DEFAULT_ANGLE,
            r@.wf(),
    {
        Node {
            radius: DEFAULT_RADIUS,
            pos: Vec2 { x: 0, y: 0 },
            rotation: 0,
            max_rotation: DEFAULT_ANGLE,
            min_rotation: -DEFAULT_ANGLE,
        }
    }
}

impl Node {
    /// A node of size `radius` with the default values for every other
    /// field.
    pub fn new(radius: i64) -> (r: Node)
        requires
            0 < radius <= RADIUS_MAX,
        ensures
            r.radius == radius,
            r.pos.x == 0 && r.pos.y == 0,
            r.rotation == 0,
            r.max_rotation == DEFAULT_ANGLE,
            r.min_rotation == -DEFAULT_ANGLE,
            r@.wf(),
    {
        Node { radius, ..Default::default() }
    }

    /// A node whose joint is rigid: both rotation limits equal `rotation`,
    /// so a constrained pass always places it at exactly that offset from
    /// its parent.
    pub fn locked(radius: i64, rotation: i64) -> (r: Node)
        requires
            0 < radius <= RADIUS_MAX,
            -ANGLE_LIMIT <= rotation <= ANGLE_LIMIT,
        ensures
            r.radius == radius,
            r.pos.x == 0 && r.pos.y == 0,
            r.rotation == 0,
            r.max_rotation == rotation,
            r.min_rotation == rotation,
            r@.wf(),
    {
        Node { radius, max_rotation: rotation, min_rotation: rotation, ..Default::default() }
    }

    /// A node with a full turn of play on either side: effectively
    /// unconstrained, since an angular span can never exceed a full turn.
    pub fn unlocked(radius: i64) -> (r: Node)
        requires
            0 < radius <= RADIUS_MAX,
        ensures
            r.radius == radius,
            r.pos.x == 0 && r.pos.y == 0,
            r.rotation == 0,
            r.max_rotation == TURN,
            r.min_rotation == -TURN,
            r@.wf(),
    {
        Node { radius, max_rotation: TURN, min_rotation: -TURN, ..Default::default() }
    }

    /// A node with a symmetric rotation limit: `-|angle|` to `|angle|`.
    pub fn angle(radius: i64, angle: i64) -> (r: Node)
        requires
            0 < radius <= RADIUS_MAX,
            -ANGLE_LIMIT <= angle <= ANGLE_LIMIT,
        ensures
            r.radius == radius,
            r.pos.x == 0 && r.pos.y == 0,
            r.rotation == 0,
            r.max_rotation == (if angle >= 0 { angle as int } else { -(angle as int) }),
            r.min_rotation == -r.max_rotation,
            r@.wf(),
    {
        let magnitude = if angle >= 0 {
            angle
        } else {
            -angle
        };
        Node { radius, max_rotation: magnitude, min_rotation: -magnitude, ..Default::default() }
    }

    /// A node with the given rotation limits.
    pub fn angles(radius: i64, min: i64, max: i64) -> (r: Node)
        requires
            0 < radius <= RADIUS_MAX,
            -ANGLE_LIMIT <= min <= max <= ANGLE_LIMIT,
        ensures
            r.radius == radius,
            r.pos.x == 0 && r.pos.y == 0,
            r.rotation == 0,
            r.max_rotation == max,
            r.min_rotation == min,
            r@.wf(),
    {
        Node { radius, max_rotation: max, min_rotation: min, ..Default::default() }
    }
}

} // verus!
