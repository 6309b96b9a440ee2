//! Fixed-point conventions shared by the whole engine.
//!
//! Lengths (positions, radii) are Q16.16 subpixel units: one pixel is
//! [`UNIT`] steps. Orientations are binary angle units: one full turn is
//! [`TURN`] steps, so a half turn ([`HALF_TURN`]) represents pi exactly and
//! wrapping an angle is exact integer arithmetic.

use vstd::prelude::*;

verus! {

/// Length unit: one pixel in Q16.16 subpixel steps.
pub const UNIT: i64 = 65536;

/// Angle unit: one full turn (two pi).
pub const TURN: i64 = 4294967296;

/// Half a turn: the exact representation of pi.
pub const HALF_TURN: i64 = 2147483648;

/// A quarter turn: the exact representation of pi over two.
pub const QUARTER_TURN: i64 = 1073741824;

/// An eighth of a turn: the exact representation of pi over four.
pub const EIGHTH_TURN: i64 = 536870912;

/// Scale of the trigonometric tables: sine and cosine are returned in
/// Q1.15, so a value of `TRIG_ONE` stands for 1.0.
pub const TRIG_ONE: i64 = 32768;

/// Largest radius a well-formed node may have (32768 pixels).
pub const RADIUS_MAX: i64 = 2147483648;

/// Largest magnitude a rotation limit may have (four full turns).
pub const ANGLE_LIMIT: i64 = 17179869184;

/// Bound on the coordinates and rotation of every well-formed node.
pub const POSE_BOUND: i64 = 4503599627370496;

/// Tighter bound asked of root poses, anchors and targets, so that a
/// kinematic pass started from them stays within [`POSE_BOUND`].
pub const ROOT_BOUND: i64 = 1125899906842624;

/// Longest chain the solvers accept.
pub const CHAIN_MAX: usize = 4096;

/// A 2D point or vector in Q16.16 subpixel units.
#[derive(Clone, Copy, Debug, PartialEq, Eq, Structural)]
pub struct Vec2 {
    pub x: i64,
    pub y: i64,
}

/// The mathematical value of a [`Vec2`]: a pair of unbounded integers.
pub ghost struct Vec2View {
    pub x: int,
    pub y: int,
}

impl View for Vec2 {
    type V = Vec2View;

    open spec fn view(&self) -> Vec2View {
        Vec2View { x: self.x as int, y: self.y as int }
    }
}

impl Vec2 {
    /// The origin.
    pub fn zero() -> (r: Vec2)
        ensures
            r.x == 0,
            r.y == 0,
    {
        Vec2 { x: 0, y: 0 }
    }

    /// Builds a vector from its two coordinates.
    pub fn new(x: i64, y: i64) -> (r: Vec2)
        ensures
            r.x == x,
            r.y == y,
    {
        Vec2 { x, y }
    }
}

/// Euclidean remainder of `a` modulo a full turn, in `[0, TURN)`.
pub fn emod_turn(a: i64) -> (r: i64)
    ensures
        r == a as int % (TURN as int),
        0 <= r < TURN,
{
    let m = a % TURN;
    if m < 0 {
        m + TURN
    } else {
        m
    }
}

/// `x` clamped to the interval `[lo, hi]`.
pub open spec fn spec_clamp(x: int, lo: int, hi: int) -> int {
    if x < lo {
        lo
    } else if x > hi {
        hi
    } else {
        x
    }
}

/// Clamps `x` to `[lo, hi]`.
pub fn clamp(x: i64, lo: i64, hi: i64) -> (r: i64)
    requires
        lo <= hi,
    ensures
        r == spec_clamp(x as int, lo as int, hi as int),
{
    if x < lo {
        lo
    } else if x > hi {
        hi
    } else {
        x
    }
}

} // verus!
