//! A 2D kinematic-chain engine: nodes with rotation limits, a node store,
//! forward-kinematics propagation, and a FABRIK inverse-kinematics solver.
//!
//! All geometry is exact fixed-point arithmetic: positions and radii are
//! Q16.16 subpixel units, orientations are binary angle units in which a
//! full turn is `1 << 32`.

pub mod angle;
pub mod chain;
pub mod fx;
pub mod node;
pub mod solver;
pub mod store;
pub mod trig;
