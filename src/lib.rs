//! Transition curves between straights and circular arcs, cut into unit
//! segments of stationing: the parameters of a curve, the division of its
//! length, its curvature laws, and the exact headings of a clothoid.
//!
//! Lengths are whole millimetres; curvatures and headings are fractions.

pub mod args;
pub mod curve;
pub mod divider;
pub mod heading;
pub mod law;
pub mod metres;
