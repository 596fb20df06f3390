//! The discrete core of an engine that finds where planar cubic Bezier curves
//! meet.
//!
//! A curve is given by its two end points and its two control points. To find
//! the points in which the curves of one sequence meet those of another, or
//! each other, the engine
//!
//! - pairs the curves whose bounding boxes come close, by a sweep
//!   ([`collision_detection`]), and lists the pairs for the narrow phase
//!   ([`plan`]);
//! - chooses for each pair the way of intersecting it: as two lines, as a line
//!   and a curve, or as two curves ([`dispatch`]);
//! - takes points, tangents and distances of single curves ([`curve`]);
//! - clips two curves against each other, each against the fat line of the
//!   other, through the convex hull of its distances ([`hull`]), and goes on
//!   with parts of the curves until the parts have shrunk to a point
//!   ([`clipping`]);
//! - keeps of the roots of a cubic those that lie on the curve ([`roots`]).
//!
//! This crate holds what is decided on the way, and it is verified: which
//! pairs are looked at, which calls are made and in what order, when a search
//! stops, what counts as an intersection. The arithmetic between two decisions
//! is the caller's. Coordinates reach the broad phase as integers, and all
//! else as binary64 numbers by their bits ([`binary64`]), which the crate
//! compares and never computes with.
pub mod binary64;
pub mod clipping;
pub mod collision_detection;
pub mod curve;
pub mod dispatch;
pub mod hull;
pub mod plan;
pub mod roots;
mod sweep;

pub use collision_detection::CollisionDetection;
pub use curve::{evaluate, split_cubic_bezier_part};
pub use dispatch::line_intersection;
pub use hull::get_convex_hull;
pub use plan::{get_intersections, Task};
