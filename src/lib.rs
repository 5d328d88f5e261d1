//! Smallest enclosing circle of a finite set of points in the plane, computed
//! with an iterative form of Welzl's move-to-front algorithm.
//!
//! Points have integer coordinates, and every geometric decision (orientation,
//! in-circle) is taken on exact determinants, so the sign tests never round.
//! Centers and radii are returned as exact rationals and square roots.
//! Input coordinates lie within `geometry::point::COORD_LIMIT` in absolute
//! value, which keeps every determinant exact in 128-bit integers.
//!
//! The iterative engine `smallest_enclosing_circle` runs the recursion of
//! `algorithm::welzl` on an explicit work stack and is proved to return the
//! same disk; `smallest_enclosing_circle_recursive` runs the recursion itself.

pub mod algorithm;
pub mod circle;
pub mod geometry;
pub mod predicates;

pub use algorithm::{
    smallest_enclosing_circle, smallest_enclosing_circle_recursive,
    smallest_enclosing_circle_with_predicate,
};
pub use circle::Circle2D;
pub use geometry::point::{Point, PointLike};
