use vstd::prelude::*;

use crate::geometry::point::{in_kernel_range, lemma_mul_bound, Point};

verus! {

/// How three points turn: counter-clockwise, clockwise, or along one line
/// (mathematical orientation, y axis pointing up).
#[derive(Clone, Copy, PartialEq, Eq, Debug, Structural)]
pub enum OrientationState {
    CounterClockwise,
    Clockwise,
    Collinear,
}

/// Twice the signed area of the triangle `abc`: the determinant
/// `(a - c) x (b - c)`, positive when `a, b, c` turn counter-clockwise.
pub open spec fn orient_det(a: Point, b: Point, c: Point) -> int {
    (a.x - c.x) * (b.y - c.y) - (a.y - c.y) * (b.x - c.x)
}

/// The orientation that the sign of a determinant stands for.
pub open spec fn orientation_of_sign(d: int) -> OrientationState {
    if d > 0 {
        OrientationState::CounterClockwise
    } else if d < 0 {
        OrientationState::Clockwise
    } else {
        OrientationState::Collinear
    }
}

/// The orientation determinant of three kernel points, computed exactly.
pub fn orient_det_exact(a: &Point, b: &Point, c: &Point) -> (r: i128)
    requires
        in_kernel_range(*a),
        in_kernel_range(*b),
        in_kernel_range(*c),
    ensures
        r == orient_det(*a, *b, *c),
{
    let acx = a.x as i128 - c.x as i128;
    let bcy = b.y as i128 - c.y as i128;
    let acy = a.y as i128 - c.y as i128;
    let bcx = b.x as i128 - c.x as i128;
    proof {
        lemma_mul_bound(acx as int, bcy as int, 0x4000_0000);
        lemma_mul_bound(acy as int, bcx as int, 0x4000_0000);
    }
    acx * bcy - acy * bcx
}

/// Decides how three points turn.
///
/// Implementations may take their decisions in their own way; each states in
/// `orientation_spec` which state it returns.
pub trait Orientation {
    /// The state that `orientation` returns on `a, b, c`.
    spec fn orientation_spec(a: Point, b: Point, c: Point) -> OrientationState;

    fn orientation(a: &Point, b: &Point, c: &Point) -> (r: OrientationState)
        requires
            in_kernel_range(*a),
            in_kernel_range(*b),
            in_kernel_range(*c),
        ensures
            r == Self::orientation_spec(*a, *b, *c),
    ;
}

/// The library's orientation predicate: the exact sign of `orient_det`.
pub struct DefaultOrientation;

impl Orientation for DefaultOrientation {
    open spec fn orientation_spec(a: Point, b: Point, c: Point) -> OrientationState {
        orientation_of_sign(orient_det(a, b, c))
    }

    fn orientation(a: &Point, b: &Point, c: &Point) -> (r: OrientationState) {
        let o = orient_det_exact(a, b, c);
        if o > 0 {
            OrientationState::CounterClockwise
        } else if o < 0 {
            OrientationState::Clockwise
        } else {
            OrientationState::Collinear
        }
    }
}

/// Gives the orientation determinant itself (twice the signed area of the
/// triangle), whose sign carries the same information as `Orientation`.
pub trait OrientationArea {
    fn orientation(a: &Point, b: &Point, c: &Point) -> (r: i128)
        requires
            in_kernel_range(*a),
            in_kernel_range(*b),
            in_kernel_range(*c),
        ensures
            r == orient_det(*a, *b, *c),
    ;
}

/// The library's area predicate: `orient_det`, computed exactly.
pub struct DefaultOrientationArea;

impl OrientationArea for DefaultOrientationArea {
    fn orientation(a: &Point, b: &Point, c: &Point) -> (r: i128) {
        orient_det_exact(a, b, c)
    }
}

} // verus!
