use vstd::prelude::*;

use crate::geometry::point::{in_kernel_range, lemma_mul_bound, Point};

verus! {

/// Where a probe point lies with respect to the circle through three points.
#[derive(Clone, Copy, PartialEq, Eq, Debug, Structural)]
pub enum InCircleState {
    Inside,
    Outside,
    On,
}

/// The in-circle determinant of `a, b, c` and the probe `d`: positive when
/// `d` lies inside the circle through `a, b, c` and these turn
/// counter-clockwise, zero when `d` lies on that circle (or the four points
/// lie on one line).
pub open spec fn incircle_det(a: Point, b: Point, c: Point, d: Point) -> int {
    let (adx, ady) = (a.x - d.x, a.y - d.y);
    let (bdx, bdy) = (b.x - d.x, b.y - d.y);
    let (cdx, cdy) = (c.x - d.x, c.y - d.y);
    let alift = adx * adx + ady * ady;
    let blift = bdx * bdx + bdy * bdy;
    let clift = cdx * cdx + cdy * cdy;
    alift * (bdx * cdy - cdx * bdy) + blift * (cdx * ady - adx * cdy) + clift * (adx * bdy
        - bdx * ady)
}

/// The in-circle state that the sign of a determinant stands for.
pub open spec fn in_circle_of_sign(d: int) -> InCircleState {
    if d > 0 {
        InCircleState::Inside
    } else if d < 0 {
        InCircleState::Outside
    } else {
        InCircleState::On
    }
}

/// `lift * cross` of two differences bounded by `2^30` stays below `2^122`.
proof fn lemma_lift_cross_bound(dx: int, dy: int, ex: int, ey: int, fx: int, fy: int)
    requires
        -0x4000_0000 <= dx <= 0x4000_0000,
        -0x4000_0000 <= dy <= 0x4000_0000,
        -0x4000_0000 <= ex <= 0x4000_0000,
        -0x4000_0000 <= ey <= 0x4000_0000,
        -0x4000_0000 <= fx <= 0x4000_0000,
        -0x4000_0000 <= fy <= 0x4000_0000,
    ensures
        0 <= dx * dx <= 0x1000_0000_0000_0000,
        0 <= dy * dy <= 0x1000_0000_0000_0000,
        -0x1000_0000_0000_0000 <= ex * fy <= 0x1000_0000_0000_0000,
        -0x1000_0000_0000_0000 <= fx * ey <= 0x1000_0000_0000_0000,
        0 <= dx * dx + dy * dy <= 0x2000_0000_0000_0000,
        -0x2000_0000_0000_0000 <= ex * fy - fx * ey <= 0x2000_0000_0000_0000,
        -0x400_0000_0000_0000_0000_0000_0000_0000 <= (dx * dx + dy * dy) * (ex * fy - fx * ey)
            <= 0x400_0000_0000_0000_0000_0000_0000_0000,
{
    lemma_mul_bound(dx, dx, 0x4000_0000);
    lemma_mul_bound(dy, dy, 0x4000_0000);
    lemma_mul_bound(ex, fy, 0x4000_0000);
    lemma_mul_bound(fx, ey, 0x4000_0000);
    assert(0 <= dx * dx && 0 <= dy * dy) by (nonlinear_arith);
    lemma_mul_bound(dx * dx + dy * dy, ex * fy - fx * ey, 0x2000_0000_0000_0000);
}

/// A probe equal to one of the three points lies on their circle.
pub proof fn lemma_incircle_det_at_vertex(a: Point, b: Point, c: Point)
    ensures
        incircle_det(a, b, c, a) == 0,
        incircle_det(a, b, c, b) == 0,
        incircle_det(a, b, c, c) == 0,
{
    let (ax, ay, bx, by, cx, cy) = (a.x as int, a.y as int, b.x as int, b.y as int, c.x as int, c.y as int);
    assert(incircle_det(a, b, c, a) == 0) by {
        let (bdx, bdy, cdx, cdy) = (bx - ax, by - ay, cx - ax, cy - ay);
        let blift = bdx * bdx + bdy * bdy;
        let clift = cdx * cdx + cdy * cdy;
        assert(0 * (bdx * cdy - cdx * bdy) + blift * (cdx * 0 - 0 * cdy) + clift * (0 * bdy - bdx * 0)
            == 0) by (nonlinear_arith);
    }
    assert(incircle_det(a, b, c, b) == 0) by {
        let (adx, ady, cdx, cdy) = (ax - bx, ay - by, cx - bx, cy - by);
        let alift = adx * adx + ady * ady;
        let clift = cdx * cdx + cdy * cdy;
        assert(alift * (0 * cdy - cdx * 0) + 0 * (cdx * ady - adx * cdy) + clift * (adx * 0 - 0 * ady)
            == 0) by (nonlinear_arith);
    }
    assert(incircle_det(a, b, c, c) == 0) by {
        let (adx, ady, bdx, bdy) = (ax - cx, ay - cy, bx - cx, by - cy);
        let alift = adx * adx + ady * ady;
        let blift = bdx * bdx + bdy * bdy;
        assert(alift * (bdx * 0 - 0 * bdy) + blift * (0 * ady - adx * 0) + 0 * (adx * bdy - bdx * ady)
            == 0) by (nonlinear_arith);
    }
}

/// The in-circle determinant of four kernel points, computed exactly.
pub fn incircle_det_exact(a: &Point, b: &Point, c: &Point, d: &Point) -> (r: i128)
    requires
        in_kernel_range(*a),
        in_kernel_range(*b),
        in_kernel_range(*c),
        in_kernel_range(*d),
    ensures
        r == incircle_det(*a, *b, *c, *d),
{
    let adx = a.x as i128 - d.x as i128;
    let ady = a.y as i128 - d.y as i128;
    let bdx = b.x as i128 - d.x as i128;
    let bdy = b.y as i128 - d.y as i128;
    let cdx = c.x as i128 - d.x as i128;
    let cdy = c.y as i128 - d.y as i128;
    proof {
        lemma_lift_cross_bound(adx as int, ady as int, bdx as int, bdy as int, cdx as int, cdy as int);
        lemma_lift_cross_bound(bdx as int, bdy as int, cdx as int, cdy as int, adx as int, ady as int);
        lemma_lift_cross_bound(cdx as int, cdy as int, adx as int, ady as int, bdx as int, bdy as int);
    }
    let alift = adx * adx + ady * ady;
    let blift = bdx * bdx + bdy * bdy;
    let clift = cdx * cdx + cdy * cdy;
    alift * (bdx * cdy - cdx * bdy) + blift * (cdx * ady - adx * cdy) + clift * (adx * bdy - bdx
        * ady)
}

/// Decides where a probe point lies with respect to the circle through three
/// points.
///
/// Implementations may take their decisions in their own way; each states in
/// `in_circle_spec` which state it returns.
pub trait InCircle {
    /// The state that `in_circle` returns on `a, b, c` and `probe`.
    spec fn in_circle_spec(a: Point, b: Point, c: Point, probe: Point) -> InCircleState;

    fn in_circle(a: &Point, b: &Point, c: &Point, probe: &Point) -> (r: InCircleState)
        requires
            in_kernel_range(*a),
            in_kernel_range(*b),
            in_kernel_range(*c),
            in_kernel_range(*probe),
        ensures
            r == Self::in_circle_spec(*a, *b, *c, *probe),
    ;
}

/// The library's in-circle predicate: the exact sign of `incircle_det`.
/// For `a, b, c` counter-clockwise it answers `Inside`, `On` or `Outside` as
/// the probe lies; for clockwise `a, b, c`, `Inside` and `Outside` trade places.
pub struct DefaultInCircle;

impl InCircle for DefaultInCircle {
    open spec fn in_circle_spec(a: Point, b: Point, c: Point, probe: Point) -> InCircleState {
        in_circle_of_sign(incircle_det(a, b, c, probe))
    }

    fn in_circle(a: &Point, b: &Point, c: &Point, probe: &Point) -> (r: InCircleState) {
        let o = incircle_det_exact(a, b, c, probe);
        if o > 0 {
            InCircleState::Inside
        } else if o < 0 {
            InCircleState::Outside
        } else {
            InCircleState::On
        }
    }
}

} // verus!
