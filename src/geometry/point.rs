use vstd::prelude::*;

verus! {

/// Largest absolute value that an input coordinate may take.
///
/// Inside the library points are doubled and rotated (the surrogate point of a
/// two-point disk); with this bound every in-circle determinant still fits in
/// an `i128`.
pub const COORD_LIMIT: i64 = 134217728;

/// Largest absolute value of a coordinate handed to a predicate: the
/// surrogate of a two-point disk, in doubled coordinates, stays within it.
pub const KERNEL_LIMIT: i64 = 536870912;

/// A product of two factors bounded by `l` in absolute value is bounded by `l * l`.
pub(crate) proof fn lemma_mul_bound(x: int, y: int, l: int)
    requires
        -l <= x <= l,
        -l <= y <= l,
    ensures
        -(l * l) <= x * y <= l * l,
{
    assert(-(l * l) <= x * y <= l * l) by (nonlinear_arith)
        requires
            -l <= x <= l,
            -l <= y <= l,
    ;
}

/// A product of factors bounded by `lx` and `ly` in absolute value is bounded
/// by `lx * ly`.
pub(crate) proof fn lemma_mul_bounds(x: int, y: int, lx: int, ly: int)
    requires
        -lx <= x <= lx,
        -ly <= y <= ly,
    ensures
        -(lx * ly) <= x * y <= lx * ly,
{
    assert(-(lx * ly) <= x * y <= lx * ly) by (nonlinear_arith)
        requires
            -lx <= x <= lx,
            -ly <= y <= ly,
    ;
}

/// A point of the plane with integer coordinates.
#[derive(Clone, Copy, PartialEq, Eq, Debug, Structural)]
pub struct Point {
    pub x: i64,
    pub y: i64,
}

/// The point lies in the input range of the library.
pub open spec fn in_range(p: Point) -> bool {
    -COORD_LIMIT <= p.x <= COORD_LIMIT && -COORD_LIMIT <= p.y <= COORD_LIMIT
}

/// The point lies in the range that the predicates accept.
pub open spec fn in_kernel_range(p: Point) -> bool {
    -KERNEL_LIMIT <= p.x <= KERNEL_LIMIT && -KERNEL_LIMIT <= p.y <= KERNEL_LIMIT
}

/// Every point of the sequence lies in the input range.
pub open spec fn all_in_range(s: Seq<Point>) -> bool {
    forall|i: int| 0 <= i < s.len() ==> #[trigger] in_range(s[i])
}

impl Point {
    /// Builds the point `(x, y)`.
    pub fn new(x: i64, y: i64) -> (r: Point)
        ensures
            r.x == x,
            r.y == y,
    {
        Point { x, y }
    }

    /// The point with both coordinates multiplied by two.
    pub open spec fn doubled_spec(self) -> Point {
        Point { x: (2 * self.x) as i64, y: (2 * self.y) as i64 }
    }

    /// The point with both coordinates multiplied by two.
    pub fn doubled(&self) -> (r: Point)
        requires
            in_range(*self),
        ensures
            r == self.doubled_spec(),
            r.x == 2 * self.x,
            r.y == 2 * self.y,
            in_kernel_range(r),
    {
        Point { x: 2 * self.x, y: 2 * self.y }
    }
}

/// A value from which the two coordinates of a point can be read.
pub trait PointLike {
    /// The point that the value stands for.
    spec fn point_of(&self) -> Point;

    /// The coordinates `[x, y]` of the point.
    fn coordinates(&self) -> (r: [i64; 2])
        ensures
            r[0] == self.point_of().x,
            r[1] == self.point_of().y,
    ;
}

impl PointLike for Point {
    open spec fn point_of(&self) -> Point {
        *self
    }

    fn coordinates(&self) -> (r: [i64; 2]) {
        [self.x, self.y]
    }
}

impl PointLike for [i64; 2] {
    open spec fn point_of(&self) -> Point {
        Point { x: self[0], y: self[1] }
    }

    fn coordinates(&self) -> (r: [i64; 2]) {
        *self
    }
}

} // verus!
