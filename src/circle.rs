use vstd::prelude::*;

use crate::geometry::circumcircle::{
    abs_det, circumcircle2d, dist2, dist2_from, lemma_incircle_metric, lemma_incircle_metric_at,
    scaled_dist2, CircumCircle, RadicalLength, RationalPoint,
};
use crate::geometry::point::{in_kernel_range, in_range, lemma_mul_bounds, Point};
use crate::predicates::in_circle::{
    incircle_det, lemma_incircle_det_at_vertex, DefaultInCircle, InCircle, InCircleState,
};
use crate::predicates::orientation::{
    orient_det, DefaultOrientation, DefaultOrientationArea, Orientation, OrientationArea, OrientationState,
};

verus! {

/// A closed disk given by the points on its boundary that span it (its
/// support), as found by the smallest enclosing circle algorithm.
///
/// - `Empty`: no point, no disk.
/// - `One`: a single point; it has no center and no radius.
/// - `Two`: two distinct points opposite each other on the circle.
/// - `Three`: three distinct points on the circle, with `counter_clockwise`
///   recording whether `a, b, c` turn counter-clockwise.
#[derive(Clone, Copy, PartialEq, Eq, Debug, Structural)]
pub enum Circle2D {
    Empty,
    One { p: Point },
    Two { a: Point, b: Point },
    Three { a: Point, b: Point, c: Point, counter_clockwise: bool },
}

/// Twice the surrogate point of the two-point disk `a, b`: the surrogate is
/// `b` turned by a quarter about the midpoint `m = (a + b) / 2`, that is
/// `(m.x - m.y + a.y, m.y + m.x - a.x)`; doubled, its coordinates are integers.
pub open spec fn surrogate_doubled(a: Point, b: Point) -> Point {
    Point { x: (a.x + b.x + a.y - b.y) as i64, y: (a.y + b.y - a.x + b.x) as i64 }
}

/// The disk that `new_with_predicate` builds from up to three support points:
/// equal points are merged, and three distinct points keep their order with
/// their orientation.
pub open spec fn support_disk<O: Orientation>(s: Seq<Point>) -> Circle2D {
    if s.len() == 0 {
        Circle2D::Empty
    } else if s.len() == 1 {
        Circle2D::One { p: s[0] }
    } else if s.len() == 2 {
        if s[0] != s[1] {
            Circle2D::Two { a: s[0], b: s[1] }
        } else {
            Circle2D::One { p: s[0] }
        }
    } else {
        let (a, b, c) = (s[0], s[1], s[2]);
        if a == b && b == c {
            Circle2D::One { p: a }
        } else if a == b {
            Circle2D::Two { a, b: c }
        } else if b == c {
            Circle2D::Two { a, b }
        } else if c == a {
            Circle2D::Two { a: b, b: c }
        } else {
            Circle2D::Three {
                a,
                b,
                c,
                counter_clockwise: O::orientation_spec(a, b, c) == OrientationState::CounterClockwise,
            }
        }
    }
}

impl Circle2D {
    /// The support points of the disk, in their order.
    pub open spec fn support(self) -> Seq<Point> {
        match self {
            Circle2D::Empty => seq![],
            Circle2D::One { p } => seq![p],
            Circle2D::Two { a, b } => seq![a, b],
            Circle2D::Three { a, b, c, .. } => seq![a, b, c],
        }
    }

    /// Every support point lies in the input range.
    pub open spec fn in_range(self) -> bool {
        forall|i: int| 0 <= i < self.support().len() ==> #[trigger] in_range(self.support()[i])
    }

    /// For `Three`, `counter_clockwise` tells whether `a, b, c` turn
    /// counter-clockwise.
    pub open spec fn orientation_recorded(self) -> bool {
        match self {
            Circle2D::Three { a, b, c, counter_clockwise } => counter_clockwise == (orient_det(
                a,
                b,
                c,
            ) > 0),
            _ => true,
        }
    }

    /// The support points are pairwise distinct.
    pub open spec fn well_formed(self) -> bool {
        match self {
            Circle2D::Two { a, b } => a != b,
            Circle2D::Three { a, b, c, .. } => a != b && b != c && c != a,
            _ => true,
        }
    }

    /// Whether the closed disk contains `p`, as decided with the in-circle
    /// predicate `IC`. For `Two` the predicate is asked about the support, the
    /// surrogate point and `p`, all four with doubled coordinates (which keeps
    /// them integral and moves no point across the circle).
    pub open spec fn contains_spec<IC: InCircle>(self, p: Point) -> bool {
        match self {
            Circle2D::Empty => false,
            Circle2D::One { p: q } => q == p,
            Circle2D::Two { a, b } => IC::in_circle_spec(
                a.doubled_spec(),
                b.doubled_spec(),
                surrogate_doubled(a, b),
                p.doubled_spec(),
            ) != InCircleState::Outside,
            Circle2D::Three { a, b, c, counter_clockwise } => {
                let i = IC::in_circle_spec(a, b, c, p);
                if counter_clockwise {
                    i == InCircleState::Inside || i == InCircleState::On
                } else {
                    i == InCircleState::Outside || i == InCircleState::On
                }
            },
        }
    }

    /// Whether `p` lies on the boundary of the disk, as decided with the
    /// in-circle predicate `IC` (for `One`: whether `p` is that point).
    pub open spec fn is_on_circle_spec<IC: InCircle>(self, p: Point) -> bool {
        match self {
            Circle2D::Empty => false,
            Circle2D::One { p: q } => q == p,
            Circle2D::Two { a, b } => IC::in_circle_spec(
                a.doubled_spec(),
                b.doubled_spec(),
                surrogate_doubled(a, b),
                p.doubled_spec(),
            ) == InCircleState::On,
            Circle2D::Three { a, b, c, .. } => IC::in_circle_spec(a, b, c, p)
                == InCircleState::On,
        }
    }

    /// Every support point of `other` lies on the boundary of `self`, where
    /// both are proper circles; two empty disks and two equal single points
    /// match too.
    pub open spec fn one_sided_equals_spec<IC: InCircle>(self, other: Circle2D) -> bool {
        match (self, other) {
            (Circle2D::Empty, Circle2D::Empty) => true,
            (Circle2D::One { p: p1 }, Circle2D::One { p: p2 }) => p1 == p2,
            (Circle2D::Two { .. }, Circle2D::Two { .. })
            | (Circle2D::Two { .. }, Circle2D::Three { .. })
            | (Circle2D::Three { .. }, Circle2D::Two { .. })
            | (Circle2D::Three { .. }, Circle2D::Three { .. }) => forall|i: int|
                0 <= i < other.support().len() ==> #[trigger] self.is_on_circle_spec::<IC>(
                    other.support()[i],
                ),
            _ => false,
        }
    }

    /// Geometric equality: each disk's support lies on the other's boundary.
    pub open spec fn equals_spec<IC: InCircle>(self, other: Circle2D) -> bool {
        self.one_sided_equals_spec::<IC>(other) && other.one_sided_equals_spec::<IC>(self)
    }

    /// Builds the disk spanned by up to three points, with the library's
    /// orientation predicate.
    pub fn new(points: &[Point]) -> (r: Circle2D)
        requires
            points@.len() <= 3,
            forall|i: int| 0 <= i < points@.len() ==> #[trigger] in_range(points@[i]),
        ensures
            r == support_disk::<DefaultOrientation>(points@),
            r.well_formed(),
            r.orientation_recorded(),
            r.in_range(),
    {
        Self::new_with_predicate::<DefaultOrientation>(points)
    }

    /// Builds the disk spanned by up to three points; the orientation of three
    /// distinct points is taken with the predicate `O`.
    pub fn new_with_predicate<O: Orientation>(points: &[Point]) -> (r: Circle2D)
        requires
            points@.len() <= 3,
            forall|i: int| 0 <= i < points@.len() ==> #[trigger] in_range(points@[i]),
        ensures
            r == support_disk::<O>(points@),
            r.well_formed(),
            r.in_range(),
    {
        let n = points.len();
        if n == 0 {
            Circle2D::Empty
        } else if n == 1 {
            Circle2D::One { p: points[0] }
        } else if n == 2 {
            if points[0] != points[1] {
                Circle2D::Two { a: points[0], b: points[1] }
            } else {
                Circle2D::One { p: points[0] }
            }
        } else {
            let a = points[0];
            let b = points[1];
            let c = points[2];
            let ab = a == b;
            let bc = b == c;
            let ca = c == a;
            let r = if ab && bc {
                Circle2D::One { p: a }
            } else if ab {
                Circle2D::Two { a, b: c }
            } else if bc {
                Circle2D::Two { a, b }
            } else if ca {
                Circle2D::Two { a: b, b: c }
            } else {
                assert(in_range(points@[0]) && in_range(points@[1]) && in_range(points@[2]));
                let o = O::orientation(&a, &b, &c);
                Circle2D::Three { a, b, c, counter_clockwise: o == OrientationState::CounterClockwise }
            };
            r
        }
    }

    /// Twice the surrogate point of a two-point disk (see `surrogate_doubled`).
    fn surrogate_doubled_exec(a: &Point, b: &Point) -> (r: Point)
        requires
            in_range(*a),
            in_range(*b),
        ensures
            r == surrogate_doubled(*a, *b),
            in_kernel_range(r),
    {
        Point { x: a.x + b.x + a.y - b.y, y: a.y + b.y - a.x + b.x }
    }

    /// Whether the closed disk contains `point`, with the library's in-circle
    /// predicate.
    pub fn contains(&self, point: &Point) -> (r: bool)
        requires
            self.in_range(),
            in_range(*point),
        ensures
            r == self.contains_spec::<DefaultInCircle>(*point),
    {
        self.contains_with_predicate::<DefaultInCircle>(point)
    }

    /// Whether the closed disk contains `point`, with the in-circle predicate
    /// `IC`: for `One`, whether `point` is its point; for `Two`, whether the
    /// predicate does not put `point` outside the circle through the support
    /// and its surrogate; for `Three`, whether `point` is inside or on the
    /// circle, reading the predicate according to the support's orientation.
    pub fn contains_with_predicate<IC: InCircle>(&self, point: &Point) -> (r: bool)
        requires
            self.in_range(),
            in_range(*point),
        ensures
            r == self.contains_spec::<IC>(*point),
    {
        match self {
            Circle2D::Empty => false,
            Circle2D::One { p } => *p == *point,
            Circle2D::Two { a, b } => {
                assert(in_range(self.support()[0]) && in_range(self.support()[1]));
                let s = Self::surrogate_doubled_exec(a, b);
                let i = IC::in_circle(&a.doubled(), &b.doubled(), &s, &point.doubled());
                i != InCircleState::Outside
            },
            Circle2D::Three { a, b, c, counter_clockwise } => {
                assert(in_range(self.support()[0]) && in_range(self.support()[1]) && in_range(
                    self.support()[2],
                ));
                let i = IC::in_circle(a, b, c, point);
                if *counter_clockwise {
                    i == InCircleState::Inside || i == InCircleState::On
                } else {
                    i == InCircleState::Outside || i == InCircleState::On
                }
            },
        }
    }

    /// Whether `point` lies exactly on the circle, with the library's
    /// in-circle predicate.
    pub fn is_on_circle(&self, point: &Point) -> (r: bool)
        requires
            self.in_range(),
            in_range(*point),
        ensures
            r == self.is_on_circle_spec::<DefaultInCircle>(*point),
    {
        self.is_on_circle_with_predicate::<DefaultInCircle>(point)
    }

    /// Whether `point` lies exactly on the circle, with the in-circle
    /// predicate `IC` (for `One`: whether `point` is its point).
    pub fn is_on_circle_with_predicate<IC: InCircle>(&self, point: &Point) -> (r: bool)
        requires
            self.in_range(),
            in_range(*point),
        ensures
            r == self.is_on_circle_spec::<IC>(*point),
    {
        match self {
            Circle2D::Empty => false,
            Circle2D::One { p } => *p == *point,
            Circle2D::Two { a, b } => {
                assert(in_range(self.support()[0]) && in_range(self.support()[1]));
                let s = Self::surrogate_doubled_exec(a, b);
                let i = IC::in_circle(&a.doubled(), &b.doubled(), &s, &point.doubled());
                i == InCircleState::On
            },
            Circle2D::Three { a, b, c, .. } => {
                assert(in_range(self.support()[0]) && in_range(self.support()[1]) && in_range(
                    self.support()[2],
                ));
                let i = IC::in_circle(a, b, c, point);
                i == InCircleState::On
            },
        }
    }

    /// Geometric equality with the library's in-circle predicate: every
    /// support point of each disk lies on the other's boundary.
    pub fn equals(&self, other: &Circle2D) -> (r: bool)
        requires
            self.in_range(),
            other.in_range(),
        ensures
            r == self.equals_spec::<DefaultInCircle>(*other),
    {
        self.equals_with_predicate::<DefaultInCircle>(other)
    }

    /// Geometric equality with the in-circle predicate `IC`: every support
    /// point of each disk lies on the other's boundary.
    pub fn equals_with_predicate<IC: InCircle>(&self, other: &Circle2D) -> (r: bool)
        requires
            self.in_range(),
            other.in_range(),
        ensures
            r == self.equals_spec::<IC>(*other),
    {
        self.one_sided_equals_with_predicate::<IC>(other)
            && other.one_sided_equals_with_predicate::<IC>(self)
    }

    fn one_sided_equals_with_predicate<IC: InCircle>(&self, other: &Circle2D) -> (r: bool)
        requires
            self.in_range(),
            other.in_range(),
        ensures
            r == self.one_sided_equals_spec::<IC>(*other),
    {
        let proper = match self {
            Circle2D::Two { .. } | Circle2D::Three { .. } => true,
            _ => false,
        };
        match other {
            Circle2D::Empty => match self {
                Circle2D::Empty => true,
                _ => false,
            },
            Circle2D::One { p: p2 } => match self {
                Circle2D::One { p: p1 } => *p1 == *p2,
                _ => false,
            },
            Circle2D::Two { a, b } => {
                assert(in_range(other.support()[0]) && in_range(other.support()[1]));
                let r = proper && self.is_on_circle_with_predicate::<IC>(a)
                    && self.is_on_circle_with_predicate::<IC>(b);
                assert(r == self.one_sided_equals_spec::<IC>(*other)) by {
                    if proper && !r {
                        assert(!self.is_on_circle_spec::<IC>(other.support()[0])
                            || !self.is_on_circle_spec::<IC>(other.support()[1]));
                    }
                }
                r
            },
            Circle2D::Three { a, b, c, .. } => {
                assert(in_range(other.support()[0]) && in_range(other.support()[1]) && in_range(
                    other.support()[2],
                ));
                let r = proper && self.is_on_circle_with_predicate::<IC>(a)
                    && self.is_on_circle_with_predicate::<IC>(b)
                    && self.is_on_circle_with_predicate::<IC>(c);
                assert(r == self.one_sided_equals_spec::<IC>(*other)) by {
                    if proper && !r {
                        assert(!self.is_on_circle_spec::<IC>(other.support()[0])
                            || !self.is_on_circle_spec::<IC>(other.support()[1])
                            || !self.is_on_circle_spec::<IC>(other.support()[2]));
                    }
                }
                r
            },
        }
    }
}

impl Circle2D {
    /// For a two-point disk `a, b`, the surrogate point
    /// `(m.x - m.y + a.y, m.y + m.x - a.x)` with `m = (a + b) / 2`, that is `b`
    /// turned by a quarter about `m`; `None` for the other kinds.
    pub fn surrogate(&self) -> (r: Option<RationalPoint>)
        requires
            self.in_range(),
        ensures
            r == match *self {
                Circle2D::Two { a, b } => Some(
                    RationalPoint {
                        x: surrogate_doubled(a, b).x as i128,
                        y: surrogate_doubled(a, b).y as i128,
                        denominator: 2,
                    },
                ),
                _ => None,
            },
    {
        match self {
            Circle2D::Two { a, b } => {
                assert(in_range(self.support()[0]) && in_range(self.support()[1]));
                let s = Self::surrogate_doubled_exec(a, b);
                Some(RationalPoint { x: s.x as i128, y: s.y as i128, denominator: 2 })
            },
            _ => None,
        }
    }

    /// The center of the circle: the midpoint for `Two`, the circumcenter for
    /// `Three`; `None` for `Empty`, `One`, and a `Three` whose support lies on
    /// one line.
    pub fn center(&self) -> (r: Option<RationalPoint>)
        requires
            self.in_range(),
        ensures
            r is Some <==> self.has_circle(),
            r matches Some(c) ==> self.is_center(c),
    {
        match self.circumcircle() {
            Some(cr) => {
                assert(self.is_circle(cr.0, cr.1));
                Some(cr.0)
            },
            None => None,
        }
    }

    /// The radius of the circle: half the distance for `Two`, the
    /// circumradius for `Three`; `None` where `center` is `None`.
    pub fn radius(&self) -> (r: Option<RadicalLength>)
        requires
            self.in_range(),
        ensures
            r is Some <==> self.has_circle(),
            r matches Some(radius) ==> self.is_radius(radius),
    {
        match self.circumcircle() {
            Some(cr) => {
                assert(self.is_circle(cr.0, cr.1));
                Some(cr.1)
            },
            None => None,
        }
    }
}

impl Circle2D {
    /// `center` is the center of the circle: the midpoint of `Two` over the
    /// denominator 2; for `Three`, equidistant from the three points over the
    /// denominator `2 |orient_det(a, b, c)|`.
    pub open spec fn is_center(self, center: RationalPoint) -> bool {
        match self {
            Circle2D::Two { a, b } => {
                &&& center.x == a.x + b.x
                &&& center.y == a.y + b.y
                &&& center.denominator == 2
            },
            Circle2D::Three { a, b, c, .. } => {
                &&& center.denominator == 2 * abs_det(a, b, c)
                &&& scaled_dist2(center, a) == scaled_dist2(center, b)
                &&& scaled_dist2(center, a) == scaled_dist2(center, c)
            },
            _ => false,
        }
    }

    /// `radius` is the radius of the circle: `|ab| / 2` for `Two`; for
    /// `Three`, `|ab| |bc| |ca| / (2 |orient_det(a, b, c)|)`, the
    /// circumradius (the product of the sides over four times the area).
    pub open spec fn is_radius(self, radius: RadicalLength) -> bool {
        match self {
            Circle2D::Two { a, b } => {
                &&& radius.denominator == 2
                &&& radius.radicand() == dist2(a, b)
            },
            Circle2D::Three { a, b, c, .. } => {
                &&& radius.denominator == 2 * abs_det(a, b, c)
                &&& radius.radicand() == dist2(a, b) * dist2(b, c) * dist2(c, a)
            },
            _ => false,
        }
    }
}

impl CircumCircle for Circle2D {
    open spec fn circle_input(&self) -> bool {
        self.in_range()
    }

    open spec fn has_circle(&self) -> bool {
        match *self {
            Circle2D::Two { .. } => true,
            Circle2D::Three { a, b, c, .. } => orient_det(a, b, c) != 0,
            _ => false,
        }
    }

    /// `center` and `radius` are those of the circle, and the radius reaches
    /// from the center to the support.
    open spec fn is_circle(&self, center: RationalPoint, radius: RadicalLength) -> bool {
        &&& self.is_center(center)
        &&& self.is_radius(radius)
        &&& radius.denominator == center.denominator
        &&& radius.radicand() == scaled_dist2(center, self.support()[0])
    }

    fn circumcircle(&self) -> (r: Option<(RationalPoint, RadicalLength)>) {
        match self {
            Circle2D::Two { a, b } => {
                assert(in_range(self.support()[0]) && in_range(self.support()[1]));
                let center = RationalPoint {
                    x: a.x as i128 + b.x as i128,
                    y: a.y as i128 + b.y as i128,
                    denominator: 2,
                };
                let dx = a.x as i128 - b.x as i128;
                let dy = a.y as i128 - b.y as i128;
                proof {
                    lemma_mul_bounds(dx as int, dx as int, 0x1000_0000, 0x1000_0000);
                    lemma_mul_bounds(dy as int, dy as int, 0x1000_0000, 0x1000_0000);
                }
                let radius = RadicalLength { f0: dx * dx + dy * dy, f1: 1, f2: 1, denominator: 2 };
                assert(center.x - a.x * 2 == -dx && center.y - a.y * 2 == -dy);
                assert(center.x - b.x * 2 == dx && center.y - b.y * 2 == dy);
                assert((-dx) * (-dx) == dx * dx && (-dy) * (-dy) == dy * dy) by (nonlinear_arith);
                assert(dist2(*a, *b) == dx * dx + dy * dy);
                assert(radius.radicand() == dx * dx + dy * dy) by (nonlinear_arith)
                    requires
                        radius.f0 == dx * dx + dy * dy,
                        radius.f1 == 1,
                        radius.f2 == 1,
                ;
                Some((center, radius))
            },
            Circle2D::Three { a, b, c, .. } => {
                assert(in_range(self.support()[0]) && in_range(self.support()[1]) && in_range(
                    self.support()[2],
                ));
                let area = DefaultOrientationArea::orientation(a, b, c);
                if area == 0 {
                    None
                } else {
                    Some(circumcircle2d::<DefaultOrientationArea>(*a, *b, *c))
                }
            },
            _ => None,
        }
    }
}

/// With exact predicates every support point of a disk lies on its boundary.
pub proof fn lemma_support_on_circle(d: Circle2D)
    ensures
        forall|i: int|
            0 <= i < d.support().len() ==> #[trigger] d.is_on_circle_spec::<DefaultInCircle>(
                d.support()[i],
            ),
{
    match d {
        Circle2D::Two { a, b } => {
            lemma_incircle_det_at_vertex(a.doubled_spec(), b.doubled_spec(), surrogate_doubled(a, b));
        },
        Circle2D::Three { a, b, c, .. } => {
            lemma_incircle_det_at_vertex(a, b, c);
        },
        _ => {},
    }
}

/// With exact predicates a disk contains its own support points.
pub proof fn lemma_support_contained(d: Circle2D)
    ensures
        forall|i: int|
            0 <= i < d.support().len() ==> #[trigger] d.contains_spec::<DefaultInCircle>(
                d.support()[i],
            ),
{
    lemma_support_on_circle(d);
    assert forall|i: int| 0 <= i < d.support().len() implies #[trigger] d.contains_spec::<
        DefaultInCircle,
    >(d.support()[i]) by {
        assert(d.is_on_circle_spec::<DefaultInCircle>(d.support()[i]));
    }
}

/// With exact predicates the disk built from up to three points contains
/// each of them.
pub proof fn lemma_support_disk_contains(r: Seq<Point>)
    requires
        r.len() <= 3,
    ensures
        forall|i: int|
            0 <= i < r.len() ==> #[trigger] support_disk::<DefaultOrientation>(
                r,
            ).contains_spec::<DefaultInCircle>(r[i]),
{
    let d = support_disk::<DefaultOrientation>(r);
    lemma_support_contained(d);
    assert forall|i: int| 0 <= i < r.len() implies #[trigger] d.contains_spec::<DefaultInCircle>(
        r[i],
    ) by {
        assert(exists|j: int| 0 <= j < d.support().len() && d.support()[j] == r[i]) by {
            if r.len() == 3 {
                if r[0] == r[1] && r[1] == r[2] {
                    assert(d.support()[0] == r[i]);
                } else if r[0] == r[1] {
                    if i == 2 {
                        assert(d.support()[1] == r[i]);
                    } else {
                        assert(d.support()[0] == r[i]);
                    }
                } else if r[1] == r[2] {
                    if i == 0 {
                        assert(d.support()[0] == r[i]);
                    } else {
                        assert(d.support()[1] == r[i]);
                    }
                } else if r[2] == r[0] {
                    if i == 1 {
                        assert(d.support()[0] == r[i]);
                    } else {
                        assert(d.support()[1] == r[i]);
                    }
                } else {
                    assert(d.support()[i] == r[i]);
                }
            } else if r.len() == 2 {
                if r[0] == r[1] {
                    assert(d.support()[0] == r[i]);
                } else {
                    assert(d.support()[i] == r[i]);
                }
            } else {
                assert(d.support()[i] == r[i]);
            }
        }
    }
}

/// Geometric equality is symmetric, whatever the in-circle predicate.
pub proof fn lemma_equals_symmetric<IC: InCircle>(d1: Circle2D, d2: Circle2D)
    ensures
        d1.equals_spec::<IC>(d2) == d2.equals_spec::<IC>(d1),
{
}

/// With exact predicates geometric equality is reflexive.
pub proof fn lemma_equals_reflexive(d: Circle2D)
    ensures
        d.equals_spec::<DefaultInCircle>(d),
{
    lemma_support_on_circle(d);
}

/// `(o a - p a)^2 + (o' a - p' a)^2 == a^2 ((o - p)^2 + (o' - p')^2)`.
proof fn lemma_scaled_offset(ox: int, oy: int, px: int, py: int, alpha: int)
    ensures
        (ox * alpha - px * alpha) * (ox * alpha - px * alpha) + (oy * alpha - py * alpha) * (oy
            * alpha - py * alpha) == alpha * alpha * ((ox - px) * (ox - px) + (oy - py) * (oy - py)),
{
    assert(ox * alpha - px * alpha == (ox - px) * alpha) by (nonlinear_arith);
    assert(oy * alpha - py * alpha == (oy - py) * alpha) by (nonlinear_arith);
    assert(((ox - px) * alpha) * ((ox - px) * alpha) + ((oy - py) * alpha) * ((oy - py) * alpha)
        == alpha * alpha * ((ox - px) * (ox - px) + (oy - py) * (oy - py))) by (nonlinear_arith);
}

/// With exact predicates a disk contains a point exactly when the point's
/// distance from the center is at most the radius, and has it on its boundary
/// exactly when the two are equal (distances and radius squared and scaled by
/// the denominator squared, as `center()` and `radius()` give them).
pub proof fn lemma_contains_is_metric(
    d: Circle2D,
    p: Point,
    center: RationalPoint,
    radius: RadicalLength,
)
    requires
        d.in_range(),
        in_range(p),
        d.well_formed(),
        d.orientation_recorded(),
        d.has_circle(),
        d.is_circle(center, radius),
    ensures
        d.contains_spec::<DefaultInCircle>(p) <==> scaled_dist2(center, p) <= radius.radicand(),
        d.is_on_circle_spec::<DefaultInCircle>(p) <==> scaled_dist2(center, p) == radius.radicand(),
{
    match d {
        Circle2D::Two { a, b } => {
            assert(in_range(d.support()[0]) && in_range(d.support()[1]));
            let (pa, pb, pc, pd) = (
                a.doubled_spec(),
                b.doubled_spec(),
                surrogate_doubled(a, b),
                p.doubled_spec(),
            );
            let (dx, dy) = (a.x - b.x, a.y - b.y);
            let l = dist2(a, b);
            let m = scaled_dist2(center, p);
            assert(l == dx * dx + dy * dy);
            assert(l > 0) by (nonlinear_arith)
                requires
                    l == dx * dx + dy * dy,
                    dx != 0 || dy != 0,
            ;
            // The doubled support and surrogate turn counter-clockwise.
            assert(orient_det(pa, pb, pc) == (dx - dy) * (dx - dy) - (dx + dy) * (-dx - dy));
            assert((dx - dy) * (dx - dy) - (dx + dy) * (-dx - dy) == 2 * l) by (nonlinear_arith)
                requires
                    l == dx * dx + dy * dy,
            ;
            let alpha = 4 * l;
            let (ox, oy) = (a.x + b.x, a.y + b.y);
            lemma_scaled_offset(ox, oy, pa.x as int, pa.y as int, alpha);
            lemma_scaled_offset(ox, oy, pb.x as int, pb.y as int, alpha);
            lemma_scaled_offset(ox, oy, pc.x as int, pc.y as int, alpha);
            lemma_scaled_offset(ox, oy, pd.x as int, pd.y as int, alpha);
            let (qx, qy) = (ox * alpha, oy * alpha);
            assert(dist2_from(qx, qy, alpha, pa) == alpha * alpha * l);
            assert(dist2_from(qx, qy, alpha, pb) == alpha * alpha * l);
            let (ex, ey) = (ox - pc.x, oy - pc.y);
            assert(ex * ex + ey * ey == l) by (nonlinear_arith)
                requires
                    ex == -dy,
                    ey == dx,
                    l == dx * dx + dy * dy,
            ;
            assert(dist2_from(qx, qy, alpha, pc) == alpha * alpha * l);
            assert(dist2_from(qx, qy, alpha, pd) == alpha * alpha * m);
            lemma_incircle_metric_at(pa, pb, pc, pd, qx, qy, alpha);
            let i = incircle_det(pa, pb, pc, pd);
            assert(i == 2 * l * (l - m)) by (nonlinear_arith)
                requires
                    4 * (2 * l) * i == alpha * alpha * l - alpha * alpha * m,
                    alpha == 4 * l,
                    l > 0,
            ;
            assert(i >= 0 <==> l >= m) by (nonlinear_arith)
                requires
                    i == 2 * l * (l - m),
                    l > 0,
            ;
            assert(i == 0 <==> l == m) by (nonlinear_arith)
                requires
                    i == 2 * l * (l - m),
                    l > 0,
            ;
        },
        Circle2D::Three { a, b, c, counter_clockwise } => {
            let det = orient_det(a, b, c);
            let i = incircle_det(a, b, c, p);
            let m = scaled_dist2(center, p);
            let r2 = radius.radicand();
            lemma_incircle_metric(a, b, c, p, center);
            assert(4 * det * i == r2 - m);
            if det > 0 {
                assert(i >= 0 <==> r2 - m >= 0) by (nonlinear_arith)
                    requires
                        4 * det * i == r2 - m,
                        det > 0,
                ;
                assert(i == 0 <==> r2 - m == 0) by (nonlinear_arith)
                    requires
                        4 * det * i == r2 - m,
                        det > 0,
                ;
            } else {
                assert(i <= 0 <==> r2 - m >= 0) by (nonlinear_arith)
                    requires
                        4 * det * i == r2 - m,
                        det < 0,
                ;
                assert(i == 0 <==> r2 - m == 0) by (nonlinear_arith)
                    requires
                        4 * det * i == r2 - m,
                        det < 0,
                ;
            }
        },
        _ => {},
    }
}

/// Moving between two scalings of one center: where `(c1x, c1y) / d1` and
/// `(c2x, c2y) / d2` are the same point, the scaled squared distances to
/// `(sx, sy)` agree up to the squared denominators.
proof fn lemma_rescaled_distance(
    c1x: int,
    c1y: int,
    d1: int,
    c2x: int,
    c2y: int,
    d2: int,
    sx: int,
    sy: int,
)
    requires
        c1x * d2 == c2x * d1,
        c1y * d2 == c2y * d1,
    ensures
        ((c1x - sx * d1) * (c1x - sx * d1) + (c1y - sy * d1) * (c1y - sy * d1)) * (d2 * d2) == ((
        c2x - sx * d2) * (c2x - sx * d2) + (c2y - sy * d2) * (c2y - sy * d2)) * (d1 * d1),
{
    let (ex, ey) = (c1x - sx * d1, c1y - sy * d1);
    let (fx, fy) = (c2x - sx * d2, c2y - sy * d2);
    assert(ex * d2 == fx * d1) by (nonlinear_arith)
        requires
            ex == c1x - sx * d1,
            fx == c2x - sx * d2,
            c1x * d2 == c2x * d1,
    ;
    assert(ey * d2 == fy * d1) by (nonlinear_arith)
        requires
            ey == c1y - sy * d1,
            fy == c2y - sy * d2,
            c1y * d2 == c2y * d1,
    ;
    assert((ex * ex + ey * ey) * (d2 * d2) == (ex * d2) * (ex * d2) + (ey * d2) * (ey * d2))
        by (nonlinear_arith);
    assert((fx * fx + fy * fy) * (d1 * d1) == (fx * d1) * (fx * d1) + (fy * d1) * (fy * d1))
        by (nonlinear_arith);
}

/// Every support point of `other` lies on the boundary of `d` where both
/// are proper circles with the same exact center and radius.
proof fn lemma_same_circle_one_sided(
    d: Circle2D,
    c1: RationalPoint,
    r1: RadicalLength,
    other: Circle2D,
    c2: RationalPoint,
    r2: RadicalLength,
)
    requires
        d.in_range() && d.well_formed() && d.orientation_recorded() && d.has_circle(),
        other.in_range() && other.well_formed() && other.orientation_recorded()
            && other.has_circle(),
        d.is_circle(c1, r1),
        other.is_circle(c2, r2),
        c1.x * c2.denominator == c2.x * c1.denominator,
        c1.y * c2.denominator == c2.y * c1.denominator,
        r1.radicand() * (c2.denominator * c2.denominator) == r2.radicand() * (c1.denominator
            * c1.denominator),
    ensures
        d.one_sided_equals_spec::<DefaultInCircle>(other),
{
    let (d1, d2) = (c1.denominator as int, c2.denominator as int);
    assert(d1 > 0 && d2 > 0) by {
        match d {
            Circle2D::Three { a, b, c, .. } => {
                assert(abs_det(a, b, c) > 0);
            },
            _ => {},
        }
        match other {
            Circle2D::Three { a, b, c, .. } => {
                assert(abs_det(a, b, c) > 0);
            },
            _ => {},
        }
    }
    lemma_support_on_circle(other);
    assert forall|i: int| 0 <= i < other.support().len() implies #[trigger] d.is_on_circle_spec::<
        DefaultInCircle,
    >(other.support()[i]) by {
        let s = other.support()[i];
        assert(in_range(s));
        lemma_contains_is_metric(other, s, c2, r2);
        lemma_rescaled_distance(
            c1.x as int,
            c1.y as int,
            d1,
            c2.x as int,
            c2.y as int,
            d2,
            s.x as int,
            s.y as int,
        );
        let (m1, m2) = (scaled_dist2(c1, s), scaled_dist2(c2, s));
        assert(m1 * (d2 * d2) == m2 * (d1 * d1));
        assert(m2 == r2.radicand());
        assert(m1 == r1.radicand()) by (nonlinear_arith)
            requires
                m1 * (d2 * d2) == m2 * (d1 * d1),
                r1.radicand() * (d2 * d2) == m2 * (d1 * d1),
                d2 > 0,
        ;
        lemma_contains_is_metric(d, s, c1, r1);
    }
}

/// With exact predicates, two proper disks with the same center and the same
/// radius (as exact rationals) are geometrically equal, whichever points of
/// that circle their supports are.
pub proof fn lemma_equals_same_circle(
    d: Circle2D,
    c1: RationalPoint,
    r1: RadicalLength,
    other: Circle2D,
    c2: RationalPoint,
    r2: RadicalLength,
)
    requires
        d.in_range() && d.well_formed() && d.orientation_recorded() && d.has_circle(),
        other.in_range() && other.well_formed() && other.orientation_recorded()
            && other.has_circle(),
        d.is_circle(c1, r1),
        other.is_circle(c2, r2),
        c1.x * c2.denominator == c2.x * c1.denominator,
        c1.y * c2.denominator == c2.y * c1.denominator,
        r1.radicand() * (c2.denominator * c2.denominator) == r2.radicand() * (c1.denominator
            * c1.denominator),
    ensures
        d.equals_spec::<DefaultInCircle>(other),
{
    lemma_same_circle_one_sided(d, c1, r1, other, c2, r2);
    lemma_same_circle_one_sided(other, c2, r2, d, c1, r1);
}

} // verus!
