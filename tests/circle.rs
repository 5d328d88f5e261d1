use smallest_enclosing_circle::geometry::circumcircle::RationalPoint;
use smallest_enclosing_circle::predicates::in_circle::DefaultInCircle;
use smallest_enclosing_circle::predicates::orientation::DefaultOrientation;
use smallest_enclosing_circle::{Circle2D, Point};

fn p(x: i64, y: i64) -> Point {
    Point::new(x, y)
}

fn as_f64(r: RationalPoint) -> [f64; 2] {
    [r.x as f64 / r.denominator as f64, r.y as f64 / r.denominator as f64]
}

#[test]
fn two_points() {
    assert_eq!(as_f64(Circle2D::new(&[p(0, 0), p(1, 1)]).surrogate().unwrap()), [0., 1.]);
}

#[test]
fn two_points_reverse() {
    assert_eq!(as_f64(Circle2D::new(&[p(1, 1), p(0, 0)]).surrogate().unwrap()), [1., 0.]);
}

#[test]
fn surrogate_only_for_two_points() {
    assert_eq!(Circle2D::new(&[p(1, 1)]).surrogate(), None);
    assert_eq!(Circle2D::new(&[p(0, 0), p(1, 0), p(0, 1)]).surrogate(), None);
    assert_eq!(
        Circle2D::new(&[p(0, 0), p(2, 0)]).surrogate(),
        Some(RationalPoint { x: 2, y: 2, denominator: 2 })
    );
}

#[test]
fn new_from_zero_one_two_points() {
    assert_eq!(Circle2D::new(&[]), Circle2D::Empty);
    assert_eq!(Circle2D::new(&[p(2, 3)]), Circle2D::One { p: p(2, 3) });
    assert_eq!(Circle2D::new(&[p(2, 3), p(2, 3)]), Circle2D::One { p: p(2, 3) });
    assert_eq!(Circle2D::new(&[p(2, 3), p(4, 3)]), Circle2D::Two { a: p(2, 3), b: p(4, 3) });
}

#[test]
fn new_from_three_points_with_repeats() {
    let (a, b) = (p(0, 0), p(1, 0));
    assert_eq!(Circle2D::new(&[a, a, a]), Circle2D::One { p: a });
    assert_eq!(Circle2D::new(&[a, a, b]), Circle2D::Two { a, b });
    assert_eq!(Circle2D::new(&[a, b, b]), Circle2D::Two { a, b });
    assert_eq!(Circle2D::new(&[a, b, a]), Circle2D::Two { a: b, b: a });
}

#[test]
fn new_from_three_distinct_points() {
    let (a, b, c) = (p(0, 0), p(1, 0), p(1, 1));
    assert_eq!(
        Circle2D::new(&[a, b, c]),
        Circle2D::Three { a, b, c, counter_clockwise: true }
    );
    assert_eq!(
        Circle2D::new_with_predicate::<DefaultOrientation>(&[a, c, b]),
        Circle2D::Three { a, b: c, c: b, counter_clockwise: false }
    );
}

#[test]
fn contains_and_on_circle_two_points() {
    let circle = Circle2D::new(&[p(0, 0), p(2, 0)]);
    assert!(circle.contains(&p(1, 0)));
    assert!(circle.contains(&p(2, 0)));
    assert!(circle.contains(&p(1, 1)));
    assert!(!circle.contains(&p(2, 1)));
    assert!(!circle.is_on_circle(&p(1, 0)));
    assert!(circle.is_on_circle(&p(2, 0)));
    assert!(circle.is_on_circle(&p(1, -1)));
}

#[test]
fn contains_and_on_circle_three_points_both_orientations() {
    for circle in [
        Circle2D::new(&[p(0, 0), p(2, 0), p(2, 2)]),
        Circle2D::new(&[p(0, 0), p(2, 2), p(2, 0)]),
    ] {
        assert!(circle.contains(&p(1, 1)));
        assert!(circle.contains(&p(0, 2)));
        assert!(!circle.contains(&p(3, 3)));
        assert!(circle.is_on_circle(&p(0, 2)));
        assert!(!circle.is_on_circle(&p(1, 1)));
        assert!(circle.contains_with_predicate::<DefaultInCircle>(&p(2, 2)));
    }
}

#[test]
fn contains_single_and_empty() {
    assert!(!Circle2D::Empty.contains(&p(0, 0)));
    assert!(!Circle2D::Empty.is_on_circle(&p(0, 0)));
    let one = Circle2D::One { p: p(1, 2) };
    assert!(one.contains(&p(1, 2)));
    assert!(!one.contains(&p(1, 3)));
    assert!(one.is_on_circle(&p(1, 2)));
}

#[test]
fn equals_is_reflexive_and_symmetric() {
    let disks = [
        Circle2D::Empty,
        Circle2D::new(&[p(1, 1)]),
        Circle2D::new(&[p(0, 0), p(2, 0)]),
        Circle2D::new(&[p(0, 0), p(2, 0), p(2, 2)]),
        Circle2D::new(&[p(0, 0), p(2, 2), p(2, 0)]),
        Circle2D::new(&[p(5, 0), p(0, 1)]),
    ];
    for d in disks.iter() {
        assert!(d.equals(d));
        for e in disks.iter() {
            assert_eq!(d.equals(e), e.equals(d));
        }
    }
}

#[test]
fn equals_cocircular_supports() {
    // Three corners of a square against three other corners of it.
    let d1 = Circle2D::new(&[p(0, 0), p(2, 0), p(2, 2)]);
    let d2 = Circle2D::new(&[p(0, 2), p(0, 0), p(2, 0)]);
    assert!(d1.equals(&d2));
    // A diameter of the same circle.
    let d3 = Circle2D::new(&[p(0, 2), p(2, 0)]);
    assert!(d1.equals(&d3));
    assert!(d3.equals(&d1));
    // A different circle.
    let d4 = Circle2D::new(&[p(0, 0), p(3, 0), p(3, 3)]);
    assert!(!d1.equals(&d4));
}

#[test]
fn equals_across_kinds() {
    assert!(Circle2D::Empty.equals(&Circle2D::Empty));
    assert!(!Circle2D::Empty.equals(&Circle2D::new(&[p(0, 0)])));
    assert!(!Circle2D::new(&[p(0, 0)]).equals(&Circle2D::new(&[p(1, 0)])));
    assert!(!Circle2D::new(&[p(0, 0)]).equals(&Circle2D::new(&[p(0, 0), p(1, 0)])));
}

fn scaled_dist2(c: RationalPoint, q: Point) -> i128 {
    let dx = c.x - q.x as i128 * c.denominator;
    let dy = c.y - q.y as i128 * c.denominator;
    dx * dx + dy * dy
}

#[test]
fn contains_matches_distance_from_center() {
    let disks = [
        Circle2D::new(&[p(-3, 1), p(4, 2)]),
        Circle2D::new(&[p(0, 0), p(7, 1), p(2, 6)]),
        Circle2D::new(&[p(0, 0), p(2, 6), p(7, 1)]),
        Circle2D::new(&[p(-5, -5), p(5, 5)]),
    ];
    for d in disks.iter() {
        let c = d.center().unwrap();
        let r = d.radius().unwrap();
        assert_eq!(r.denominator, c.denominator);
        let r2 = r.f0 * r.f1 * r.f2;
        for x in -9..10 {
            for y in -9..10 {
                let q = p(x, y);
                let m = scaled_dist2(c, q);
                assert_eq!(d.contains(&q), m <= r2, "{:?} {:?}", d, q);
                assert_eq!(d.is_on_circle(&q), m == r2, "{:?} {:?}", d, q);
            }
        }
    }
}
