use smallest_enclosing_circle::geometry::circumcircle::{
    circumcircle2d, CircumCircle, RadicalLength, RationalPoint,
};
use smallest_enclosing_circle::predicates::orientation::DefaultOrientationArea;
use smallest_enclosing_circle::{Circle2D, Point};

fn to_f64(center: RationalPoint, radius: RadicalLength) -> ([f64; 2], f64) {
    let d = center.denominator as f64;
    let r = ((radius.f0 as f64) * (radius.f1 as f64) * (radius.f2 as f64)).sqrt()
        / radius.denominator as f64;
    ([center.x as f64 / d, center.y as f64 / d], r)
}

#[test]
fn box_triangle_lower_right() {
    let (center, radius) = circumcircle2d::<DefaultOrientationArea>(
        Point::new(-1, -1),
        Point::new(1, -1),
        Point::new(1, 1),
    );
    assert_eq!(to_f64(center, radius), ([0., 0.], f64::sqrt(2.)));
}

#[test]
fn circumcircle_exact_values() {
    // Counter-clockwise triangle: orientation determinant 4, denominator 8.
    let (center, radius) = circumcircle2d::<DefaultOrientationArea>(
        Point::new(-1, -1),
        Point::new(1, -1),
        Point::new(1, 1),
    );
    assert_eq!(center, RationalPoint { x: 0, y: 0, denominator: 8 });
    assert_eq!(radius.denominator, 8);
    assert_eq!(radius.f0 * radius.f1 * radius.f2, 128);
}

#[test]
fn circumcircle_clockwise_order() {
    // The same triangle given clockwise gives the same circle.
    let (center, radius) = circumcircle2d::<DefaultOrientationArea>(
        Point::new(-1, -1),
        Point::new(1, 1),
        Point::new(1, -1),
    );
    assert_eq!(to_f64(center, radius), ([0., 0.], f64::sqrt(2.)));
    assert_eq!(center.denominator, 8);
}

#[test]
fn circumcircle_right_triangle() {
    // (0,0), (4,0), (0,3): center (2, 1.5), radius 2.5.
    let (center, radius) =
        circumcircle2d::<DefaultOrientationArea>(Point::new(0, 0), Point::new(4, 0), Point::new(0, 3));
    assert_eq!(to_f64(center, radius), ([2.0, 1.5], 2.5));
}

#[test]
fn disk_center_and_radius_two_points() {
    let circle = Circle2D::new(&[Point::new(0, 0), Point::new(1, 0)]);
    let center = circle.center().unwrap();
    let radius = circle.radius().unwrap();
    assert_eq!(to_f64(center, radius), ([0.5, 0.0], 0.5));
    assert_eq!(circle.circumcircle(), Some((center, radius)));
}

#[test]
fn disk_center_and_radius_unit_square() {
    let circle = Circle2D::new(&[Point::new(0, 0), Point::new(1, 0), Point::new(1, 1)]);
    let (c, r) = to_f64(circle.center().unwrap(), circle.radius().unwrap());
    assert_eq!(c, [0.5, 0.5]);
    assert!((r - f64::sqrt(2.) / 2.).abs() < 1e-15);
}

#[test]
fn disk_without_circle() {
    assert_eq!(Circle2D::Empty.center(), None);
    assert_eq!(Circle2D::Empty.radius(), None);
    let one = Circle2D::One { p: Point::new(3, 4) };
    assert_eq!(one.center(), None);
    assert_eq!(one.radius(), None);
    let flat = Circle2D::Three {
        a: Point::new(0, 0),
        b: Point::new(1, 0),
        c: Point::new(2, 0),
        counter_clockwise: false,
    };
    assert_eq!(flat.center(), None);
    assert_eq!(flat.radius(), None);
}
