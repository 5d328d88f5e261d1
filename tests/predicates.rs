use smallest_enclosing_circle::predicates::in_circle::{
    incircle_det_exact, DefaultInCircle, InCircle, InCircleState,
};
use smallest_enclosing_circle::predicates::orientation::{
    orient_det_exact, DefaultOrientation, DefaultOrientationArea, Orientation, OrientationArea,
    OrientationState,
};
use smallest_enclosing_circle::{Point, PointLike};

fn p(x: i64, y: i64) -> Point {
    Point::new(x, y)
}

#[test]
fn orientation_counter_clockwise() {
    assert_eq!(
        DefaultOrientation::orientation(&p(0, 0), &p(1, 0), &p(1, 1)),
        OrientationState::CounterClockwise
    );
}

#[test]
fn orientation_clockwise() {
    assert_eq!(
        DefaultOrientation::orientation(&p(0, 0), &p(1, 0), &p(1, -1)),
        OrientationState::Clockwise
    );
}

#[test]
fn orientation_collinear() {
    assert_eq!(
        DefaultOrientation::orientation(&p(0, 0), &p(1, 0), &p(2, 0)),
        OrientationState::Collinear
    );
}

#[test]
fn orientation_area_counter_clockwise() {
    assert_eq!(DefaultOrientationArea::orientation(&p(0, 0), &p(1, 0), &p(1, 1)), 1);
}

#[test]
fn orientation_area_clockwise() {
    assert_eq!(DefaultOrientationArea::orientation(&p(0, 0), &p(1, 0), &p(1, -1)), -1);
}

#[test]
fn orientation_area_collinear() {
    assert_eq!(DefaultOrientationArea::orientation(&p(0, 0), &p(1, 0), &p(2, 0)), 0);
}

#[test]
fn orientation_area_is_twice_the_triangle_area() {
    assert_eq!(orient_det_exact(&p(0, 0), &p(4, 0), &p(0, 3)), 12);
    assert_eq!(orient_det_exact(&p(0, 0), &p(0, 3), &p(4, 0)), -12);
}

#[test]
fn orientation_largest_coordinates() {
    let m = 536870912;
    assert_eq!(
        DefaultOrientation::orientation(&p(-m, -m), &p(m, -m), &p(m, m)),
        OrientationState::CounterClockwise
    );
    assert_eq!(orient_det_exact(&p(-m, -m), &p(m, -m), &p(m, m)), 4 * (m as i128) * (m as i128));
}

// The circle through (0,0), (2,0), (2,2) has center (1,1) and radius sqrt(2).
#[test]
fn inside() {
    assert_eq!(
        DefaultInCircle::in_circle(&p(0, 0), &p(2, 0), &p(2, 2), &p(1, 1)),
        InCircleState::Inside
    );
}

#[test]
fn outside() {
    assert_eq!(
        DefaultInCircle::in_circle(&p(0, 0), &p(2, 0), &p(2, 2), &p(3, 3)),
        InCircleState::Outside
    );
}

#[test]
fn on() {
    assert_eq!(
        DefaultInCircle::in_circle(&p(0, 0), &p(2, 0), &p(2, 2), &p(0, 2)),
        InCircleState::On
    );
}

#[test]
fn in_circle_clockwise_turns_the_sign() {
    assert_eq!(
        DefaultInCircle::in_circle(&p(0, 0), &p(2, 2), &p(2, 0), &p(1, 1)),
        InCircleState::Outside
    );
}

#[test]
fn in_circle_determinant_values() {
    // Unit circle through (1,0), (0,1), (-1,0); the center scores 2.
    assert_eq!(incircle_det_exact(&p(1, 0), &p(0, 1), &p(-1, 0), &p(0, 0)), 2);
    assert_eq!(incircle_det_exact(&p(1, 0), &p(0, 1), &p(-1, 0), &p(0, -1)), 0);
}

#[test]
fn in_circle_largest_coordinates() {
    let m = 536870912;
    assert_eq!(
        DefaultInCircle::in_circle(&p(-m, -m), &p(m, -m), &p(m, m), &p(-m, m)),
        InCircleState::On
    );
    assert_eq!(
        DefaultInCircle::in_circle(&p(-m, -m), &p(m, -m), &p(m, m), &p(0, 0)),
        InCircleState::Inside
    );
}

#[test]
fn point_like_coordinates() {
    assert_eq!(p(3, -4).coordinates(), [3, -4]);
    assert_eq!([7i64, 8].coordinates(), [7, 8]);
}
