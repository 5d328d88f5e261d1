use smallest_enclosing_circle::algorithm::smallest_enclosing_circle_recursive_with_predicate;
use smallest_enclosing_circle::geometry::circumcircle::{RadicalLength, RationalPoint};
use smallest_enclosing_circle::predicates::in_circle::DefaultInCircle;
use smallest_enclosing_circle::{
    smallest_enclosing_circle, smallest_enclosing_circle_recursive,
    smallest_enclosing_circle_with_predicate, Circle2D, Point,
};

fn p(x: i64, y: i64) -> Point {
    Point::new(x, y)
}

fn pts(v: &[[i64; 2]]) -> Vec<Point> {
    v.iter().map(|q| p(q[0], q[1])).collect()
}

fn permutations(v: &[Point]) -> Vec<Vec<Point>> {
    if v.is_empty() {
        return vec![vec![]];
    }
    let mut out = Vec::new();
    for i in 0..v.len() {
        let mut rest = v.to_vec();
        let x = rest.remove(i);
        for mut tail in permutations(&rest) {
            tail.push(x);
            out.push(tail);
        }
    }
    out
}

/// Runs every order of `points` through both engines and compares with the
/// disk spanned by `expected`.
fn check_all_orders(points: &[[i64; 2]], expected: &[[i64; 2]]) {
    let expected = Circle2D::new(&pts(expected));
    for order in permutations(&pts(points)) {
        let iterative = smallest_enclosing_circle(order.clone());
        let recursive = smallest_enclosing_circle_recursive(order.clone());
        assert!(iterative.equals(&expected), "{:?} gave {:?}", order, iterative);
        assert_eq!(iterative, recursive);
    }
}

fn center_f64(c: RationalPoint) -> [f64; 2] {
    [c.x as f64 / c.denominator as f64, c.y as f64 / c.denominator as f64]
}

fn radius_f64(r: RadicalLength) -> f64 {
    ((r.f0 as f64) * (r.f1 as f64) * (r.f2 as f64)).sqrt() / r.denominator as f64
}

fn radius_of(d: &Circle2D) -> f64 {
    d.radius().map(radius_f64).unwrap_or(0.0)
}

#[test]
fn test_collinear() {
    check_all_orders(&[[0, 0], [1, 0], [2, 0]], &[[2, 0], [0, 0]]);
}

#[test]
fn test_duplicate() {
    check_all_orders(&[[0, 0], [1, 0], [1, 0]], &[[1, 0], [0, 0]]);
}

#[test]
fn test_duplicate2() {
    check_all_orders(&[[1, 0], [0, 0], [1, 0]], &[[0, 0], [1, 0]]);
}

#[test]
fn test_empty() {
    check_all_orders(&[], &[]);
    let d = smallest_enclosing_circle(vec![]);
    assert_eq!(d, Circle2D::Empty);
    assert_eq!(d.center(), None);
    assert_eq!(d.radius(), None);
}

#[test]
fn test_single() {
    check_all_orders(&[[0, 0]], &[[0, 0]]);
    let d = smallest_enclosing_circle(pts(&[[0, 0]]));
    assert_eq!(d, Circle2D::One { p: p(0, 0) });
    assert_eq!(d.center(), None);
    assert_eq!(d.radius(), None);
}

#[test]
fn test_double() {
    check_all_orders(&[[0, 0], [1, 0]], &[[1, 0], [0, 0]]);
    let d = smallest_enclosing_circle(pts(&[[0, 0], [1, 0]]));
    assert_eq!(d, Circle2D::Two { a: p(1, 0), b: p(0, 0) });
    assert_eq!(center_f64(d.center().unwrap()), [0.5, 0.0]);
    assert_eq!(radius_f64(d.radius().unwrap()), 0.5);
}

#[test]
fn test_double_duplicate() {
    check_all_orders(&[[1, 0], [1, 0]], &[[1, 0]]);
    assert_eq!(smallest_enclosing_circle(pts(&[[1, 0], [1, 0]])), Circle2D::One { p: p(1, 0) });
}

#[test]
fn test_opposite_zero() {
    check_all_orders(&[[-1, 0], [1, 0]], &[[1, 0], [-1, 0]]);
    let d = smallest_enclosing_circle(pts(&[[-1, 0], [1, 0]]));
    assert_eq!(center_f64(d.center().unwrap()), [0.0, 0.0]);
    assert_eq!(radius_f64(d.radius().unwrap()), 1.0);
}

// Many points on one line, with near neighbours of both ends.
#[test]
fn test_small() {
    check_all_orders(
        &[[0, 0], [1, 0], [500, 0], [1000, 0], [1100, 0], [1500, 0], [1999, 0], [2000, 0]],
        &[[2000, 0], [0, 0]],
    );
}

#[test]
fn test_small2() {
    check_all_orders(
        &[[1, 0], [500, 0], [1000, 0], [1100, 0], [1500, 0], [0, 0], [1999, 0], [2000, 0]],
        &[[2000, 0], [0, 0]],
    );
}

#[test]
fn test_cocircular() {
    check_all_orders(&[[1, 0], [0, 1], [-1, 0], [0, -1]], &[[-1, 0], [1, 0]]);
    let d = smallest_enclosing_circle(pts(&[[1, 0], [0, 1], [-1, 0], [0, -1]]));
    assert_eq!(center_f64(d.center().unwrap()), [0.0, 0.0]);
    assert_eq!(radius_f64(d.radius().unwrap()), 1.0);
}

#[test]
fn test_multiple() {
    check_all_orders(
        &[[-1, -1], [-1, -1], [0, 0], [0, 0], [1, 1], [1, 1]],
        &[[1, 1], [-1, -1]],
    );
}

#[test]
fn test_triangle() {
    check_all_orders(&[[0, 0], [1, 0], [1, 1], [1, 1]], &[[1, 1], [0, 0]]);
    let d = smallest_enclosing_circle(pts(&[[0, 0], [1, 0], [1, 1], [1, 1]]));
    assert_eq!(center_f64(d.center().unwrap()), [0.5, 0.5]);
    assert!((radius_f64(d.radius().unwrap()) - f64::sqrt(2.) / 2.).abs() < 1e-15);
}

#[test]
fn test_unit_square() {
    check_all_orders(&[[0, 0], [1, 0], [1, 1], [0, 1]], &[[0, 0], [1, 0], [1, 1]]);
    let d = smallest_enclosing_circle(pts(&[[0, 0], [1, 0], [1, 1], [0, 1]]));
    assert_eq!(center_f64(d.center().unwrap()), [0.5, 0.5]);
    assert!((radius_f64(d.radius().unwrap()) - 0.7071067811865476).abs() < 1e-15);
}

#[test]
fn test_with_predicate_matches_default() {
    let points = pts(&[[3, 1], [-2, 4], [0, 0], [5, -3], [1, 1]]);
    let a = smallest_enclosing_circle_with_predicate::<DefaultInCircle>(points.clone());
    let b = smallest_enclosing_circle_recursive_with_predicate::<DefaultInCircle>(points.clone());
    assert_eq!(a, smallest_enclosing_circle(points));
    assert_eq!(a, b);
}

/// A small deterministic generator of pseudo-random coordinates.
struct Lcg(u64);

impl Lcg {
    fn next(&mut self, bound: i64) -> i64 {
        self.0 = self.0.wrapping_mul(6364136223846793005).wrapping_add(1442695040888963407);
        ((self.0 >> 33) as i64).rem_euclid(2 * bound + 1) - bound
    }

    fn cloud(&mut self, n: usize, bound: i64) -> Vec<Point> {
        (0..n).map(|_| p(self.next(bound), self.next(bound))).collect()
    }
}

/// The smallest radius among all circles spanned by one, two or three input
/// points that contain every input point.
fn brute_force_radius(points: &[Point]) -> f64 {
    let mut best = f64::INFINITY;
    let n = points.len();
    let mut consider = |d: Circle2D| {
        if points.iter().all(|q| d.contains(q)) {
            best = best.min(radius_of(&d));
        }
    };
    for i in 0..n {
        consider(Circle2D::new(&[points[i]]));
        for j in i + 1..n {
            consider(Circle2D::new(&[points[i], points[j]]));
            for k in j + 1..n {
                consider(Circle2D::new(&[points[i], points[j], points[k]]));
            }
        }
    }
    best
}

#[test]
fn random_clouds_contain_every_point() {
    let mut g = Lcg(7);
    for round in 0..60 {
        let points = g.cloud(1 + round % 25, 1000);
        let d = smallest_enclosing_circle(points.clone());
        for q in &points {
            assert!(d.contains(q), "{:?} misses {:?}", d, q);
        }
        // At least one support point lies on the boundary.
        assert!(points.iter().any(|q| d.is_on_circle(q)));
    }
}

#[test]
fn random_clouds_are_minimal() {
    let mut g = Lcg(11);
    for round in 0..30 {
        let points = g.cloud(2 + round % 12, 50);
        let d = smallest_enclosing_circle(points.clone());
        let best = brute_force_radius(&points);
        assert!((radius_of(&d) - best).abs() <= 1e-9 * best.max(1.0), "{:?}", points);
    }
}

#[test]
fn random_clouds_iterative_matches_recursive() {
    let mut g = Lcg(13);
    for round in 0..60 {
        let points = g.cloud(round % 30, 100_000);
        assert_eq!(
            smallest_enclosing_circle(points.clone()),
            smallest_enclosing_circle_recursive(points)
        );
    }
}

#[test]
fn random_clouds_order_does_not_matter() {
    let mut g = Lcg(17);
    for round in 0..40 {
        let points = g.cloud(3 + round % 20, 300);
        let d = smallest_enclosing_circle(points.clone());
        let mut reversed = points.clone();
        reversed.reverse();
        let mut rotated = points.clone();
        rotated.rotate_left(round % points.len());
        assert!(d.equals(&smallest_enclosing_circle(reversed)));
        assert!(d.equals(&smallest_enclosing_circle(rotated)));
    }
}

#[test]
fn duplicates_keep_center_and_radius() {
    let mut g = Lcg(19);
    for round in 0..30 {
        let points = g.cloud(2 + round % 10, 200);
        let d = smallest_enclosing_circle(points.clone());
        let mut more = points.clone();
        more.extend(points.iter().take(1 + round % points.len()).copied());
        let shift = round % more.len();
        more.rotate_left(shift);
        let e = smallest_enclosing_circle(more);
        assert!(d.equals(&e));
        let (c1, c2) = (d.center().unwrap(), e.center().unwrap());
        assert_eq!(c1.x * c2.denominator, c2.x * c1.denominator);
        assert_eq!(c1.y * c2.denominator, c2.y * c1.denominator);
        assert!((radius_of(&d) - radius_of(&e)).abs() <= 1e-9 * radius_of(&d).max(1.0));
    }
}

#[test]
fn removing_a_point_does_not_grow_the_radius() {
    let mut g = Lcg(23);
    for round in 0..30 {
        let points = g.cloud(2 + round % 15, 500);
        let full = radius_of(&smallest_enclosing_circle(points.clone()));
        for i in 0..points.len() {
            let mut fewer = points.clone();
            fewer.remove(i);
            let part = radius_of(&smallest_enclosing_circle(fewer));
            assert!(part <= full + 1e-9 * full.max(1.0));
        }
    }
}

#[test]
fn large_input_runs_without_recursion() {
    let mut g = Lcg(29);
    let points = g.cloud(200_000, 134_217_728);
    let d = smallest_enclosing_circle(points.clone());
    for q in points.iter().step_by(997) {
        assert!(d.contains(q));
    }
}
