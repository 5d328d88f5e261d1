use vstd::prelude::*;

use crate::geometry::point::{in_range, lemma_mul_bounds, Point};
use crate::predicates::in_circle::incircle_det;
use crate::predicates::orientation::{orient_det, OrientationArea};

verus! {

/// The point `(x / denominator, y / denominator)`, held exactly.
#[derive(Clone, Copy, PartialEq, Eq, Debug, Structural)]
pub struct RationalPoint {
    pub x: i128,
    pub y: i128,
    pub denominator: i128,
}

/// The length `sqrt(f0 * f1 * f2) / denominator`, held exactly.
#[derive(Clone, Copy, PartialEq, Eq, Debug, Structural)]
pub struct RadicalLength {
    pub f0: i128,
    pub f1: i128,
    pub f2: i128,
    pub denominator: i128,
}

impl RadicalLength {
    /// The number under the square root.
    pub open spec fn radicand(self) -> int {
        self.f0 * self.f1 * self.f2
    }
}

/// The squared distance from `q` to `p`, times `q.denominator` squared.
pub open spec fn scaled_dist2(q: RationalPoint, p: Point) -> int {
    let dx = q.x - p.x * q.denominator;
    let dy = q.y - p.y * q.denominator;
    dx * dx + dy * dy
}

/// The squared distance between `p` and `q`.
pub open spec fn dist2(p: Point, q: Point) -> int {
    (p.x - q.x) * (p.x - q.x) + (p.y - q.y) * (p.y - q.y)
}

/// The squared distance from `(qx / alpha, qy / alpha)` to `p`, times
/// `alpha` squared.
pub open spec fn dist2_from(qx: int, qy: int, alpha: int, p: Point) -> int {
    let dx = qx - p.x * alpha;
    let dy = qy - p.y * alpha;
    dx * dx + dy * dy
}

/// The squared length of `(x, y)`.
pub open spec fn norm2(x: int, y: int) -> int {
    x * x + y * y
}

/// A value from which the center and the radius of a circle can be had.
pub trait CircumCircle {
    /// Whether the value may be handed to `circumcircle`.
    spec fn circle_input(&self) -> bool;

    /// Whether the value has a circumscribed circle.
    spec fn has_circle(&self) -> bool;

    /// Whether `center` and `radius` describe the value's circle.
    spec fn is_circle(&self, center: RationalPoint, radius: RadicalLength) -> bool;

    /// The center and the radius of the circle, where there is one.
    fn circumcircle(&self) -> (r: Option<(RationalPoint, RadicalLength)>)
        requires
            self.circle_input(),
        ensures
            r is Some <==> self.has_circle(),
            r matches Some(cr) ==> self.is_circle(cr.0, cr.1),
    ;
}

/// Swapping the last two points turns the orientation determinant's sign.
proof fn lemma_orient_det_swap(a: Point, b: Point, c: Point)
    ensures
        orient_det(a, c, b) == -orient_det(a, b, c),
{
    let (ax, ay, bx, by, cx, cy) = (a.x as int, a.y as int, b.x as int, b.y as int, c.x as int, c.y as int);
    assert((ax - bx) * (cy - by) - (ay - by) * (cx - bx) == -((ax - cx) * (by - cy) - (ay - cy) * (
    bx - cx))) by (nonlinear_arith);
}

/// With `n = (|u|^2 v.y - |v|^2 u.y, u.x |v|^2 - v.x |u|^2)` and `d = u x v`:
/// `u . n == d |u|^2`, `v . n == d |v|^2`, and `|n|^2 == |u|^2 |v|^2 |u - v|^2`.
proof fn lemma_center_offset(ux: int, uy: int, vx: int, vy: int)
    ensures
        ({
            let (uu, vv) = (norm2(ux, uy), norm2(vx, vy));
            let (nx, ny) = (uu * vy - vv * uy, ux * vv - vx * uu);
            let d = ux * vy - uy * vx;
            &&& ux * nx + uy * ny == d * uu
            &&& vx * nx + vy * ny == d * vv
            &&& norm2(nx, ny) == uu * vv * norm2(ux - vx, uy - vy)
        }),
{
    let uu = norm2(ux, uy);
    let vv = norm2(vx, vy);
    let nx = uu * vy - vv * uy;
    let ny = ux * vv - vx * uu;
    let d = ux * vy - uy * vx;
    lemma_dot_offset(ux, uy, vx, vy, uu, vv);
    lemma_dot_offset_other(ux, uy, vx, vy, uu, vv);
    lemma_offset_norm(ux, uy, vx, vy, uu, vv);
    let ww = norm2(ux - vx, uy - vy);
    assert(ww == uu + vv - 2 * (ux * vx + uy * vy)) by (nonlinear_arith)
        requires
            ww == (ux - vx) * (ux - vx) + (uy - vy) * (uy - vy),
            uu == ux * ux + uy * uy,
            vv == vx * vx + vy * vy,
    ;
    assert(uu * vv * ww == uu * vv * (uu + vv - 2 * (ux * vx + uy * vy)));
}

/// `u . n == (u x v) |u|^2` for the offset `n` of `lemma_center_offset`.
proof fn lemma_dot_offset(ux: int, uy: int, vx: int, vy: int, uu: int, vv: int)
    requires
        uu == ux * ux + uy * uy,
    ensures
        ux * (uu * vy - vv * uy) + uy * (ux * vv - vx * uu) == (ux * vy - uy * vx) * uu,
{
    assert(ux * (uu * vy - vv * uy) + uy * (ux * vv - vx * uu) == (ux * vy - uy * vx) * uu)
        by (nonlinear_arith);
}

/// `v . n == (u x v) |v|^2` for the offset `n` of `lemma_center_offset`.
proof fn lemma_dot_offset_other(ux: int, uy: int, vx: int, vy: int, uu: int, vv: int)
    requires
        vv == vx * vx + vy * vy,
    ensures
        vx * (uu * vy - vv * uy) + vy * (ux * vv - vx * uu) == (ux * vy - uy * vx) * vv,
{
    assert(vx * (uu * vy - vv * uy) + vy * (ux * vv - vx * uu) == vv * (ux * vy - uy * vx))
        by (nonlinear_arith);
}

/// `|n|^2 == |u|^2 |v|^2 (|u|^2 + |v|^2 - 2 u . v)` for the offset `n` of
/// `lemma_center_offset`.
proof fn lemma_offset_norm(ux: int, uy: int, vx: int, vy: int, uu: int, vv: int)
    requires
        uu == ux * ux + uy * uy,
        vv == vx * vx + vy * vy,
    ensures
        norm2(uu * vy - vv * uy, ux * vv - vx * uu) == uu * vv * (uu + vv - 2 * (ux * vx + uy
            * vy)),
{
    let nx = uu * vy - vv * uy;
    let ny = ux * vv - vx * uu;
    lemma_square_of_difference(uu * vy, vv * uy);
    lemma_square_of_difference(ux * vv, vx * uu);
    lemma_product_square(uu, vy);
    lemma_product_square(vv, uy);
    lemma_product_square(ux, vv);
    lemma_product_square(vx, uu);
    lemma_product_swap(uu, vy, vv, uy);
    lemma_product_swap(ux, vv, vx, uu);
    assert(ux * vx * (vv * uu) == uu * vv * (ux * vx)) by (nonlinear_arith);
    assert(uu * uu * (vx * vx + vy * vy) == uu * uu * (vx * vx) + uu * uu * (vy * vy))
        by (nonlinear_arith);
    assert(vv * vv * (ux * ux + uy * uy) == vv * vv * (ux * ux) + vv * vv * (uy * uy))
        by (nonlinear_arith);
    assert(uu * vv * (ux * vx + uy * vy) == uu * vv * (ux * vx) + uu * vv * (uy * vy))
        by (nonlinear_arith);
    assert(ux * ux * (vv * vv) == vv * vv * (ux * ux)) by (nonlinear_arith);
    assert(vx * vx * (uu * uu) == uu * uu * (vx * vx)) by (nonlinear_arith);
    assert(uu * uu * (vy * vy) == uu * uu * (vy * vy));
    assert(vy * uy == uy * vy) by (nonlinear_arith);
    assert(nx * nx + ny * ny == uu * uu * (vx * vx + vy * vy) + vv * vv * (ux * ux + uy * uy) - 2
        * (uu * vv * (ux * vx + uy * vy)));
    assert(uu * uu * (vx * vx + vy * vy) == uu * uu * vv);
    assert(vv * vv * (ux * ux + uy * uy) == vv * vv * uu);
    assert(uu * uu * vv + vv * vv * uu - 2 * (uu * vv * (ux * vx + uy * vy)) == uu * vv * (uu + vv
        - 2 * (ux * vx + uy * vy))) by (nonlinear_arith);
}

/// `(p - q)^2 == p^2 - 2 p q + q^2`.
proof fn lemma_square_of_difference(p: int, q: int)
    ensures
        (p - q) * (p - q) == p * p - 2 * (p * q) + q * q,
{
    assert((p - q) * (p - q) == p * p - 2 * (p * q) + q * q) by (nonlinear_arith);
}

/// `(p q)^2 == p^2 q^2`.
proof fn lemma_product_square(p: int, q: int)
    ensures
        (p * q) * (p * q) == (p * p) * (q * q),
{
    assert((p * q) * (p * q) == (p * p) * (q * q)) by (nonlinear_arith);
}

/// `(p q)(r s) == (p r)(q s)`.
proof fn lemma_product_swap(p: int, q: int, r: int, s: int)
    ensures
        (p * q) * (r * s) == (p * r) * (q * s),
{
    assert((p * q) * (r * s) == (p * r) * (q * s)) by (nonlinear_arith);
}

/// `(p + q)(r - s) == pr - ps + qr - qs`.
proof fn lemma_expand_product(p: int, q: int, r: int, s: int)
    ensures
        (p + q) * (r - s) == p * r - p * s + q * r - q * s,
{
    assert((p + q) * (r - s) == p * r - p * s + q * r - q * s) by (nonlinear_arith);
}

/// `p (q - r) == p q - p r`.
proof fn lemma_distribute(p: int, q: int, r: int)
    ensures
        p * (q - r) == p * q - p * r,
{
    assert(p * (q - r) == p * q - p * r) by (nonlinear_arith);
}

/// `p (q r) == q (r p)`.
proof fn lemma_rotate_product(p: int, q: int, r: int)
    ensures
        p * (q * r) == q * (r * p),
{
    assert(p * (q * r) == q * (r * p)) by (nonlinear_arith);
}

/// `(u . w)(v x w) - (v . w)(u x w) == -|w|^2 (u x v)`.
proof fn lemma_dot_cross(ux: int, uy: int, vx: int, vy: int, wx: int, wy: int)
    ensures
        (ux * wx + uy * wy) * (vx * wy - vy * wx) - (vx * wx + vy * wy) * (ux * wy - uy * wx) == -((
        wx * wx + wy * wy) * (ux * vy - uy * vx)),
{
    lemma_expand_product(ux * wx, uy * wy, vx * wy, vy * wx);
    lemma_expand_product(vx * wx, vy * wy, ux * wy, uy * wx);
    lemma_expand_product(wx * wx, wy * wy, ux * vy, uy * vx);
    lemma_product_swap(ux, wx, vx, wy);
    lemma_product_swap(ux, wx, vy, wx);
    lemma_product_swap(uy, wy, vx, wy);
    lemma_product_swap(uy, wy, vy, wx);
    lemma_product_swap(vx, wx, ux, wy);
    lemma_product_swap(vx, wx, uy, wx);
    lemma_product_swap(vy, wy, ux, wy);
    lemma_product_swap(vy, wy, uy, wx);
    assert((ux * vx) * (wx * wy) == (vx * ux) * (wx * wy)) by (nonlinear_arith);
    assert((uy * vy) * (wy * wx) == (vy * uy) * (wy * wx)) by (nonlinear_arith);
    assert((ux * vy) * (wx * wx) == (wx * wx) * (ux * vy)) by (nonlinear_arith);
    assert((vx * uy) * (wx * wx) == (wx * wx) * (uy * vx)) by (nonlinear_arith);
    assert((uy * vx) * (wy * wy) == (wy * wy) * (uy * vx)) by (nonlinear_arith);
    assert((vy * ux) * (wy * wy) == (wy * wy) * (ux * vy)) by (nonlinear_arith);
}

/// `w . n == |v|^2 (u x w) - |u|^2 (v x w)` for the offset `n` of
/// `lemma_center_offset`, with `|u|^2`, `|v|^2` given as `uu`, `vv`.
proof fn lemma_offset_dot(ux: int, uy: int, vx: int, vy: int, wx: int, wy: int, uu: int, vv: int)
    ensures
        wx * (uu * vy - vv * uy) + wy * (ux * vv - vx * uu) == vv * (ux * wy - uy * wx) - uu * (vx
            * wy - vy * wx),
{
    lemma_distribute(wx, uu * vy, vv * uy);
    lemma_distribute(wy, ux * vv, vx * uu);
    lemma_distribute(vv, ux * wy, uy * wx);
    lemma_distribute(uu, vx * wy, vy * wx);
    lemma_rotate_product(wx, uu, vy);
    lemma_rotate_product(wx, vv, uy);
    lemma_rotate_product(wy, ux, vv);
    lemma_rotate_product(wy, vx, uu);
    lemma_rotate_product(vv, ux, wy);
    lemma_rotate_product(vv, uy, wx);
    lemma_rotate_product(uu, vx, wy);
    lemma_rotate_product(uu, vy, wx);
    assert(uu * (vy * wx) == vy * (wx * uu)) by (nonlinear_arith);
    assert(vv * (uy * wx) == uy * (wx * vv)) by (nonlinear_arith);
    assert(vv * (ux * wy) == ux * (wy * vv)) by (nonlinear_arith);
    assert(uu * (vx * wy) == vx * (wy * uu)) by (nonlinear_arith);
}

/// With `c` as origin (`u = a - c`, `v = b - c`, `w = d - c`) the in-circle
/// determinant is `w . n - (u x v) |w|^2`, where `n` is `alpha` times the
/// offset of the circumcenter from `c` (see `lemma_center_offset`).
proof fn lemma_incircle_from_center(a: Point, b: Point, c: Point, d: Point)
    ensures
        ({
            let (ux, uy, vx, vy) = (a.x - c.x, a.y - c.y, b.x - c.x, b.y - c.y);
            let (wx, wy) = (d.x - c.x, d.y - c.y);
            let (uu, vv) = (norm2(ux, uy), norm2(vx, vy));
            let (nx, ny) = (uu * vy - vv * uy, ux * vv - vx * uu);
            incircle_det(a, b, c, d) == wx * nx + wy * ny - (ux * vy - uy * vx) * norm2(wx, wy)
        }),
{
    let (ux, uy, vx, vy) = (a.x - c.x, a.y - c.y, b.x - c.x, b.y - c.y);
    let (wx, wy) = (d.x - c.x, d.y - c.y);
    let (uu, vv, ww) = (norm2(ux, uy), norm2(vx, vy), norm2(wx, wy));
    let (nx, ny) = (uu * vy - vv * uy, ux * vv - vx * uu);
    let (adx, ady, bdx, bdy, cdx, cdy) = (ux - wx, uy - wy, vx - wx, vy - wy, -wx, -wy);
    assert(a.x - d.x == adx && a.y - d.y == ady && b.x - d.x == bdx && b.y - d.y == bdy);
    assert(c.x - d.x == cdx && c.y - d.y == cdy);
    // Dot and cross products of u, v, w.
    let (uw, vw) = (ux * wx + uy * wy, vx * wx + vy * wy);
    let (uxv, uxw, vxw) = (ux * vy - uy * vx, ux * wy - uy * wx, vx * wy - vy * wx);
    let alift = adx * adx + ady * ady;
    let blift = bdx * bdx + bdy * bdy;
    let clift = cdx * cdx + cdy * cdy;
    assert(alift == uu - 2 * uw + ww) by (nonlinear_arith)
        requires
            adx == ux - wx,
            ady == uy - wy,
            alift == adx * adx + ady * ady,
            uu == ux * ux + uy * uy,
            ww == wx * wx + wy * wy,
            uw == ux * wx + uy * wy,
    ;
    assert(blift == vv - 2 * vw + ww) by (nonlinear_arith)
        requires
            bdx == vx - wx,
            bdy == vy - wy,
            blift == bdx * bdx + bdy * bdy,
            vv == vx * vx + vy * vy,
            ww == wx * wx + wy * wy,
            vw == vx * wx + vy * wy,
    ;
    assert(clift == ww) by (nonlinear_arith)
        requires
            cdx == -wx,
            cdy == -wy,
            clift == cdx * cdx + cdy * cdy,
            ww == wx * wx + wy * wy,
    ;
    assert(bdx * cdy - cdx * bdy == -vxw) by (nonlinear_arith)
        requires
            bdx == vx - wx,
            bdy == vy - wy,
            cdx == -wx,
            cdy == -wy,
            vxw == vx * wy - vy * wx,
    ;
    assert(cdx * ady - adx * cdy == uxw) by (nonlinear_arith)
        requires
            adx == ux - wx,
            ady == uy - wy,
            cdx == -wx,
            cdy == -wy,
            uxw == ux * wy - uy * wx,
    ;
    assert(adx * bdy - bdx * ady == uxv - uxw + vxw) by (nonlinear_arith)
        requires
            adx == ux - wx,
            ady == uy - wy,
            bdx == vx - wx,
            bdy == vy - wy,
            uxv == ux * vy - uy * vx,
            uxw == ux * wy - uy * wx,
            vxw == vx * wy - vy * wx,
    ;
    lemma_dot_cross(ux, uy, vx, vy, wx, wy);
    lemma_offset_dot(ux, uy, vx, vy, wx, wy, uu, vv);
    assert(alift * (-vxw) + blift * uxw + clift * (uxv - uxw + vxw) == vv * uxw - uu * vxw - ww
        * uxv) by (nonlinear_arith)
        requires
            alift == uu - 2 * uw + ww,
            blift == vv - 2 * vw + ww,
            clift == ww,
            uw * vxw - vw * uxw == -(ww * uxv),
    ;
}

/// Moving the offset `n` by `alpha * u`, where `u . n == d |u|^2` and
/// `alpha == 2 d`, keeps its length.
proof fn lemma_reflect_offset(nx: int, ny: int, ux: int, uy: int, d: int, alpha: int)
    requires
        ux * nx + uy * ny == d * norm2(ux, uy),
        alpha == 2 * d,
    ensures
        norm2(nx - ux * alpha, ny - uy * alpha) == norm2(nx, ny),
{
    let uu = norm2(ux, uy);
    let s = ux * alpha;
    let t = uy * alpha;
    assert((nx - s) * (nx - s) + (ny - t) * (ny - t) == nx * nx + ny * ny - 2 * (nx * s + ny * t)
        + s * s + t * t) by (nonlinear_arith);
    assert(nx * s + ny * t == alpha * (ux * nx + uy * ny)) by (nonlinear_arith)
        requires
            s == ux * alpha,
            t == uy * alpha,
    ;
    assert(s * s + t * t == alpha * alpha * uu) by (nonlinear_arith)
        requires
            s == ux * alpha,
            t == uy * alpha,
            uu == ux * ux + uy * uy,
    ;
    assert(alpha * (ux * nx + uy * ny) == alpha * (d * uu));
    assert(2 * (alpha * (d * uu)) == alpha * alpha * uu) by (nonlinear_arith)
        requires
            alpha == 2 * d,
    ;
}

/// `|orient_det(a, b, c)|`.
pub open spec fn abs_det(a: Point, b: Point, c: Point) -> int {
    if orient_det(a, b, c) > 0 {
        orient_det(a, b, c)
    } else {
        -orient_det(a, b, c)
    }
}

/// `|m - alpha p|^2 == |m|^2 - 2 alpha (p . m) + alpha^2 |p|^2`.
proof fn lemma_shift_norm(mx: int, my: int, px: int, py: int, alpha: int)
    ensures
        norm2(mx - px * alpha, my - py * alpha) == norm2(mx, my) - 2 * alpha * (px * mx + py * my)
            + alpha * alpha * norm2(px, py),
{
    let s = px * alpha;
    let t = py * alpha;
    assert((mx - s) * (mx - s) + (my - t) * (my - t) == mx * mx + my * my - 2 * (mx * s + my * t)
        + s * s + t * t) by (nonlinear_arith);
    assert(mx * s + my * t == alpha * (px * mx + py * my)) by (nonlinear_arith)
        requires
            s == px * alpha,
            t == py * alpha,
    ;
    assert(s * s + t * t == alpha * alpha * (px * px + py * py)) by (nonlinear_arith)
        requires
            s == px * alpha,
            t == py * alpha,
    ;
    assert(2 * (alpha * (px * mx + py * my)) == 2 * alpha * (px * mx + py * my)) by (nonlinear_arith);
}

/// The in-circle determinant measures the distance from the circle: for a
/// center `q` of the circle through `a, b, c` (equidistant from them, over the
/// denominator `2 |orient_det(a, b, c)|`),
/// `4 orient_det(a, b, c) incircle_det(a, b, c, d)` is the squared radius
/// minus the squared distance from `q` to `d`, both scaled by the squared
/// denominator.
pub proof fn lemma_incircle_metric(a: Point, b: Point, c: Point, d: Point, q: RationalPoint)
    requires
        orient_det(a, b, c) != 0,
        q.denominator == 2 * abs_det(a, b, c),
        scaled_dist2(q, a) == scaled_dist2(q, c),
        scaled_dist2(q, b) == scaled_dist2(q, c),
    ensures
        4 * orient_det(a, b, c) * incircle_det(a, b, c, d) == scaled_dist2(q, a) - scaled_dist2(q, d),
{
    lemma_incircle_metric_at(a, b, c, d, q.x as int, q.y as int, q.denominator as int);
}

/// `lemma_incircle_metric` for the center `(qx / alpha, qy / alpha)`.
pub proof fn lemma_incircle_metric_at(
    a: Point,
    b: Point,
    c: Point,
    d: Point,
    qx: int,
    qy: int,
    alpha: int,
)
    requires
        orient_det(a, b, c) != 0,
        alpha == 2 * abs_det(a, b, c),
        dist2_from(qx, qy, alpha, a) == dist2_from(qx, qy, alpha, c),
        dist2_from(qx, qy, alpha, b) == dist2_from(qx, qy, alpha, c),
    ensures
        4 * orient_det(a, b, c) * incircle_det(a, b, c, d) == dist2_from(qx, qy, alpha, a)
            - dist2_from(qx, qy, alpha, d),
{
    let (ux, uy, vx, vy) = (a.x - c.x, a.y - c.y, b.x - c.x, b.y - c.y);
    let (wx, wy) = (d.x - c.x, d.y - c.y);
    let (uu, vv, ww) = (norm2(ux, uy), norm2(vx, vy), norm2(wx, wy));
    let (nx, ny) = (uu * vy - vv * uy, ux * vv - vx * uu);
    let det = orient_det(a, b, c);
    assert(det == ux * vy - uy * vx);
    let k = abs_det(a, b, c);
    assert(alpha == 2 * k && k > 0);
    // The scaled offset of `q` from `c`.
    let (mx, my) = (qx - c.x * alpha, qy - c.y * alpha);
    assert(qx - a.x * alpha == mx - ux * alpha && qy - a.y * alpha == my - uy * alpha) by (
    nonlinear_arith)
        requires
            mx == qx - c.x * alpha,
            my == qy - c.y * alpha,
            ux == a.x - c.x,
            uy == a.y - c.y,
    ;
    assert(qx - b.x * alpha == mx - vx * alpha && qy - b.y * alpha == my - vy * alpha) by (
    nonlinear_arith)
        requires
            mx == qx - c.x * alpha,
            my == qy - c.y * alpha,
            vx == b.x - c.x,
            vy == b.y - c.y,
    ;
    assert(qx - d.x * alpha == mx - wx * alpha && qy - d.y * alpha == my - wy * alpha) by (
    nonlinear_arith)
        requires
            mx == qx - c.x * alpha,
            my == qy - c.y * alpha,
            wx == d.x - c.x,
            wy == d.y - c.y,
    ;
    assert(dist2_from(qx, qy, alpha, c) == norm2(mx, my));
    lemma_shift_norm(mx, my, ux, uy, alpha);
    lemma_shift_norm(mx, my, vx, vy, alpha);
    lemma_shift_norm(mx, my, wx, wy, alpha);
    assert(dist2_from(qx, qy, alpha, a) == norm2(mx - ux * alpha, my - uy * alpha));
    assert(dist2_from(qx, qy, alpha, b) == norm2(mx - vx * alpha, my - vy * alpha));
    assert(dist2_from(qx, qy, alpha, d) == norm2(mx - wx * alpha, my - wy * alpha));
    // Equidistance from `a` and `c`, and from `b` and `c`, gives `u . m` and `v . m`.
    let (um, vm, wm) = (ux * mx + uy * my, vx * mx + vy * my, wx * mx + wy * my);
    assert(um == k * uu) by (nonlinear_arith)
        requires
            2 * alpha * um == alpha * alpha * uu,
            alpha == 2 * k,
            k > 0,
    ;
    assert(vm == k * vv) by (nonlinear_arith)
        requires
            2 * alpha * vm == alpha * alpha * vv,
            alpha == 2 * k,
            k > 0,
    ;
    // Solving for `m`: `det m == k n`.
    assert(det * mx == vy * (ux * mx) - uy * (vx * mx)) by (nonlinear_arith)
        requires
            det == ux * vy - uy * vx,
    ;
    assert(vy * (k * uu - uy * my) - uy * (k * vv - vy * my) == k * nx) by (nonlinear_arith)
        requires
            nx == uu * vy - vv * uy,
    ;
    assert(det * mx == k * nx);
    assert(det * my == ux * (vy * my) - vx * (uy * my)) by (nonlinear_arith)
        requires
            det == ux * vy - uy * vx,
    ;
    assert(ux * (k * vv - vx * mx) - vx * (k * uu - ux * mx) == k * ny) by (nonlinear_arith)
        requires
            ny == ux * vv - vx * uu,
    ;
    assert(det * my == k * ny);
    let wn = wx * nx + wy * ny;
    assert(det * wm == wx * (det * mx) + wy * (det * my)) by (nonlinear_arith)
        requires
            wm == wx * mx + wy * my,
    ;
    assert(wx * (k * nx) + wy * (k * ny) == k * wn) by (nonlinear_arith)
        requires
            wn == wx * nx + wy * ny,
    ;
    assert(det * wm == k * wn);
    assert(k * k == det * det) by (nonlinear_arith)
        requires
            k == det || k == -det,
    ;
    assert(k * wm == det * wn) by (nonlinear_arith)
        requires
            det * wm == k * wn,
            k * k == det * det,
            det != 0,
    ;
    lemma_incircle_from_center(a, b, c, d);
    assert(incircle_det(a, b, c, d) == wn - det * ww);
    assert(4 * det * (wn - det * ww) == 2 * alpha * wm - alpha * alpha * ww) by (nonlinear_arith)
        requires
            k * wm == det * wn,
            k * k == det * det,
            alpha == 2 * k,
    ;
}

/// The circle through three points that do not lie on one line, exactly: its
/// center as a rational point and its radius as a square root over the same
/// denominator `2 |orient_det(a, b, c)|`. With `c` as origin, `ac = a - c`,
/// `bc = b - c` and `alpha` that denominator (the last two points swapped where
/// the orientation is negative), the center is
/// `c + (|ac|^2 bc.y - |bc|^2 ac.y, ac.x |bc|^2 - bc.x |ac|^2) / alpha` and the
/// radius `sqrt(|ab|^2 |bc|^2 |ac|^2) / alpha`.
pub fn circumcircle2d<O: OrientationArea>(a: Point, b: Point, c: Point) -> (r: (
    RationalPoint,
    RadicalLength,
))
    requires
        in_range(a),
        in_range(b),
        in_range(c),
        orient_det(a, b, c) != 0,
    ensures
        r.0.denominator == 2 * abs_det(a, b, c),
        r.1.denominator == r.0.denominator,
        scaled_dist2(r.0, a) == scaled_dist2(r.0, b),
        scaled_dist2(r.0, a) == scaled_dist2(r.0, c),
        r.1.radicand() == scaled_dist2(r.0, a),
        r.1.radicand() == dist2(a, b) * dist2(b, c) * dist2(c, a),
        r.1.f0 >= 0 && r.1.f1 >= 0 && r.1.f2 >= 0,
{
    let ghost (a0, b0, c0) = (a, b, c);
    let orientation = O::orientation(&a, &b, &c);
    proof {
        lemma_orient_det_swap(a, b, c);
    }
    let (b, c) = if orientation > 0 {
        (b, c)
    } else {
        (c, b)
    };
    let ghost det = orient_det(a, b, c);
    let acx = a.x as i128 - c.x as i128;
    let acy = a.y as i128 - c.y as i128;
    let bcx = b.x as i128 - c.x as i128;
    let bcy = b.y as i128 - c.y as i128;
    let abx = a.x as i128 - b.x as i128;
    let aby = a.y as i128 - b.y as i128;
    let l: i128 = 0x1000_0000;
    proof {
        lemma_mul_bounds(acx as int, acx as int, l as int, l as int);
        lemma_mul_bounds(acy as int, acy as int, l as int, l as int);
        lemma_mul_bounds(bcx as int, bcx as int, l as int, l as int);
        lemma_mul_bounds(bcy as int, bcy as int, l as int, l as int);
        lemma_mul_bounds(abx as int, abx as int, l as int, l as int);
        lemma_mul_bounds(aby as int, aby as int, l as int, l as int);
        lemma_mul_bounds(acx as int, bcy as int, l as int, l as int);
        lemma_mul_bounds(acy as int, bcx as int, l as int, l as int);
        assert(0 <= acx * acx && 0 <= acy * acy && 0 <= bcx * bcx && 0 <= bcy * bcy && 0 <= abx
            * abx && 0 <= aby * aby) by (nonlinear_arith);
    }
    assert(det == acx * bcy - acy * bcx);
    let denominator = 2 * (acx * bcy - acy * bcx);
    let acxys = acx * acx + acy * acy;
    let bcxys = bcx * bcx + bcy * bcy;
    let abxys = abx * abx + aby * aby;
    let m: i128 = 0x200_0000_0000_0000;
    proof {
        lemma_mul_bounds(acxys as int, bcy as int, m as int, l as int);
        lemma_mul_bounds(bcxys as int, acy as int, m as int, l as int);
        lemma_mul_bounds(acx as int, bcxys as int, l as int, m as int);
        lemma_mul_bounds(bcx as int, acxys as int, l as int, m as int);
        lemma_mul_bounds(c.x as int, denominator as int, 0x800_0000, 2 * m as int);
        lemma_mul_bounds(c.y as int, denominator as int, 0x800_0000, 2 * m as int);
    }
    let nx = acxys * bcy - bcxys * acy;
    let ny = acx * bcxys - bcx * acxys;
    let center = RationalPoint {
        x: c.x as i128 * denominator + nx,
        y: c.y as i128 * denominator + ny,
        denominator,
    };
    let radius = RadicalLength { f0: bcxys, f1: acxys, f2: abxys, denominator };
    proof {
        lemma_center_offset(acx as int, acy as int, bcx as int, bcy as int);
        lemma_reflect_offset(nx as int, ny as int, acx as int, acy as int, det, denominator as int);
        lemma_reflect_offset(nx as int, ny as int, bcx as int, bcy as int, det, denominator as int);
        assert(center.x - c.x * denominator == nx);
        assert(center.y - c.y * denominator == ny);
        assert(center.x - a.x * denominator == nx - acx * denominator) by (nonlinear_arith)
            requires
                center.x == c.x * denominator + nx,
                acx == a.x - c.x,
        ;
        assert(center.y - a.y * denominator == ny - acy * denominator) by (nonlinear_arith)
            requires
                center.y == c.y * denominator + ny,
                acy == a.y - c.y,
        ;
        assert(center.x - b.x * denominator == nx - bcx * denominator) by (nonlinear_arith)
            requires
                center.x == c.x * denominator + nx,
                bcx == b.x - c.x,
        ;
        assert(center.y - b.y * denominator == ny - bcy * denominator) by (nonlinear_arith)
            requires
                center.y == c.y * denominator + ny,
                bcy == b.y - c.y,
        ;
        assert(abx == acx - bcx && aby == acy - bcy);
        assert(radius.radicand() == acxys * bcxys * abxys) by (nonlinear_arith)
            requires
                radius.radicand() == bcxys * acxys * abxys,
        ;
        assert(dist2(a, b) == abxys && dist2(b, c) == bcxys && dist2(c, a) == acxys) by (
        nonlinear_arith)
            requires
                abx == a.x - b.x,
                aby == a.y - b.y,
                bcx == b.x - c.x,
                bcy == b.y - c.y,
                acx == a.x - c.x,
                acy == a.y - c.y,
                abxys == abx * abx + aby * aby,
                bcxys == bcx * bcx + bcy * bcy,
                acxys == acx * acx + acy * acy,
        ;
        assert(dist2(a0, b0) * dist2(b0, c0) * dist2(c0, a0) == abxys * bcxys * acxys) by {
            if orientation <= 0 {
                assert(dist2(a0, b0) == dist2(c, a) && dist2(b0, c0) == dist2(b, c) && dist2(c0, a0)
                    == dist2(a, b)) by (nonlinear_arith)
                    requires
                        b0 == c,
                        c0 == b,
                        a0 == a,
                ;
                assert(acxys * bcxys * abxys == abxys * bcxys * acxys) by (nonlinear_arith);
            }
        }
        assert(radius.radicand() == abxys * bcxys * acxys) by (nonlinear_arith)
            requires
                radius.radicand() == bcxys * acxys * abxys,
        ;
    }
    (center, radius)
}

} // verus!
