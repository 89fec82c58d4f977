//! Points lifted to heights: the algebra behind the empty-circle test.
//!
//! A point of the plane with a height is a point of space.  Four of them have
//! an orientation, `lifted_det`; with the squared distance from the origin as
//! height it is the in-circle determinant.  All planes through two lifted
//! points `a`, `b` form a pencil, ordered by the quotient of `lean` and
//! `cross`.

use vstd::prelude::*;
use crate::geometry::{
    cross,
    distance2,
    in_circle_det,
    lemma_cross_in_all_orders,
    lemma_in_circle_by_sides,
    Point,
};

verus! {

/// The orientation of four lifted points: for `a b c` counter-clockwise it is
/// negative when `d` lies above the plane through `a`, `b`, `c`.
pub open spec fn lifted_det(
    a: Point,
    ha: int,
    b: Point,
    hb: int,
    c: Point,
    hc: int,
    d: Point,
    hd: int,
) -> int {
    ha * cross(b, c, d) + hb * cross(c, a, d) + hc * cross(a, b, d) - hd * cross(a, b, c)
}

/// The squared distance of `p` from the origin.
pub open spec fn square(p: Point) -> int {
    p.x * p.x + p.y * p.y
}

/// The inner product of the vectors from `o` to `u` and from `o` to `v`.
pub open spec fn dot(o: Point, u: Point, v: Point) -> int {
    (u.x - o.x) * (v.x - o.x) + (u.y - o.y) * (v.y - o.y)
}

/// The lean of the lifted point `x` against the lifted edge `a b`: how steep
/// the plane through the three is, scaled by the squared length of the edge
/// and by the distance of `x` from it.  Divided by `cross(a, b, x)` it orders
/// the planes through the edge.
pub open spec fn lean(a: Point, ha: int, b: Point, hb: int, x: Point, hx: int) -> int {
    dot(a, b, b) * hx - ha * dot(b, x, a) - hb * dot(a, x, b)
}

/// For three vectors `u`, `v`, `w` of the plane and a fourth `x`:
/// `(u x v)(w . x) + (v x w)(u . x) + (w x u)(v . x) = 0`.
#[verifier::rlimit(50)]
pub proof fn lemma_three_vectors(
    ux: int,
    uy: int,
    vx: int,
    vy: int,
    wx: int,
    wy: int,
    xx: int,
    xy: int,
)
    ensures
        (ux * vy - uy * vx) * (wx * xx + wy * xy) + (vx * wy - vy * wx) * (ux * xx + uy * xy) + (wx
            * uy - wy * ux) * (vx * xx + vy * xy) == 0,
        (ux * vy - uy * vx) * wx + (vx * wy - vy * wx) * ux + (wx * uy - wy * ux) * vx == 0,
        (ux * vy - uy * vx) * wy + (vx * wy - vy * wx) * uy + (wx * uy - wy * ux) * vy == 0,
{
    // The coefficient of `xx` and that of `xy` vanish separately.
    assert((ux * vy - uy * vx) * wx + (vx * wy - vy * wx) * ux + (wx * uy - wy * ux) * vx == 0)
        by (nonlinear_arith);
    assert((ux * vy - uy * vx) * wy + (vx * wy - vy * wx) * uy + (wx * uy - wy * ux) * vy == 0)
        by (nonlinear_arith);
    let p = ux * vy - uy * vx;
    let q = vx * wy - vy * wx;
    let r = wx * uy - wy * ux;
    assert(p * (wx * xx + wy * xy) == (p * wx) * xx + (p * wy) * xy) by (nonlinear_arith);
    assert(q * (ux * xx + uy * xy) == (q * ux) * xx + (q * uy) * xy) by (nonlinear_arith);
    assert(r * (vx * xx + vy * xy) == (r * vx) * xx + (r * vy) * xy) by (nonlinear_arith);
    let ax = p * wx;
    let bx = q * ux;
    let cx = r * vx;
    let ay = p * wy;
    let by = q * uy;
    let cy = r * vy;
    assert(ax * xx + bx * xx + cx * xx == 0) by (nonlinear_arith)
        requires
            ax + bx + cx == 0,
    ;
    assert(ay * xy + by * xy + cy * xy == 0) by (nonlinear_arith)
        requires
            ay + by + cy == 0,
    ;
}

/// Exchanging the last two points reverses the orientation.
#[verifier::rlimit(50)]
pub proof fn lemma_lifted_det_reverses_with_the_apex(
    a: Point,
    ha: int,
    b: Point,
    hb: int,
    c: Point,
    hc: int,
    d: Point,
    hd: int,
)
    ensures
        lifted_det(a, ha, b, hb, d, hd, c, hc) == -lifted_det(a, ha, b, hb, c, hc, d, hd),
{
    lemma_cross_in_all_orders(b, c, d);
    lemma_cross_in_all_orders(c, a, d);
    assert(ha * cross(b, d, c) == -(ha * cross(b, c, d))) by (nonlinear_arith)
        requires
            cross(b, d, c) == -cross(b, c, d),
    ;
    assert(hb * cross(d, a, c) == -(hb * cross(c, a, d))) by (nonlinear_arith)
        requires
            cross(d, a, c) == -cross(c, a, d),
    ;
}

/// Exchanging the first two points reverses the orientation.
#[verifier::rlimit(50)]
pub proof fn lemma_lifted_det_reverses_with_the_edge(
    a: Point,
    ha: int,
    b: Point,
    hb: int,
    c: Point,
    hc: int,
    d: Point,
    hd: int,
)
    ensures
        lifted_det(b, hb, a, ha, c, hc, d, hd) == -lifted_det(a, ha, b, hb, c, hc, d, hd),
{
    lemma_cross_in_all_orders(a, b, d);
    lemma_cross_in_all_orders(b, c, d);
    lemma_cross_in_all_orders(c, a, d);
    lemma_cross_in_all_orders(a, b, c);
    assert(hb * cross(a, c, d) == -(hb * cross(c, a, d))) by (nonlinear_arith)
        requires
            cross(a, c, d) == -cross(c, a, d),
    ;
    assert(ha * cross(c, b, d) == -(ha * cross(b, c, d))) by (nonlinear_arith)
        requires
            cross(c, b, d) == -cross(b, c, d),
    ;
    assert(hc * cross(b, a, d) == -(hc * cross(a, b, d))) by (nonlinear_arith)
        requires
            cross(b, a, d) == -cross(a, b, d),
    ;
    assert(hd * cross(b, a, c) == -(hd * cross(a, b, c))) by (nonlinear_arith)
        requires
            cross(b, a, c) == -cross(a, b, c),
    ;
}

/// Turning the first three points keeps the orientation.
pub proof fn lemma_lifted_det_turns(
    a: Point,
    ha: int,
    b: Point,
    hb: int,
    c: Point,
    hc: int,
    d: Point,
    hd: int,
)
    ensures
        lifted_det(b, hb, c, hc, a, ha, d, hd) == lifted_det(a, ha, b, hb, c, hc, d, hd),
{
    lemma_cross_in_all_orders(a, b, c);
}

/// The planes through the lifted `a` and `b` form a pencil: the orientation
/// of `a b x y` compares the leans of `x` and `y`.
#[verifier::rlimit(50)]
pub proof fn lemma_lifted_pencil(
    a: Point,
    ha: int,
    b: Point,
    hb: int,
    x: Point,
    hx: int,
    y: Point,
    hy: int,
)
    ensures
        dot(a, b, b) * lifted_det(a, ha, b, hb, x, hx, y, hy) == lean(a, ha, b, hb, x, hx) * cross(
            a,
            b,
            y,
        ) - lean(a, ha, b, hb, y, hy) * cross(a, b, x),
{
    let dx = b.x - a.x;
    let dy = b.y - a.y;
    let ux = x.x - a.x;
    let uy = x.y - a.y;
    let vx = y.x - a.x;
    let vy = y.y - a.y;
    let q = dx * dx + dy * dy;
    let ud = ux * dx + uy * dy;
    let vd = vx * dx + vy * dy;
    let du = dx * uy - dy * ux;
    let dv = dx * vy - dy * vx;
    let uv = ux * vy - uy * vx;
    // The pieces of the statement in these terms.
    assert(dot(a, b, b) == q);
    assert(cross(a, b, x) == du);
    assert(cross(a, b, y) == dv);
    assert(dot(a, x, b) == ud);
    assert(dot(a, y, b) == vd);
    assert(dot(b, x, a) == q - ud) by {
        assert(dot(b, x, a) == (ux - dx) * (0 - dx) + (uy - dy) * (0 - dy));
        assert((ux - dx) * (0 - dx) == dx * dx - ux * dx) by (nonlinear_arith);
        assert((uy - dy) * (0 - dy) == dy * dy - uy * dy) by (nonlinear_arith);
    }
    assert(dot(b, y, a) == q - vd) by {
        assert(dot(b, y, a) == (vx - dx) * (0 - dx) + (vy - dy) * (0 - dy));
        assert((vx - dx) * (0 - dx) == dx * dx - vx * dx) by (nonlinear_arith);
        assert((vy - dy) * (0 - dy) == dy * dy - vy * dy) by (nonlinear_arith);
    }
    lemma_cross_in_all_orders(a, x, y);
    assert(cross(x, a, y) == -uv);
    assert(cross(b, x, y) == uv + du - dv) by {
        assert(cross(b, x, y) == (ux - dx) * (vy - dy) - (uy - dy) * (vx - dx));
        assert((ux - dx) * (vy - dy) == ux * vy - ux * dy - dx * vy + dx * dy)
            by (nonlinear_arith);
        assert((uy - dy) * (vx - dx) == uy * vx - uy * dx - dy * vx + dy * dx)
            by (nonlinear_arith);
        assert(ux * dy == dy * ux && uy * dx == dx * uy && dx * dy == dy * dx)
            by (nonlinear_arith);
    }
    // q (u x v) = (u . d)(d x v) - (v . d)(d x u).
    lemma_three_vectors(dx, dy, ux, uy, vx, vy, dx, dy);
    assert(q * uv == ud * dv - vd * du) by (nonlinear_arith)
        requires
            (dx * uy - dy * ux) * (vx * dx + vy * dy) + (ux * vy - uy * vx) * (dx * dx + dy * dy)
                + (vx * dy - vy * dx) * (ux * dx + uy * dy) == 0,
            q == dx * dx + dy * dy,
            ud == ux * dx + uy * dy,
            vd == vx * dx + vy * dy,
            du == dx * uy - dy * ux,
            dv == dx * vy - dy * vx,
            uv == ux * vy - uy * vx,
    ;
    // The two sides, height by height.
    let side_a = uv + du - dv;
    assert(q * side_a == q * uv + q * du - q * dv) by (nonlinear_arith)
        requires
            side_a == uv + du - dv,
    ;
    assert((q - ud) * dv == q * dv - ud * dv) by (nonlinear_arith);
    assert((q - vd) * du == q * du - vd * du) by (nonlinear_arith);
    let left_a = q * side_a;
    let right_a = (q - vd) * du - (q - ud) * dv;
    assert(left_a == right_a);
    let left_b = q * (-uv);
    let right_b = vd * du - ud * dv;
    assert(left_b == right_b) by (nonlinear_arith)
        requires
            left_b == q * (-uv),
            right_b == vd * du - ud * dv,
            q * uv == ud * dv - vd * du,
    ;
    let w = ha * side_a + hb * (-uv) + hx * dv - hy * du;
    assert(lifted_det(a, ha, b, hb, x, hx, y, hy) == w);
    assert(q * w == q * (ha * side_a) + q * (hb * (-uv)) + q * (hx * dv) - q * (hy * du))
        by (nonlinear_arith)
        requires
            w == ha * side_a + hb * (-uv) + hx * dv - hy * du,
    ;
    assert(q * (ha * side_a) == ha * left_a) by (nonlinear_arith)
        requires
            left_a == q * side_a,
    ;
    assert(q * (hb * (-uv)) == hb * left_b) by (nonlinear_arith)
        requires
            left_b == q * (-uv),
    ;
    assert(q * (hx * dv) == (q * hx) * dv) by (nonlinear_arith);
    assert(q * (hy * du) == (q * hy) * du) by (nonlinear_arith);
    let lx = q * hx - ha * (q - ud) - hb * ud;
    let ly = q * hy - ha * (q - vd) - hb * vd;
    assert(lean(a, ha, b, hb, x, hx) == lx);
    assert(lean(a, ha, b, hb, y, hy) == ly);
    assert(lx * dv == (q * hx) * dv - (ha * (q - ud)) * dv - (hb * ud) * dv) by (nonlinear_arith)
        requires
            lx == q * hx - ha * (q - ud) - hb * ud,
    ;
    assert(ly * du == (q * hy) * du - (ha * (q - vd)) * du - (hb * vd) * du) by (nonlinear_arith)
        requires
            ly == q * hy - ha * (q - vd) - hb * vd,
    ;
    assert((ha * (q - ud)) * dv == ha * ((q - ud) * dv)) by (nonlinear_arith);
    assert((ha * (q - vd)) * du == ha * ((q - vd) * du)) by (nonlinear_arith);
    assert((hb * ud) * dv == hb * (ud * dv)) by (nonlinear_arith);
    assert((hb * vd) * du == hb * (vd * du)) by (nonlinear_arith);
    assert(ha * right_a == ha * ((q - vd) * du) - ha * ((q - ud) * dv)) by (nonlinear_arith)
        requires
            right_a == (q - vd) * du - (q - ud) * dv,
    ;
    assert(hb * right_b == hb * (vd * du) - hb * (ud * dv)) by (nonlinear_arith)
        requires
            right_b == vd * du - ud * dv,
    ;
}

/// With the squared distance from the origin as height, the orientation of
/// the lifted points is the in-circle determinant.
#[verifier::rlimit(50)]
pub proof fn lemma_lift_of_squares(a: Point, b: Point, c: Point, d: Point)
    ensures
        lifted_det(a, square(a), b, square(b), c, square(c), d, square(d)) == in_circle_det(
            a,
            b,
            c,
            d,
        ),
{
    lemma_in_circle_by_sides(a, b, c, d);
    let ca = cross(b, c, d);
    let cb = cross(c, a, d);
    let cc = cross(a, b, d);
    let sd = square(d);
    let ax = a.x - d.x;
    let ay = a.y - d.y;
    let bx = b.x - d.x;
    let by = b.y - d.y;
    let cx = c.x - d.x;
    let cy = c.y - d.y;
    lemma_cross_in_all_orders(d, b, c);
    lemma_cross_in_all_orders(d, c, a);
    lemma_cross_in_all_orders(d, a, b);
    assert(ca == bx * cy - by * cx);
    assert(cb == cx * ay - cy * ax);
    assert(cc == ax * by - ay * bx);
    // (a - d) . d ca + (b - d) . d cb + (c - d) . d cc = 0.
    lemma_three_vectors(ax, ay, bx, by, cx, cy, d.x as int, d.y as int);
    let pa = ax * d.x + ay * d.y;
    let pb = bx * d.x + by * d.y;
    let pc = cx * d.x + cy * d.y;
    assert(pa * ca + pb * cb + pc * cc == 0) by (nonlinear_arith)
        requires
            (ax * by - ay * bx) * (cx * d.x + cy * d.y) + (bx * cy - by * cx) * (ax * d.x + ay
                * d.y) + (cx * ay - cy * ax) * (bx * d.x + by * d.y) == 0,
            ca == bx * cy - by * cx,
            cb == cx * ay - cy * ax,
            cc == ax * by - ay * bx,
            pa == ax * d.x + ay * d.y,
            pb == bx * d.x + by * d.y,
            pc == cx * d.x + cy * d.y,
    ;
    // |v - d|^2 = |v|^2 - 2 (v - d) . d - |d|^2.
    let la = distance2(a, d.x as int, d.y as int);
    let lb = distance2(b, d.x as int, d.y as int);
    let lc = distance2(c, d.x as int, d.y as int);
    assert(la == square(a) - 2 * pa - sd) by (nonlinear_arith)
        requires
            la == (a.x - d.x) * (a.x - d.x) + (a.y - d.y) * (a.y - d.y),
            square(a) == a.x * a.x + a.y * a.y,
            sd == d.x * d.x + d.y * d.y,
            pa == (a.x - d.x) * d.x + (a.y - d.y) * d.y,
    ;
    assert(lb == square(b) - 2 * pb - sd) by (nonlinear_arith)
        requires
            lb == (b.x - d.x) * (b.x - d.x) + (b.y - d.y) * (b.y - d.y),
            square(b) == b.x * b.x + b.y * b.y,
            sd == d.x * d.x + d.y * d.y,
            pb == (b.x - d.x) * d.x + (b.y - d.y) * d.y,
    ;
    assert(lc == square(c) - 2 * pc - sd) by (nonlinear_arith)
        requires
            lc == (c.x - d.x) * (c.x - d.x) + (c.y - d.y) * (c.y - d.y),
            square(c) == c.x * c.x + c.y * c.y,
            sd == d.x * d.x + d.y * d.y,
            pc == (c.x - d.x) * d.x + (c.y - d.y) * d.y,
    ;
    assert(la * ca == square(a) * ca - 2 * (pa * ca) - sd * ca) by (nonlinear_arith)
        requires
            la == square(a) - 2 * pa - sd,
    ;
    assert(lb * cb == square(b) * cb - 2 * (pb * cb) - sd * cb) by (nonlinear_arith)
        requires
            lb == square(b) - 2 * pb - sd,
    ;
    assert(lc * cc == square(c) * cc - 2 * (pc * cc) - sd * cc) by (nonlinear_arith)
        requires
            lc == square(c) - 2 * pc - sd,
    ;
    assert(sd * cross(a, b, c) == sd * ca + sd * cb + sd * cc) by (nonlinear_arith)
        requires
            cross(a, b, c) == ca + cb + cc,
    ;
}

/// The orientation of lifted points is linear in the heights.
#[verifier::rlimit(50)]
pub proof fn lemma_lifted_det_is_linear(
    a: Point,
    b: Point,
    c: Point,
    d: Point,
    k: int,
    sa: int,
    sb: int,
    sc: int,
    sd: int,
    ea: int,
    eb: int,
    ec: int,
    ed: int,
)
    ensures
        lifted_det(a, k * sa + ea, b, k * sb + eb, c, k * sc + ec, d, k * sd + ed) == k
            * lifted_det(a, sa, b, sb, c, sc, d, sd) + lifted_det(a, ea, b, eb, c, ec, d, ed),
{
    let ca = cross(b, c, d);
    let cb = cross(c, a, d);
    let cc = cross(a, b, d);
    let cd = cross(a, b, c);
    assert((k * sa + ea) * ca == k * (sa * ca) + ea * ca) by (nonlinear_arith);
    assert((k * sb + eb) * cb == k * (sb * cb) + eb * cb) by (nonlinear_arith);
    assert((k * sc + ec) * cc == k * (sc * cc) + ec * cc) by (nonlinear_arith);
    assert((k * sd + ed) * cd == k * (sd * cd) + ed * cd) by (nonlinear_arith);
    let ta = sa * ca;
    let tb = sb * cb;
    let tc = sc * cc;
    let td = sd * cd;
    assert(k * (ta + tb + tc - td) == k * ta + k * tb + k * tc - k * td) by (nonlinear_arith);
}

/// The lean is linear in the heights.
#[verifier::rlimit(50)]
pub proof fn lemma_lean_is_linear(
    a: Point,
    b: Point,
    x: Point,
    k: int,
    sa: int,
    sb: int,
    sx: int,
    ea: int,
    eb: int,
    ex: int,
)
    ensures
        lean(a, k * sa + ea, b, k * sb + eb, x, k * sx + ex) == k * lean(a, sa, b, sb, x, sx)
            + lean(a, ea, b, eb, x, ex),
{
    let q = dot(a, b, b);
    let al = dot(b, x, a);
    let be = dot(a, x, b);
    assert(q * (k * sx + ex) == k * (q * sx) + q * ex) by (nonlinear_arith);
    assert((k * sa + ea) * al == k * (sa * al) + ea * al) by (nonlinear_arith);
    assert((k * sb + eb) * be == k * (sb * be) + eb * be) by (nonlinear_arith);
    let tx = q * sx;
    let ta = sa * al;
    let tb = sb * be;
    assert(k * (tx - ta - tb) == k * tx - k * ta - k * tb) by (nonlinear_arith);
}

/// `(d . d)(a . u) - (a . d)(u . d) = (d x a)(d x u)`.
#[verifier::rlimit(50)]
pub proof fn lemma_two_products(ax: int, ay: int, dx: int, dy: int, ux: int, uy: int)
    ensures
        (dx * dx + dy * dy) * (ax * ux + ay * uy) - (ax * dx + ay * dy) * (ux * dx + uy * dy) == (dx
            * ay - dy * ax) * (dx * uy - dy * ux),
{
    let da = dx * ay - dy * ax;
    let us = dx * uy - dy * ux;
    let q = dx * dx + dy * dy;
    let ad = ax * dx + ay * dy;
    let udot = ux * dx + uy * dy;
    // The identity itself, by its eight products.
    let au_dot = ax * ux + ay * uy;
    assert(q * au_dot == (dx * dx) * (ax * ux) + (dx * dx) * (ay * uy) + (dy * dy) * (ax * ux) + (dy
        * dy) * (ay * uy)) by (nonlinear_arith)
        requires
            q == dx * dx + dy * dy,
            au_dot == ax * ux + ay * uy,
    ;
    assert(ad * udot == (ax * dx) * (ux * dx) + (ax * dx) * (uy * dy) + (ay * dy) * (ux * dx) + (ay
        * dy) * (uy * dy)) by (nonlinear_arith)
        requires
            ad == ax * dx + ay * dy,
            udot == ux * dx + uy * dy,
    ;
    assert(da * us == (dx * ay) * (dx * uy) - (dx * ay) * (dy * ux) - (dy * ax) * (dx * uy) + (dy
        * ax) * (dy * ux)) by (nonlinear_arith)
        requires
            da == dx * ay - dy * ax,
            us == dx * uy - dy * ux,
    ;
    assert((dx * dx) * (ax * ux) == (ax * dx) * (ux * dx)) by (nonlinear_arith);
    assert((dy * dy) * (ay * uy) == (ay * dy) * (uy * dy)) by (nonlinear_arith);
    assert((dx * dx) * (ay * uy) == (dx * ay) * (dx * uy)) by (nonlinear_arith);
    assert((dy * dy) * (ax * ux) == (dy * ax) * (dy * ux)) by (nonlinear_arith);
    assert((ax * dx) * (uy * dy) == (dy * ax) * (dx * uy)) by (nonlinear_arith);
    assert((ay * dy) * (ux * dx) == (dx * ay) * (dy * ux)) by (nonlinear_arith);
}

/// With the squared distance from the origin as height, a point on the line
/// through `a` and `b` leans above the edge where it lies outside the
/// segment, and below it where it lies inside.
#[verifier::rlimit(50)]
pub proof fn lemma_lean_of_squares_on_the_line(a: Point, b: Point, m: Point)
    requires
        cross(a, b, m) == 0,
    ensures
        lean(a, square(a), b, square(b), m, square(m)) == dot(a, b, b) * dot(m, a, b),
{
    let ax = a.x as int;
    let ay = a.y as int;
    let dx = b.x - a.x;
    let dy = b.y - a.y;
    let ux = m.x - a.x;
    let uy = m.y - a.y;
    let q = dx * dx + dy * dy;
    let uu = ux * ux + uy * uy;
    let ud = ux * dx + uy * dy;
    let ad = ax * dx + ay * dy;
    let au = ax * ux + ay * uy;
    let sa = square(a);
    assert(dot(a, b, b) == q);
    assert(dot(a, m, b) == ud);
    assert(dot(b, m, a) == q - ud) by {
        assert(dot(b, m, a) == (ux - dx) * (0 - dx) + (uy - dy) * (0 - dy));
        assert((ux - dx) * (0 - dx) == dx * dx - ux * dx) by (nonlinear_arith);
        assert((uy - dy) * (0 - dy) == dy * dy - uy * dy) by (nonlinear_arith);
    }
    assert(dot(m, a, b) == uu - ud) by {
        assert(dot(m, a, b) == (0 - ux) * (dx - ux) + (0 - uy) * (dy - uy));
        assert((0 - ux) * (dx - ux) == ux * ux - ux * dx) by (nonlinear_arith);
        assert((0 - uy) * (dy - uy) == uy * uy - uy * dy) by (nonlinear_arith);
    }
    assert(square(b) == sa + 2 * ad + q) by {
        assert(square(b) == (ax + dx) * (ax + dx) + (ay + dy) * (ay + dy));
        assert((ax + dx) * (ax + dx) == ax * ax + 2 * (ax * dx) + dx * dx) by (nonlinear_arith);
        assert((ay + dy) * (ay + dy) == ay * ay + 2 * (ay * dy) + dy * dy) by (nonlinear_arith);
    }
    assert(square(m) == sa + 2 * au + uu) by {
        assert(square(m) == (ax + ux) * (ax + ux) + (ay + uy) * (ay + uy));
        assert((ax + ux) * (ax + ux) == ax * ax + 2 * (ax * ux) + ux * ux) by (nonlinear_arith);
        assert((ay + uy) * (ay + uy) == ay * ay + 2 * (ay * uy) + uy * uy) by (nonlinear_arith);
    }
    // The point is on the line: (d x a)(d x u) = 0.
    lemma_two_products(ax, ay, dx, dy, ux, uy);
    assert(cross(a, b, m) == dx * uy - dy * ux);
    assert((dx * ay - dy * ax) * (dx * uy - dy * ux) == 0) by (nonlinear_arith)
        requires
            dx * uy - dy * ux == 0,
    ;
    assert(q * au == ad * ud);
    let sm = sa + 2 * au + uu;
    let sb = sa + 2 * ad + q;
    assert(q * sm == q * sa + 2 * (q * au) + q * uu) by (nonlinear_arith)
        requires
            sm == sa + 2 * au + uu,
    ;
    assert(sa * (q - ud) == sa * q - sa * ud) by (nonlinear_arith);
    assert(sb * ud == sa * ud + 2 * (ad * ud) + q * ud) by (nonlinear_arith)
        requires
            sb == sa + 2 * ad + q,
    ;
    assert(q * (uu - ud) == q * uu - q * ud) by (nonlinear_arith);
    assert(q * sa == sa * q) by (nonlinear_arith);
}

/// A point on the line through `a` and `b` that sees them at a right angle
/// is one of them.
#[verifier::rlimit(50)]
pub proof fn lemma_end_of_the_edge(a: Point, b: Point, m: Point)
    requires
        cross(a, b, m) == 0,
        dot(m, a, b) == 0,
    ensures
        m == a || m == b,
{
    let dx = b.x - a.x;
    let dy = b.y - a.y;
    let ux = m.x - a.x;
    let uy = m.y - a.y;
    let q = dx * dx + dy * dy;
    let uu = ux * ux + uy * uy;
    let ud = ux * dx + uy * dy;
    assert(dot(m, a, b) == uu - ud) by {
        assert(dot(m, a, b) == (0 - ux) * (dx - ux) + (0 - uy) * (dy - uy));
        assert((0 - ux) * (dx - ux) == ux * ux - ux * dx) by (nonlinear_arith);
        assert((0 - uy) * (dy - uy) == uy * uy - uy * dy) by (nonlinear_arith);
    }
    assert(cross(a, b, m) == dx * uy - dy * ux);
    // (d . d)(u . u) - (u . d)(u . d) = (d x u)(d x u) = 0.
    lemma_two_products(ux, uy, dx, dy, ux, uy);
    assert((dx * uy - dy * ux) * (dx * uy - dy * ux) == 0) by (nonlinear_arith)
        requires
            dx * uy - dy * ux == 0,
    ;
    assert(q * uu == ud * ud);
    assert(ud == 0 || ud == q) by (nonlinear_arith)
        requires
            q * ud == ud * ud,
    ;
    if ud == 0 {
        assert(ux == 0 && uy == 0) by (nonlinear_arith)
            requires
                ux * ux + uy * uy == 0,
        ;
    } else {
        let wx = ux - dx;
        let wy = uy - dy;
        assert(wx * wx + wy * wy == uu - 2 * ud + q) by (nonlinear_arith)
            requires
                wx == ux - dx,
                wy == uy - dy,
                uu == ux * ux + uy * uy,
                ud == ux * dx + uy * dy,
                q == dx * dx + dy * dy,
        ;
        assert(wx == 0 && wy == 0) by (nonlinear_arith)
            requires
                wx * wx + wy * wy == 0,
        ;
    }
}

/// The circles through `a` and `b` form a pencil: the in-circle determinant
/// compares the angles under which `c` and `m` see the edge.
#[verifier::rlimit(50)]
pub proof fn lemma_pencil(a: Point, b: Point, c: Point, m: Point)
    ensures
        in_circle_det(a, b, c, m) == dot(c, a, b) * cross(a, b, m) - dot(m, a, b) * cross(
            a,
            b,
            c,
        ),
{
    let bx = b.x - a.x;
    let by = b.y - a.y;
    let cx = c.x - a.x;
    let cy = c.y - a.y;
    let mx = m.x - a.x;
    let my = m.y - a.y;
    // Squares and products of the three vectors from `a`.
    let mm = mx * mx + my * my;
    let bb = bx * bx + by * by;
    let cc = cx * cx + cy * cy;
    let mb = mx * bx + my * by;
    let mc = mx * cx + my * cy;
    let cb = cx * bx + cy * by;
    let bc = bx * cy - by * cx;
    let cm = cx * my - cy * mx;
    let bm = bx * my - by * mx;
    lemma_in_circle_by_sides(a, b, c, m);
    let la = distance2(a, m.x as int, m.y as int);
    let lb = distance2(b, m.x as int, m.y as int);
    let lc = distance2(c, m.x as int, m.y as int);
    assert(la == mm) by (nonlinear_arith)
        requires
            la == (a.x - m.x) * (a.x - m.x) + (a.y - m.y) * (a.y - m.y),
            mm == mx * mx + my * my,
            mx == m.x - a.x,
            my == m.y - a.y,
    ;
    assert(lb == mm - 2 * mb + bb) by (nonlinear_arith)
        requires
            lb == (b.x - m.x) * (b.x - m.x) + (b.y - m.y) * (b.y - m.y),
            mm == mx * mx + my * my,
            bb == bx * bx + by * by,
            mb == mx * bx + my * by,
            mx == m.x - a.x,
            my == m.y - a.y,
            bx == b.x - a.x,
            by == b.y - a.y,
    ;
    assert(lc == mm - 2 * mc + cc) by (nonlinear_arith)
        requires
            lc == (c.x - m.x) * (c.x - m.x) + (c.y - m.y) * (c.y - m.y),
            mm == mx * mx + my * my,
            cc == cx * cx + cy * cy,
            mc == mx * cx + my * cy,
            mx == m.x - a.x,
            my == m.y - a.y,
            cx == c.x - a.x,
            cy == c.y - a.y,
    ;
    assert(cross(b, c, m) == (cx - bx) * (my - by) - (cy - by) * (mx - bx));
    assert((cx - bx) * (my - by) == cx * my - cx * by - bx * my + bx * by) by (nonlinear_arith);
    assert((cy - by) * (mx - bx) == cy * mx - cy * bx - by * mx + by * bx) by (nonlinear_arith);
    assert(cx * by == by * cx && cy * bx == bx * cy && bx * by == by * bx) by (nonlinear_arith);
    assert(cross(b, c, m) == cm - bm + bc);
    assert(cross(c, a, m) == (0 - cx) * (my - cy) - (0 - cy) * (mx - cx));
    assert((0 - cx) * (my - cy) == cx * cy - cx * my) by (nonlinear_arith);
    assert((0 - cy) * (mx - cx) == cy * cx - cy * mx) by (nonlinear_arith);
    assert(cx * cy == cy * cx) by (nonlinear_arith);
    assert(cross(c, a, m) == -cm);
    assert(cross(a, b, m) == bm);
    assert(cross(a, b, c) == bc);
    assert(dot(c, a, b) == cc - cb) by {
        assert(dot(c, a, b) == (0 - cx) * (bx - cx) + (0 - cy) * (by - cy));
        assert((0 - cx) * (bx - cx) == cx * cx - cx * bx) by (nonlinear_arith);
        assert((0 - cy) * (by - cy) == cy * cy - cy * by) by (nonlinear_arith);
    }
    assert(dot(m, a, b) == mm - mb) by {
        assert(dot(m, a, b) == (0 - mx) * (bx - mx) + (0 - my) * (by - my));
        assert((0 - mx) * (bx - mx) == mx * mx - mx * bx) by (nonlinear_arith);
        assert((0 - my) * (by - my) == my * my - my * by) by (nonlinear_arith);
    }
    // (b x c)(m . m) + (c x m)(b . m) + (m x b)(c . m) = 0, and the same with
    // the inner products taken with `b`.
    lemma_three_vectors(bx, by, cx, cy, mx, my, mx, my);
    lemma_three_vectors(bx, by, cx, cy, mx, my, bx, by);
    assert(bc * mm + cm * mb - bm * mc == 0) by (nonlinear_arith)
        requires
            (bx * cy - by * cx) * (mx * mx + my * my) + (cx * my - cy * mx) * (bx * mx + by * my)
                + (mx * by - my * bx) * (cx * mx + cy * my) == 0,
            bc == bx * cy - by * cx,
            cm == cx * my - cy * mx,
            bm == bx * my - by * mx,
            mm == mx * mx + my * my,
            mb == mx * bx + my * by,
            mc == mx * cx + my * cy,
    ;
    assert(bc * mb + cm * bb - bm * cb == 0) by (nonlinear_arith)
        requires
            (bx * cy - by * cx) * (mx * bx + my * by) + (cx * my - cy * mx) * (bx * bx + by * by)
                + (mx * by - my * bx) * (cx * bx + cy * by) == 0,
            bc == bx * cy - by * cx,
            cm == cx * my - cy * mx,
            bm == bx * my - by * mx,
            bb == bx * bx + by * by,
            mb == mx * bx + my * by,
            cb == cx * bx + cy * by,
    ;
    assert(mm * bc + mb * cm - mc * bm == 0) by (nonlinear_arith)
        requires
            bc * mm + cm * mb - bm * mc == 0,
    ;
    assert(mb * bc + bb * cm - cb * bm == 0) by (nonlinear_arith)
        requires
            bc * mb + cm * bb - bm * cb == 0,
    ;
    assert(mm * (cm - bm + bc) == mm * cm - mm * bm + mm * bc) by (nonlinear_arith);
    assert((mm - 2 * mb + bb) * (-cm) == -(mm * cm) + 2 * (mb * cm) - bb * cm)
        by (nonlinear_arith);
    assert((mm - 2 * mc + cc) * bm == mm * bm - 2 * (mc * bm) + cc * bm) by (nonlinear_arith);
    assert((cc - cb) * bm == cc * bm - cb * bm) by (nonlinear_arith);
    assert((mm - mb) * bc == mm * bc - mb * bc) by (nonlinear_arith);
}

} // verus!
