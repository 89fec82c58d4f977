//! Lattice points and the two exact predicates of planar triangulation:
//! orientation and the in-circle test.

use vstd::prelude::*;
use crate::arith::lemma_product_bound;

verus! {

/// The largest coordinate magnitude for which the in-circle test is computed
/// without overflow in 128-bit arithmetic.
pub const LATTICE_MAX: i32 = 0x2000_0000;

/// A point of the integer plane.
#[derive(Clone, Copy, Debug, PartialEq, Eq, Structural)]
pub struct Point {
    pub x: i32,
    pub y: i32,
}

impl Point {
    /// Both coordinates are within `LATTICE_MAX` of the origin.
    pub open spec fn on_lattice(self) -> bool {
        &&& -LATTICE_MAX <= self.x <= LATTICE_MAX
        &&& -LATTICE_MAX <= self.y <= LATTICE_MAX
    }

    /// Decides `on_lattice`.
    pub fn is_on_lattice(&self) -> (b: bool)
        ensures
            b == self.on_lattice(),
    {
        -LATTICE_MAX <= self.x && self.x <= LATTICE_MAX && -LATTICE_MAX <= self.y && self.y
            <= LATTICE_MAX
    }
}

/// Every point of `points` is on the lattice.
pub open spec fn all_on_lattice(points: Seq<Point>) -> bool {
    forall|i: int| 0 <= i < points.len() ==> (#[trigger] points[i]).on_lattice()
}

/// Decides `all_on_lattice`.
pub fn are_on_lattice(points: &Vec<Point>) -> (b: bool)
    ensures
        b == all_on_lattice(points@),
{
    let mut i: usize = 0;
    while i < points.len()
        invariant
            i <= points.len(),
            forall|k: int| 0 <= k < i ==> (#[trigger] points[k]).on_lattice(),
        decreases points.len() - i,
    {
        if !points[i].is_on_lattice() {
            return false;
        }
        i += 1;
    }
    true
}

/// Twice the signed area of the triangle `p q r`: positive when the three
/// points turn counter-clockwise, negative when clockwise, zero when they are
/// collinear.
pub open spec fn cross(p: Point, q: Point, r: Point) -> int {
    (q.x - p.x) * (r.y - p.y) - (q.y - p.y) * (r.x - p.x)
}

/// The in-circle determinant of `d` against the circle through `a`, `b`, `c`.
/// When `a b c` turn counter-clockwise it is positive for `d` inside the
/// circle, zero on it and negative outside; for a clockwise triple the signs
/// are reversed.
pub open spec fn in_circle_det(a: Point, b: Point, c: Point, d: Point) -> int {
    let adx = a.x - d.x;
    let ady = a.y - d.y;
    let bdx = b.x - d.x;
    let bdy = b.y - d.y;
    let cdx = c.x - d.x;
    let cdy = c.y - d.y;
    (adx * adx + ady * ady) * (bdx * cdy - bdy * cdx)
        + (bdx * bdx + bdy * bdy) * (cdx * ady - cdy * adx)
        + (cdx * cdx + cdy * cdy) * (adx * bdy - ady * bdx)
}

/// The in-circle determinant normalised by the orientation of `a b c`:
/// positive exactly when `d` is strictly inside the circle through them.
pub open spec fn circle_side(a: Point, b: Point, c: Point, d: Point) -> int {
    if cross(a, b, c) >= 0 {
        in_circle_det(a, b, c, d)
    } else {
        -in_circle_det(a, b, c, d)
    }
}

/// `r` and `s` lie strictly on different sides of the line through `p` and `q`.
pub open spec fn opposite_sides(p: Point, q: Point, r: Point, s: Point) -> bool {
    ||| cross(p, q, r) > 0 && cross(p, q, s) < 0
    ||| cross(p, q, r) < 0 && cross(p, q, s) > 0
}

/// The squared distance of `p` from `(ox, oy)`.
pub open spec fn distance2(p: Point, ox: int, oy: int) -> int {
    (p.x - ox) * (p.x - ox) + (p.y - oy) * (p.y - oy)
}

#[verifier::rlimit(50)]
proof fn lemma_lifted_determinant(
    ax: int,
    ay: int,
    bx: int,
    by: int,
    cx: int,
    cy: int,
    ex: int,
    ey: int,
    power: int,
    la: int,
    lb: int,
    lc: int,
)
    requires
        la == power + 2 * (ax * ex + ay * ey),
        lb == power + 2 * (bx * ex + by * ey),
        lc == power + 2 * (cx * ex + cy * ey),
    ensures
        la * (bx * cy - by * cx) + lb * (cx * ay - cy * ax) + lc * (ax * by - ay * bx) == power * ((
        bx * cy - by * cx) + (cx * ay - cy * ax) + (ax * by - ay * bx)),
{
    let ma = bx * cy - by * cx;
    let mb = cx * ay - cy * ax;
    let mc = ax * by - ay * bx;
    let da = ax * ex + ay * ey;
    let db = bx * ex + by * ey;
    let dc = cx * ex + cy * ey;
    // A determinant with two equal columns vanishes.
    let sx = ax * ma + bx * mb + cx * mc;
    let sy = ay * ma + by * mb + cy * mc;
    assert(sx == 0) by (nonlinear_arith)
        requires
            ma == bx * cy - by * cx,
            mb == cx * ay - cy * ax,
            mc == ax * by - ay * bx,
            sx == ax * ma + bx * mb + cx * mc,
    ;
    assert(sy == 0) by (nonlinear_arith)
        requires
            ma == bx * cy - by * cx,
            mb == cx * ay - cy * ax,
            mc == ax * by - ay * bx,
            sy == ay * ma + by * mb + cy * mc,
    ;
    assert(da * ma == ex * (ax * ma) + ey * (ay * ma)) by (nonlinear_arith)
        requires
            da == ax * ex + ay * ey,
    ;
    assert(db * mb == ex * (bx * mb) + ey * (by * mb)) by (nonlinear_arith)
        requires
            db == bx * ex + by * ey,
    ;
    assert(dc * mc == ex * (cx * mc) + ey * (cy * mc)) by (nonlinear_arith)
        requires
            dc == cx * ex + cy * ey,
    ;
    assert(ex * (ax * ma) + ex * (bx * mb) + ex * (cx * mc) == 0) by (nonlinear_arith)
        requires
            ax * ma + bx * mb + cx * mc == 0,
    ;
    assert(ey * (ay * ma) + ey * (by * mb) + ey * (cy * mc) == 0) by (nonlinear_arith)
        requires
            ay * ma + by * mb + cy * mc == 0,
    ;
    assert(da * ma + db * mb + dc * mc == 0);
    assert(la * ma == power * ma + 2 * (da * ma)) by (nonlinear_arith)
        requires
            la == power + 2 * da,
    ;
    assert(lb * mb == power * mb + 2 * (db * mb)) by (nonlinear_arith)
        requires
            lb == power + 2 * db,
    ;
    assert(lc * mc == power * mc + 2 * (dc * mc)) by (nonlinear_arith)
        requires
            lc == power + 2 * dc,
    ;
    assert(power * (ma + mb + mc) == power * ma + power * mb + power * mc) by (nonlinear_arith);
}

/// Where `a`, `b`, `c` lie on the circle of squared radius `r2` about the
/// lattice point `(ox, oy)`, the in-circle determinant of `d` is the signed
/// area of `a b c` times how far `d` is inside that circle: it has the sign
/// of the orientation for `d` inside, is zero for `d` on the circle and has
/// the opposite sign for `d` outside.
#[verifier::rlimit(50)]
pub proof fn lemma_in_circle_measures_distance(
    a: Point,
    b: Point,
    c: Point,
    d: Point,
    ox: int,
    oy: int,
    r2: int,
)
    requires
        distance2(a, ox, oy) == r2,
        distance2(b, ox, oy) == r2,
        distance2(c, ox, oy) == r2,
    ensures
        in_circle_det(a, b, c, d) == cross(a, b, c) * (r2 - distance2(d, ox, oy)),
{
    let ex = ox - d.x;
    let ey = oy - d.y;
    let power = r2 - distance2(d, ox, oy);
    let ax = a.x - d.x;
    let ay = a.y - d.y;
    let bx = b.x - d.x;
    let by = b.y - d.y;
    let cx = c.x - d.x;
    let cy = c.y - d.y;
    let la = ax * ax + ay * ay;
    let lb = bx * bx + by * by;
    let lc = cx * cx + cy * cy;
    assert(distance2(d, ox, oy) == ex * ex + ey * ey) by (nonlinear_arith)
        requires
            distance2(d, ox, oy) == (d.x - ox) * (d.x - ox) + (d.y - oy) * (d.y - oy),
            ex == ox - d.x,
            ey == oy - d.y,
    ;
    assert(la == power + 2 * (ax * ex + ay * ey)) by (nonlinear_arith)
        requires
            la == ax * ax + ay * ay,
            (ax - ex) * (ax - ex) + (ay - ey) * (ay - ey) == r2,
            power == r2 - (ex * ex + ey * ey),
    ;
    assert(lb == power + 2 * (bx * ex + by * ey)) by (nonlinear_arith)
        requires
            lb == bx * bx + by * by,
            (bx - ex) * (bx - ex) + (by - ey) * (by - ey) == r2,
            power == r2 - (ex * ex + ey * ey),
    ;
    assert(lc == power + 2 * (cx * ex + cy * ey)) by (nonlinear_arith)
        requires
            lc == cx * cx + cy * cy,
            (cx - ex) * (cx - ex) + (cy - ey) * (cy - ey) == r2,
            power == r2 - (ex * ex + ey * ey),
    ;
    lemma_lifted_determinant(ax, ay, bx, by, cx, cy, ex, ey, power, la, lb, lc);
    assert((bx * cy - by * cx) + (cx * ay - cy * ax) + (ax * by - ay * bx) == cross(a, b, c))
        by (nonlinear_arith)
        requires
            ax == a.x - d.x,
            ay == a.y - d.y,
            bx == b.x - d.x,
            by == b.y - d.y,
            cx == c.x - d.x,
            cy == c.y - d.y,
            cross(a, b, c) == (b.x - a.x) * (c.y - a.y) - (b.y - a.y) * (c.x - a.x),
    ;
    assert(power * cross(a, b, c) == cross(a, b, c) * power) by (nonlinear_arith);
}

/// `d` lies in the closed triangle `a b c`: inside it or on its boundary.
pub open spec fn in_closed_triangle(a: Point, b: Point, c: Point, d: Point) -> bool {
    if cross(a, b, c) >= 0 {
        cross(a, b, d) >= 0 && cross(b, c, d) >= 0 && cross(c, a, d) >= 0
    } else {
        cross(a, b, d) <= 0 && cross(b, c, d) <= 0 && cross(c, a, d) <= 0
    }
}

/// The in-circle determinant weighs the three triangles that `d` makes with
/// the sides of `a b c` by the squared distances of `d` from the opposite
/// vertices.
#[verifier::rlimit(50)]
pub proof fn lemma_in_circle_by_sides(a: Point, b: Point, c: Point, d: Point)
    ensures
        in_circle_det(a, b, c, d) == distance2(a, d.x as int, d.y as int) * cross(b, c, d)
            + distance2(b, d.x as int, d.y as int) * cross(c, a, d) + distance2(
            c,
            d.x as int,
            d.y as int,
        ) * cross(a, b, d),
        cross(a, b, c) == cross(b, c, d) + cross(c, a, d) + cross(a, b, d),
{
    let ax = a.x - d.x;
    let ay = a.y - d.y;
    let bx = b.x - d.x;
    let by = b.y - d.y;
    let cx = c.x - d.x;
    let cy = c.y - d.y;
    assert(cross(b, c, d) == bx * cy - by * cx) by (nonlinear_arith)
        requires
            cross(b, c, d) == (c.x - b.x) * (d.y - b.y) - (c.y - b.y) * (d.x - b.x),
            bx == b.x - d.x,
            by == b.y - d.y,
            cx == c.x - d.x,
            cy == c.y - d.y,
    ;
    assert(cross(c, a, d) == cx * ay - cy * ax) by (nonlinear_arith)
        requires
            cross(c, a, d) == (a.x - c.x) * (d.y - c.y) - (a.y - c.y) * (d.x - c.x),
            ax == a.x - d.x,
            ay == a.y - d.y,
            cx == c.x - d.x,
            cy == c.y - d.y,
    ;
    assert(cross(a, b, d) == ax * by - ay * bx) by (nonlinear_arith)
        requires
            cross(a, b, d) == (b.x - a.x) * (d.y - a.y) - (b.y - a.y) * (d.x - a.x),
            ax == a.x - d.x,
            ay == a.y - d.y,
            bx == b.x - d.x,
            by == b.y - d.y,
    ;
    assert((bx * cy - by * cx) + (cx * ay - cy * ax) + (ax * by - ay * bx) == cross(a, b, c))
        by (nonlinear_arith)
        requires
            ax == a.x - d.x,
            ay == a.y - d.y,
            bx == b.x - d.x,
            by == b.y - d.y,
            cx == c.x - d.x,
            cy == c.y - d.y,
            cross(a, b, c) == (b.x - a.x) * (c.y - a.y) - (b.y - a.y) * (c.x - a.x),
    ;
}

/// A triple that names a point twice has no area.
#[verifier::rlimit(50)]
pub proof fn lemma_cross_repeated(p: Point, q: Point)
    ensures
        cross(p, p, q) == 0,
        cross(p, q, p) == 0,
        cross(q, p, p) == 0,
{
    assert(cross(p, p, q) == 0) by (nonlinear_arith)
        requires
            cross(p, p, q) == (p.x - p.x) * (q.y - p.y) - (p.y - p.y) * (q.x - p.x),
    ;
    assert(cross(p, q, p) == 0) by (nonlinear_arith)
        requires
            cross(p, q, p) == (q.x - p.x) * (p.y - p.y) - (q.y - p.y) * (p.x - p.x),
    ;
    assert(cross(q, p, p) == 0) by (nonlinear_arith)
        requires
            cross(q, p, p) == (p.x - q.x) * (p.y - q.y) - (p.y - q.y) * (p.x - q.x),
    ;
}

/// Exchanging two points of a triple reverses its orientation.
#[verifier::rlimit(50)]
pub proof fn lemma_cross_is_antisymmetric(p: Point, q: Point, r: Point)
    ensures
        cross(q, p, r) == -cross(p, q, r),
        cross(p, r, q) == -cross(p, q, r),
        cross(q, r, p) == cross(p, q, r),
{
    assert(cross(q, p, r) == -cross(p, q, r) && cross(p, r, q) == -cross(p, q, r) && cross(q, r, p)
        == cross(p, q, r)) by (nonlinear_arith)
        requires
            cross(p, q, r) == (q.x - p.x) * (r.y - p.y) - (q.y - p.y) * (r.x - p.x),
            cross(q, p, r) == (p.x - q.x) * (r.y - q.y) - (p.y - q.y) * (r.x - q.x),
            cross(p, r, q) == (r.x - p.x) * (q.y - p.y) - (r.y - p.y) * (q.x - p.x),
            cross(q, r, p) == (r.x - q.x) * (p.y - q.y) - (r.y - q.y) * (p.x - q.x),
    ;
}

/// The orientation of a triple in all its orders: turning the triple keeps
/// it, exchanging two points reverses it.
pub proof fn lemma_cross_in_all_orders(p: Point, q: Point, r: Point)
    ensures
        cross(q, r, p) == cross(p, q, r),
        cross(r, p, q) == cross(p, q, r),
        cross(q, p, r) == -cross(p, q, r),
        cross(p, r, q) == -cross(p, q, r),
        cross(r, q, p) == -cross(p, q, r),
{
    lemma_cross_is_antisymmetric(p, q, r);
    lemma_cross_is_antisymmetric(q, r, p);
    lemma_cross_is_antisymmetric(r, p, q);
}

/// On which side of the circle through three points a fourth lies does not
/// depend on the order in which the three are named.
#[verifier::rlimit(50)]
pub proof fn lemma_circle_side_ignores_order(a: Point, b: Point, c: Point, d: Point)
    requires
        cross(a, b, c) != 0,
    ensures
        circle_side(b, c, a, d) == circle_side(a, b, c, d),
        circle_side(b, a, c, d) == circle_side(a, b, c, d),
{
    lemma_in_circle_by_sides(a, b, c, d);
    lemma_in_circle_by_sides(b, c, a, d);
    lemma_in_circle_by_sides(b, a, c, d);
    lemma_cross_is_antisymmetric(a, b, c);
    lemma_cross_is_antisymmetric(a, b, d);
    lemma_cross_is_antisymmetric(b, c, d);
    lemma_cross_is_antisymmetric(c, a, d);
    let la = distance2(a, d.x as int, d.y as int);
    let lb = distance2(b, d.x as int, d.y as int);
    let lc = distance2(c, d.x as int, d.y as int);
    assert(lb * cross(c, a, d) + lc * cross(a, b, d) + la * cross(b, c, d) == la * cross(b, c, d)
        + lb * cross(c, a, d) + lc * cross(a, b, d));
    assert(lb * cross(a, c, d) == -(lb * cross(c, a, d))) by (nonlinear_arith)
        requires
            cross(a, c, d) == -cross(c, a, d),
    ;
    assert(la * cross(c, b, d) == -(la * cross(b, c, d))) by (nonlinear_arith)
        requires
            cross(c, b, d) == -cross(b, c, d),
    ;
    assert(lc * cross(b, a, d) == -(lc * cross(a, b, d))) by (nonlinear_arith)
        requires
            cross(b, a, d) == -cross(a, b, d),
    ;
}

/// A point of the closed triangle `a b c` that is none of its vertices lies
/// strictly inside the circle through them.
#[verifier::rlimit(50)]
pub proof fn lemma_triangle_is_inside_its_circle(a: Point, b: Point, c: Point, d: Point)
    requires
        cross(a, b, c) != 0,
        in_closed_triangle(a, b, c, d),
        d != a,
        d != b,
        d != c,
    ensures
        circle_side(a, b, c, d) > 0,
{
    lemma_in_circle_by_sides(a, b, c, d);
    let la = distance2(a, d.x as int, d.y as int);
    let lb = distance2(b, d.x as int, d.y as int);
    let lc = distance2(c, d.x as int, d.y as int);
    lemma_distance_is_positive(a, d);
    lemma_distance_is_positive(b, d);
    lemma_distance_is_positive(c, d);
    let ta = cross(b, c, d);
    let tb = cross(c, a, d);
    let tc = cross(a, b, d);
    if cross(a, b, c) > 0 {
        assert(la * ta >= 0 && (ta > 0 ==> la * ta > 0)) by (nonlinear_arith)
            requires
                la > 0,
                ta >= 0,
        ;
        assert(lb * tb >= 0 && (tb > 0 ==> lb * tb > 0)) by (nonlinear_arith)
            requires
                lb > 0,
                tb >= 0,
        ;
        assert(lc * tc >= 0 && (tc > 0 ==> lc * tc > 0)) by (nonlinear_arith)
            requires
                lc > 0,
                tc >= 0,
        ;
    } else {
        assert(la * ta <= 0 && (ta < 0 ==> la * ta < 0)) by (nonlinear_arith)
            requires
                la > 0,
                ta <= 0,
        ;
        assert(lb * tb <= 0 && (tb < 0 ==> lb * tb < 0)) by (nonlinear_arith)
            requires
                lb > 0,
                tb <= 0,
        ;
        assert(lc * tc <= 0 && (tc < 0 ==> lc * tc < 0)) by (nonlinear_arith)
            requires
                lc > 0,
                tc <= 0,
        ;
    }
}

/// Two different points have a positive distance.
proof fn lemma_distance_is_positive(p: Point, q: Point)
    requires
        p != q,
    ensures
        distance2(p, q.x as int, q.y as int) > 0,
{
    let dx = p.x - q.x;
    let dy = p.y - q.y;
    assert(dx * dx + dy * dy > 0) by (nonlinear_arith)
        requires
            dx != 0 || dy != 0,
    ;
}

/// Computes `cross(p, q, r)`.
pub fn orient(p: Point, q: Point, r: Point) -> (s: i128)
    ensures
        s == cross(p, q, r),
{
    let ux: i128 = q.x as i128 - p.x as i128;
    let uy: i128 = q.y as i128 - p.y as i128;
    let vx: i128 = r.x as i128 - p.x as i128;
    let vy: i128 = r.y as i128 - p.y as i128;
    proof {
        lemma_product_bound(ux as int, vy as int, 0x1_0000_0000, 0x1_0000_0000);
        lemma_product_bound(uy as int, vx as int, 0x1_0000_0000, 0x1_0000_0000);
    }
    ux * vy - uy * vx
}

/// Computes `in_circle_det(a, b, c, d)` for lattice points.
#[verifier::rlimit(50)]
pub fn in_circle(a: Point, b: Point, c: Point, d: Point) -> (s: i128)
    requires
        a.on_lattice(),
        b.on_lattice(),
        c.on_lattice(),
        d.on_lattice(),
    ensures
        s == in_circle_det(a, b, c, d),
{
    let adx: i128 = a.x as i128 - d.x as i128;
    let ady: i128 = a.y as i128 - d.y as i128;
    let bdx: i128 = b.x as i128 - d.x as i128;
    let bdy: i128 = b.y as i128 - d.y as i128;
    let cdx: i128 = c.x as i128 - d.x as i128;
    let cdy: i128 = c.y as i128 - d.y as i128;
    let ghost e: int = 0x4000_0000;
    let ghost e2: int = 0x1000_0000_0000_0000;
    proof {
        lemma_product_bound(adx as int, adx as int, e, e);
        lemma_product_bound(ady as int, ady as int, e, e);
        lemma_product_bound(bdx as int, bdx as int, e, e);
        lemma_product_bound(bdy as int, bdy as int, e, e);
        lemma_product_bound(cdx as int, cdx as int, e, e);
        lemma_product_bound(cdy as int, cdy as int, e, e);
        lemma_product_bound(bdx as int, cdy as int, e, e);
        lemma_product_bound(bdy as int, cdx as int, e, e);
        lemma_product_bound(cdx as int, ady as int, e, e);
        lemma_product_bound(cdy as int, adx as int, e, e);
        lemma_product_bound(adx as int, bdy as int, e, e);
        lemma_product_bound(ady as int, bdx as int, e, e);
    }
    let alift: i128 = adx * adx + ady * ady;
    let blift: i128 = bdx * bdx + bdy * bdy;
    let clift: i128 = cdx * cdx + cdy * cdy;
    let bc: i128 = bdx * cdy - bdy * cdx;
    let ca: i128 = cdx * ady - cdy * adx;
    let ab: i128 = adx * bdy - ady * bdx;
    proof {
        lemma_product_bound(alift as int, bc as int, 2 * e2, 2 * e2);
        lemma_product_bound(blift as int, ca as int, 2 * e2, 2 * e2);
        lemma_product_bound(clift as int, ab as int, 2 * e2, 2 * e2);
    }
    alift * bc + blift * ca + clift * ab
}

} // verus!
