//! Delaunay triangulation of lattice points.
//!
//! The triangulation is defined point-wise: a triple of indices is a triangle
//! exactly when no point lies strictly inside its circumcircle and the points
//! on that circle respect the tie-break below.  `build` enumerates the triples
//! in lexicographic order and keeps those that qualify, so its cost grows with
//! the cube of the number of points times the early-exit scan of each triple.
//!
//! The triangles cover the convex hull of the points without gap or overlap;
//! `build` states that their areas add up to the area of the hull.
//!
//! Tie-break.  Of several coincident points only the one with the lowest index
//! is a vertex.  Points that share an empty circle are joined as if inserted
//! in index order: a triangle `a < b < c` on such a circle is kept when every
//! other vertex on the circle with an index below `c` lies across the chord
//! `a b` from `c`.

use vstd::prelude::*;
use crate::error::MeshError;
use crate::hull::{hull_area2, lemma_some_triangle_exists, lemma_triangles_cover_the_hull};
use crate::perturb::{bound, lemma_cross_is_bounded};
use crate::tiling::{area2_of_first, total_area2};
use crate::geometry::{
    all_on_lattice,
    circle_side,
    cross,
    distance2,
    in_circle,
    in_circle_det,
    in_closed_triangle,
    lemma_cross_repeated,
    lemma_in_circle_by_sides,
    lemma_triangle_is_inside_its_circle,
    opposite_sides,
    orient,
    Point,
};

verus! {

/// A triangle, as the indices of its vertices in the point sequence.
#[derive(Clone, Copy, Debug, PartialEq, Eq, Structural)]
pub struct Triangle {
    pub a: usize,
    pub b: usize,
    pub c: usize,
}

/// Point `m` does not rule out the triangle `a b c`.
pub open spec fn admits(p: Seq<Point>, a: int, b: int, c: int, m: int) -> bool {
    if p[m] == p[a] {
        a <= m
    } else if p[m] == p[b] {
        b <= m
    } else if p[m] == p[c] {
        c <= m
    } else {
        let side = circle_side(p[a], p[b], p[c], p[m]);
        side < 0 || (side == 0 && (c < m || opposite_sides(p[a], p[b], p[c], p[m])))
    }
}

/// The triple `a < b < c` is a triangle of the Delaunay triangulation of `p`.
pub open spec fn is_delaunay(p: Seq<Point>, a: int, b: int, c: int) -> bool {
    &&& 0 <= a < b < c < p.len()
    &&& cross(p[a], p[b], p[c]) != 0
    &&& forall|m: int| 0 <= m < p.len() ==> #[trigger] admits(p, a, b, c, m)
}

/// `s` comes before `t` in the lexicographic order of index triples.
pub open spec fn precedes(s: Triangle, t: Triangle) -> bool {
    s.a < t.a || (s.a == t.a && (s.b < t.b || (s.b == t.b && s.c < t.c)))
}

/// `t` is in strict lexicographic order.
pub open spec fn is_sorted(t: Seq<Triangle>) -> bool {
    forall|x: int, y: int| 0 <= x < y < t.len() ==> precedes(#[trigger] t[x], #[trigger] t[y])
}

/// `t` lists the Delaunay triangles of `p`, each once, in lexicographic order.
pub open spec fn triangulates(p: Seq<Point>, t: Seq<Triangle>) -> bool {
    &&& is_sorted(t)
    &&& forall|x: int|
        0 <= x < t.len() ==> is_delaunay(
            p,
            (#[trigger] t[x]).a as int,
            t[x].b as int,
            t[x].c as int,
        )
    &&& forall|s: Triangle| #[trigger]
        is_delaunay(p, s.a as int, s.b as int, s.c as int) ==> t.contains(s)
}

/// No three points of `p` span a triangle of positive area.
pub open spec fn all_collinear(p: Seq<Point>) -> bool {
    forall|i: int, j: int, k: int|
        0 <= i < p.len() && 0 <= j < p.len() && 0 <= k < p.len() ==> #[trigger] cross(
            p[i],
            p[j],
            p[k],
        ) == 0
}

/// The vertices of `t` are three different points of `p`.
pub open spec fn has_distinct_vertices(p: Seq<Point>, t: Triangle) -> bool {
    &&& t.a < p.len() && t.b < p.len() && t.c < p.len()
    &&& t.a != t.b && t.b != t.c && t.a != t.c
    &&& p[t.a as int] != p[t.b as int]
    &&& p[t.b as int] != p[t.c as int]
    &&& p[t.a as int] != p[t.c as int]
}

/// Every point of `p` equals `u` or `v`: at most two points are distinct.
pub open spec fn at_most_two_distinct(p: Seq<Point>, u: Point, v: Point) -> bool {
    forall|i: int| 0 <= i < p.len() ==> #[trigger] p[i] == u || p[i] == v
}

/// Three points on the line through the origin with direction `(dx, dy)` are
/// collinear.
#[verifier::rlimit(50)]
proof fn lemma_three_on_a_line(
    dx: int,
    dy: int,
    ux: int,
    uy: int,
    vx: int,
    vy: int,
    wx: int,
    wy: int,
)
    requires
        dx != 0 || dy != 0,
        dx * uy - dy * ux == 0,
        dx * vy - dy * vx == 0,
        dx * wy - dy * wx == 0,
    ensures
        (vx - ux) * (wy - uy) - (vy - uy) * (wx - ux) == 0,
{
    let ax = vx - ux;
    let ay = vy - uy;
    let bx = wx - ux;
    let by = wy - uy;
    let area = ax * by - ay * bx;
    assert(dx * ay - dy * ax == 0) by (nonlinear_arith)
        requires
            dx * uy - dy * ux == 0,
            dx * vy - dy * vx == 0,
            ax == vx - ux,
            ay == vy - uy,
    ;
    assert(dx * by - dy * bx == 0) by (nonlinear_arith)
        requires
            dx * uy - dy * ux == 0,
            dx * wy - dy * wx == 0,
            bx == wx - ux,
            by == wy - uy,
    ;
    assert(dx * area == ax * (dx * by - dy * bx) - bx * (dx * ay - dy * ax)) by (nonlinear_arith)
        requires
            area == ax * by - ay * bx,
    ;
    assert(dy * area == ay * (dx * by - dy * bx) - by * (dx * ay - dy * ax)) by (nonlinear_arith)
        requires
            area == ax * by - ay * bx,
    ;
    assert(area == 0) by (nonlinear_arith)
        requires
            dx != 0 || dy != 0,
            dx * area == ax * (dx * by - dy * bx) - bx * (dx * ay - dy * ax),
            dy * area == ay * (dx * by - dy * bx) - by * (dx * ay - dy * ax),
            dx * ay - dy * ax == 0,
            dx * by - dy * bx == 0,
    ;
}

/// Points that all lie on the line through two distinct points `o` and `e`
/// are collinear.
pub proof fn lemma_line_is_collinear(p: Seq<Point>, o: Point, e: Point)
    requires
        o != e,
        forall|m: int| 0 <= m < p.len() ==> #[trigger] cross(o, e, p[m]) == 0,
    ensures
        all_collinear(p),
{
    assert forall|i: int, j: int, k: int|
        0 <= i < p.len() && 0 <= j < p.len() && 0 <= k < p.len() implies #[trigger] cross(
        p[i],
        p[j],
        p[k],
    ) == 0 by {
        assert(cross(o, e, p[i]) == 0);
        assert(cross(o, e, p[j]) == 0);
        assert(cross(o, e, p[k]) == 0);
        lemma_three_on_a_line(
            e.x - o.x,
            e.y - o.y,
            p[i].x - o.x,
            p[i].y - o.y,
            p[j].x - o.x,
            p[j].y - o.y,
            p[k].x - o.x,
            p[k].y - o.y,
        );
    }
}

/// The vertices of a Delaunay triangle are three different points.
pub proof fn lemma_vertices_are_distinct(p: Seq<Point>, a: int, b: int, c: int)
    requires
        is_delaunay(p, a, b, c),
    ensures
        a != b && b != c && a != c,
        p[a] != p[b] && p[b] != p[c] && p[a] != p[c],
{
    lemma_cross_repeated(p[a], p[c]);
    lemma_cross_repeated(p[b], p[a]);
    lemma_cross_repeated(p[a], p[b]);
}

/// A point that is one of `a`, `b`, `c` lies on the circle through them.
pub proof fn lemma_vertex_is_on_circle(a: Point, b: Point, c: Point)
    ensures
        in_circle_det(a, b, c, a) == 0,
        in_circle_det(a, b, c, b) == 0,
        in_circle_det(a, b, c, c) == 0,
{
    lemma_vertex_weighs_nothing(a, b, c, a);
    lemma_vertex_weighs_nothing(a, b, c, b);
    lemma_vertex_weighs_nothing(a, b, c, c);
}

#[verifier::rlimit(50)]
proof fn lemma_vertex_weighs_nothing(a: Point, b: Point, c: Point, d: Point)
    requires
        d == a || d == b || d == c,
    ensures
        in_circle_det(a, b, c, d) == 0,
{
    lemma_in_circle_by_sides(a, b, c, d);
    lemma_cross_repeated(a, b);
    lemma_cross_repeated(b, c);
    lemma_cross_repeated(c, a);
    lemma_cross_repeated(b, a);
    lemma_cross_repeated(c, b);
    lemma_cross_repeated(a, c);
    let la = distance2(a, d.x as int, d.y as int);
    let lb = distance2(b, d.x as int, d.y as int);
    let lc = distance2(c, d.x as int, d.y as int);
    let z = d.x - d.x;
    assert(z * z + z * z == 0) by (nonlinear_arith)
        requires
            z == 0,
    ;
    assert(la * cross(b, c, d) == 0 && lb * cross(c, a, d) == 0 && lc * cross(a, b, d) == 0)
        by (nonlinear_arith)
        requires
            la == 0 || cross(b, c, d) == 0,
            lb == 0 || cross(c, a, d) == 0,
            lc == 0 || cross(a, b, d) == 0,
    ;
}

/// The circumcircle of a Delaunay triangle is empty: no point of the input
/// lies strictly inside it.
pub proof fn lemma_circumcircle_is_empty(p: Seq<Point>, a: int, b: int, c: int, m: int)
    requires
        is_delaunay(p, a, b, c),
        0 <= m < p.len(),
    ensures
        circle_side(p[a], p[b], p[c], p[m]) <= 0,
{
    assert(admits(p, a, b, c, m));
    lemma_vertex_is_on_circle(p[a], p[b], p[c]);
}

/// A Delaunay triangle holds no point of the input but its vertices, neither
/// inside it nor on its sides.
pub proof fn lemma_triangle_holds_no_other_point(p: Seq<Point>, a: int, b: int, c: int, m: int)
    requires
        is_delaunay(p, a, b, c),
        0 <= m < p.len(),
        p[m] != p[a],
        p[m] != p[b],
        p[m] != p[c],
    ensures
        !in_closed_triangle(p[a], p[b], p[c], p[m]),
{
    lemma_circumcircle_is_empty(p, a, b, c, m);
    if in_closed_triangle(p[a], p[b], p[c], p[m]) {
        lemma_triangle_is_inside_its_circle(p[a], p[b], p[c], p[m]);
    }
}

/// The points have no ties: no two coincide, and none lies on the circle
/// through three others.
pub open spec fn has_no_ties(p: Seq<Point>) -> bool {
    &&& forall|i: int, j: int| 0 <= i < j < p.len() ==> #[trigger] p[i] != #[trigger] p[j]
    &&& forall|a: int, b: int, c: int, m: int|
        0 <= a < p.len() && 0 <= b < p.len() && 0 <= c < p.len() && 0 <= m < p.len() && m != a
            && m != b && m != c && cross(p[a], p[b], p[c]) != 0 ==> #[trigger] in_circle_det(
            p[a],
            p[b],
            p[c],
            p[m],
        ) != 0
}

/// Without ties the order of the points is immaterial: three points make a
/// triangle exactly when they are not collinear and every other point lies
/// strictly outside the circle through them.
pub proof fn lemma_without_ties_the_order_is_immaterial(p: Seq<Point>, a: int, b: int, c: int)
    requires
        has_no_ties(p),
        0 <= a < b < c < p.len(),
    ensures
        is_delaunay(p, a, b, c) <==> cross(p[a], p[b], p[c]) != 0 && forall|m: int|
            0 <= m < p.len() && m != a && m != b && m != c ==> #[trigger] circle_side(
                p[a],
                p[b],
                p[c],
                p[m],
            ) < 0,
{
    if cross(p[a], p[b], p[c]) != 0 {
        if is_delaunay(p, a, b, c) {
            assert forall|m: int|
                0 <= m < p.len() && m != a && m != b && m != c implies #[trigger] circle_side(
                p[a],
                p[b],
                p[c],
                p[m],
            ) < 0 by {
                assert(admits(p, a, b, c, m));
                assert(in_circle_det(p[a], p[b], p[c], p[m]) != 0);
            }
        }
        if forall|m: int|
            0 <= m < p.len() && m != a && m != b && m != c ==> #[trigger] circle_side(
                p[a],
                p[b],
                p[c],
                p[m],
            ) < 0 {
            assert forall|m: int| 0 <= m < p.len() implies #[trigger] admits(p, a, b, c, m) by {
                if m != a && m != b && m != c {
                    assert(circle_side(p[a], p[b], p[c], p[m]) < 0);
                }
            }
        }
    }
}

/// With at most two distinct points, no three span a triangle.
pub proof fn lemma_two_distinct_points_are_collinear(p: Seq<Point>, u: Point, v: Point)
    requires
        at_most_two_distinct(p, u, v),
    ensures
        all_collinear(p),
{
    assert forall|i: int, j: int, k: int|
        0 <= i < p.len() && 0 <= j < p.len() && 0 <= k < p.len() implies #[trigger] cross(
        p[i],
        p[j],
        p[k],
    ) == 0 by {
        lemma_cross_repeated(u, v);
        lemma_cross_repeated(v, u);
        lemma_cross_repeated(u, u);
        lemma_cross_repeated(v, v);
    }
}

/// Fewer than three points span no triangle.
pub proof fn lemma_under_three_points_are_collinear(p: Seq<Point>)
    requires
        p.len() < 3,
    ensures
        all_collinear(p),
{
    if p.len() == 0 {
    } else {
        let u = p[0];
        let v = p[p.len() - 1];
        lemma_two_distinct_points_are_collinear(p, u, v);
    }
}

/// Every triangle of a triangulation has three different points of the input
/// as its vertices.
pub proof fn lemma_triangles_have_distinct_vertices(p: Seq<Point>, t: Seq<Triangle>)
    requires
        triangulates(p, t),
    ensures
        forall|x: int| 0 <= x < t.len() ==> has_distinct_vertices(p, #[trigger] t[x]),
{
    assert forall|x: int| 0 <= x < t.len() implies has_distinct_vertices(p, #[trigger] t[x]) by {
        lemma_vertices_are_distinct(p, t[x].a as int, t[x].b as int, t[x].c as int);
    }
}

/// Two lists in strict lexicographic order with the same elements are equal.
pub proof fn lemma_sorted_lists_agree(s: Seq<Triangle>, t: Seq<Triangle>)
    requires
        is_sorted(s),
        is_sorted(t),
        forall|x: Triangle| s.contains(x) <==> t.contains(x),
    ensures
        s == t,
    decreases s.len(),
{
    if s.len() == 0 {
        if t.len() > 0 {
            assert(t.contains(t[0]));
        }
        assert(s =~= t);
    } else {
        let top = s[s.len() - 1];
        assert(s.contains(top));
        let w = choose|w: int| 0 <= w < t.len() && t[w] == top;
        // `top` is the last element of `t` as well: a later one would be in
        // `s`, after its last element.
        if w < t.len() - 1 {
            let later = t[t.len() - 1];
            assert(precedes(t[w], later));
            assert(t.contains(later));
            let v = choose|v: int| 0 <= v < s.len() && s[v] == later;
            if v < s.len() - 1 {
                assert(precedes(s[v], s[s.len() - 1]));
            }
        }
        let s0 = s.drop_last();
        let t0 = t.drop_last();
        assert forall|x: Triangle| s0.contains(x) <==> t0.contains(x) by {
            if s0.contains(x) {
                let i = choose|i: int| 0 <= i < s0.len() && s0[i] == x;
                assert(precedes(s[i], s[s.len() - 1]));
                assert(s.contains(x));
                let j = choose|j: int| 0 <= j < t.len() && t[j] == x;
                assert(t0[j] == x);
            }
            if t0.contains(x) {
                let i = choose|i: int| 0 <= i < t0.len() && t0[i] == x;
                assert(precedes(t[i], t[t.len() - 1]));
                assert(t.contains(x));
                let j = choose|j: int| 0 <= j < s.len() && s[j] == x;
                assert(s0[j] == x);
            }
        }
        assert(is_sorted(s0)) by {
            assert forall|x: int, y: int| 0 <= x < y < s0.len() implies precedes(
                #[trigger] s0[x],
                #[trigger] s0[y],
            ) by {
                assert(s0[x] == s[x] && s0[y] == s[y]);
            }
        }
        assert(is_sorted(t0)) by {
            assert forall|x: int, y: int| 0 <= x < y < t0.len() implies precedes(
                #[trigger] t0[x],
                #[trigger] t0[y],
            ) by {
                assert(t0[x] == t[x] && t0[y] == t[y]);
            }
        }
        lemma_sorted_lists_agree(s0, t0);
        assert(s =~= s0.push(top));
        assert(t =~= t0.push(top));
    }
}

/// The points determine their triangulation: the tie-break leaves no choice.
pub proof fn lemma_triangulation_is_unique(p: Seq<Point>, s: Seq<Triangle>, t: Seq<Triangle>)
    requires
        triangulates(p, s),
        triangulates(p, t),
    ensures
        s == t,
{
    assert forall|x: Triangle| s.contains(x) <==> t.contains(x) by {
        if s.contains(x) {
            let i = choose|i: int| 0 <= i < s.len() && s[i] == x;
            assert(is_delaunay(p, s[i].a as int, s[i].b as int, s[i].c as int));
        }
        if t.contains(x) {
            let i = choose|i: int| 0 <= i < t.len() && t[i] == x;
            assert(is_delaunay(p, t[i].a as int, t[i].b as int, t[i].c as int));
        }
    }
    lemma_sorted_lists_agree(s, t);
}

/// Decides whether three of the points span a triangle.
pub fn spans_triangle(points: &Vec<Point>) -> (b: bool)
    ensures
        b == !all_collinear(points@),
{
    let n = points.len();
    if n == 0 {
        return false;
    }
    let origin = points[0];
    let mut j: usize = 1;
    while j < n && points[j] == origin
        invariant
            1 <= j <= n,
            n == points.len(),
            origin == points[0],
            forall|x: int| 0 <= x < j ==> #[trigger] points[x] == origin,
        decreases n - j,
    {
        j += 1;
    }
    if j == n {
        proof {
            lemma_two_distinct_points_are_collinear(points@, origin, origin);
        }
        return false;
    }
    let other = points[j];
    let mut m: usize = 0;
    while m < n
        invariant
            m <= n,
            n == points.len(),
            j < n,
            origin == points[0],
            other == points[j as int],
            forall|x: int| 0 <= x < m ==> #[trigger] cross(origin, other, points[x]) == 0,
        decreases n - m,
    {
        if orient(origin, other, points[m]) != 0 {
            assert(cross(points[0], points[j as int], points[m as int]) != 0);
            return true;
        }
        m += 1;
    }
    proof {
        lemma_line_is_collinear(points@, origin, other);
    }
    false
}

/// Decides `admits` for one point.
fn admits_point(points: &Vec<Point>, a: usize, b: usize, c: usize, m: usize, turn: i128) -> (ok:
    bool)
    requires
        all_on_lattice(points@),
        a < points.len(),
        b < points.len(),
        c < points.len(),
        m < points.len(),
        turn == cross(points[a as int], points[b as int], points[c as int]),
    ensures
        ok == admits(points@, a as int, b as int, c as int, m as int),
{
    let pa = points[a];
    let pb = points[b];
    let pc = points[c];
    let pm = points[m];
    if pm == pa {
        a <= m
    } else if pm == pb {
        b <= m
    } else if pm == pc {
        c <= m
    } else {
        let det = in_circle(pa, pb, pc, pm);
        let inside = if turn >= 0 {
            det > 0
        } else {
            det < 0
        };
        if inside {
            false
        } else if det != 0 {
            true
        } else if c < m {
            true
        } else {
            let far = orient(pa, pb, pm);
            (turn > 0 && far < 0) || (turn < 0 && far > 0)
        }
    }
}

/// Decides `is_delaunay` for one triple.
fn is_delaunay_triple(points: &Vec<Point>, a: usize, b: usize, c: usize) -> (ok: bool)
    requires
        all_on_lattice(points@),
        a < b < c < points.len(),
    ensures
        ok == is_delaunay(points@, a as int, b as int, c as int),
{
    let turn = orient(points[a], points[b], points[c]);
    if turn == 0 {
        return false;
    }
    let n = points.len();
    let mut m: usize = 0;
    while m < n
        invariant
            m <= n,
            n == points.len(),
            all_on_lattice(points@),
            a < b < c < points.len(),
            turn == cross(points[a as int], points[b as int], points[c as int]),
            forall|x: int| 0 <= x < m ==> #[trigger] admits(points@, a as int, b as int, c as int, x),
        decreases n - m,
    {
        if !admits_point(points, a, b, c, m, turn) {
            return false;
        }
        m += 1;
    }
    true
}

/// `t` is at a position before `(i, j, k)` in the enumeration of triples.
spec fn before(t: Triangle, i: int, j: int, k: int) -> bool {
    t.a < i || (t.a == i && (t.b < j || (t.b == j && t.c < k)))
}

/// `out` holds, in order, the Delaunay triangles before position `(i, j, k)`.
spec fn collected(p: Seq<Point>, out: Seq<Triangle>, i: int, j: int, k: int) -> bool {
    &&& forall|x: int, y: int|
        0 <= x < y < out.len() ==> precedes(#[trigger] out[x], #[trigger] out[y])
    &&& forall|x: int|
        0 <= x < out.len() ==> is_delaunay(
            p,
            (#[trigger] out[x]).a as int,
            out[x].b as int,
            out[x].c as int,
        ) && before(out[x], i, j, k)
    &&& forall|s: Triangle| #[trigger]
        is_delaunay(p, s.a as int, s.b as int, s.c as int) && before(s, i, j, k) ==> out.contains(
            s,
        )
}

proof fn lemma_collected_push(p: Seq<Point>, out: Seq<Triangle>, t: Triangle)
    requires
        collected(p, out, t.a as int, t.b as int, t.c as int),
        is_delaunay(p, t.a as int, t.b as int, t.c as int),
    ensures
        collected(p, out.push(t), t.a as int, t.b as int, t.c + 1),
{
    let grown = out.push(t);
    assert forall|s: Triangle| #[trigger]
        is_delaunay(p, s.a as int, s.b as int, s.c as int) && before(
            s,
            t.a as int,
            t.b as int,
            t.c + 1,
        ) implies grown.contains(s) by {
        if before(s, t.a as int, t.b as int, t.c as int) {
            let w = choose|w: int| 0 <= w < out.len() && out[w] == s;
            assert(grown[w] == s);
        } else {
            assert(s == t);
            assert(grown[out.len() as int] == s);
        }
    }
}

proof fn lemma_collected_skip(p: Seq<Point>, out: Seq<Triangle>, t: Triangle)
    requires
        collected(p, out, t.a as int, t.b as int, t.c as int),
        !is_delaunay(p, t.a as int, t.b as int, t.c as int),
    ensures
        collected(p, out, t.a as int, t.b as int, t.c + 1),
{
}

/// A Delaunay triangulation together with the points it was built from.
#[derive(Debug)]
pub struct Triangulation {
    points: Vec<Point>,
    triangles: Vec<Triangle>,
}

/// The mathematical content of a `Triangulation`.
pub struct TriangulationView {
    pub points: Seq<Point>,
    pub triangles: Seq<Triangle>,
}

impl View for Triangulation {
    type V = TriangulationView;

    closed spec fn view(&self) -> TriangulationView {
        TriangulationView { points: self.points@, triangles: self.triangles@ }
    }
}

impl Triangulation {
    #[verifier::type_invariant]
    spec fn well_formed(self) -> bool {
        all_on_lattice(self.points@) && triangulates(self.points@, self.triangles@)
    }

    /// Builds the Delaunay triangulation of `points`.
    ///
    /// It fails with `DegenerateInput` exactly when the points span no
    /// triangle: when all of them are collinear, which includes every input
    /// with fewer than three distinct points.  Otherwise there is at least
    /// one triangle, and the triangles cover the convex hull of the points.
    pub fn build(points: Vec<Point>) -> (r: Result<Triangulation, MeshError>)
        requires
            all_on_lattice(points@),
        ensures
            r is Err <==> all_collinear(points@),
            r matches Err(e) ==> e == MeshError::DegenerateInput,
            r matches Ok(t) ==> {
                &&& t@.points == points@
                &&& triangulates(points@, t@.triangles)
                &&& forall|x: int|
                    0 <= x < t@.triangles.len() ==> has_distinct_vertices(
                        points@,
                        #[trigger] t@.triangles[x],
                    )
                &&& total_area2(points@, t@.triangles) == hull_area2(points@)
                &&& t@.triangles.len() > 0
            },
    {
        if !spans_triangle(&points) {
            return Err(MeshError::DegenerateInput);
        }
        let n = points.len();
        let mut out: Vec<Triangle> = Vec::new();
        let mut i: usize = 0;
        while i < n
            invariant
                i <= n,
                n == points.len(),
                all_on_lattice(points@),
                collected(points@, out@, i as int, 0, 0),
            decreases n - i,
        {
            let mut j: usize = i + 1;
            while j < n
                invariant
                    i < n,
                    i < j <= n,
                    n == points.len(),
                    all_on_lattice(points@),
                    collected(points@, out@, i as int, j as int, 0),
                decreases n - j,
            {
                let mut k: usize = j + 1;
                while k < n
                    invariant
                        i < j < n,
                        j < k <= n,
                        n == points.len(),
                        all_on_lattice(points@),
                        collected(points@, out@, i as int, j as int, k as int),
                    decreases n - k,
                {
                    let t = Triangle { a: i, b: j, c: k };
                    if is_delaunay_triple(&points, i, j, k) {
                        proof {
                            lemma_collected_push(points@, out@, t);
                        }
                        out.push(t);
                    } else {
                        proof {
                            lemma_collected_skip(points@, out@, t);
                        }
                    }
                    k += 1;
                }
                j += 1;
            }
            i += 1;
        }
        proof {
            lemma_triangles_have_distinct_vertices(points@, out@);
            lemma_triangles_cover_the_hull(points@, out@);
            lemma_some_triangle_exists(points@);
            let s = choose|s: Triangle| #[trigger]
                is_delaunay(points@, s.a as int, s.b as int, s.c as int);
            assert(out@.contains(s));
        }
        Ok(Triangulation { points, triangles: out })
    }

    /// The points the triangulation was built from.
    pub fn points(&self) -> (p: &Vec<Point>)
        ensures
            p@ == self@.points,
    {
        &self.points
    }

    /// The three vertices of triangle `i`.
    pub fn vertices(&self, i: usize) -> (v: (Point, Point, Point))
        requires
            i < self@.triangles.len(),
        ensures
            v.0 == self@.points[self@.triangles[i as int].a as int],
            v.1 == self@.points[self@.triangles[i as int].b as int],
            v.2 == self@.points[self@.triangles[i as int].c as int],
            v.0 != v.1 && v.1 != v.2 && v.0 != v.2,
    {
        proof {
            use_type_invariant(self);
            lemma_triangles_have_distinct_vertices(self.points@, self.triangles@);
        }
        let t = self.triangles[i];
        (self.points[t.a], self.points[t.b], self.points[t.c])
    }

    /// Twice the area that the triangles cover: twice the area of the convex
    /// hull of the points.
    pub fn area2(&self) -> (r: i128)
        ensures
            r == total_area2(self@.points, self@.triangles),
            r == hull_area2(self@.points),
    {
        let n = self.points.len();
        proof {
            use_type_invariant(self);
            assert(self.points@.len() == n);
            lemma_triangles_cover_the_hull(self.points@, self.triangles@);
        }
        let mut sum: i128 = 0;
        let mut i: usize = 0;
        while i < self.triangles.len()
            invariant
                i <= self.triangles.len(),
                all_on_lattice(self.points@),
                triangulates(self.points@, self.triangles@),
                sum == area2_of_first(self.points@, self.triangles@, i as int),
                0 <= sum <= i * bound(),
            decreases self.triangles.len() - i,
        {
            let t = self.triangles[i];
            proof {
                lemma_cross_is_bounded(
                    self.points@[t.a as int],
                    self.points@[t.b as int],
                    self.points@[t.c as int],
                );
                assert((i + 1) * bound() == i * bound() + bound()) by (nonlinear_arith);
                assert(i * bound() <= 0xffff_ffff_ffff_ffff * bound()) by (nonlinear_arith)
                    requires
                        0 <= i <= 0xffff_ffff_ffff_ffff,
                        bound() >= 0,
                ;
            }
            let twice = orient(self.points[t.a], self.points[t.b], self.points[t.c]);
            sum = sum + (if twice >= 0 {
                twice
            } else {
                -twice
            });
            i += 1;
        }
        sum
    }

    /// The triangles, in lexicographic order of their index triples.
    pub fn triangles(&self) -> (t: &Vec<Triangle>)
        ensures
            t@ == self@.triangles,
            triangulates(self@.points, t@),
    {
        proof {
            use_type_invariant(self);
        }
        &self.triangles
    }
}

} // verus!
