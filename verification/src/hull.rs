//! The convex hull of the points of a triangulation, and how the triangles
//! fit into it: they cover it, each of their sides inside it is shared by two
//! of them, and each side of the hull belongs to one.

use vstd::prelude::*;
use crate::geometry::{
    all_on_lattice,
    cross,
    distance2,
    lemma_cross_in_all_orders,
    lemma_cross_repeated,
    Point,
};
use crate::lifting::{dot, lemma_end_of_the_edge, lemma_pencil, lemma_two_products};
use crate::perturb::{
    heights,
    lemma_delaunay_is_regular,
    lemma_ends_of_the_edge,
    lemma_heights_are_generic,
    lemma_lean_on_the_line,
    lemma_steepness_decides,
};
use crate::sums::{lemma_rect_eq, rect_sum};
use crate::tiling::{
    has_apex,
    has_edge,
    has_left,
    is_apex,
    is_outer,
    is_regular,
    lean_of,
    left_of,
    lemma_apex_across,
    lemma_apex_is_unique,
    lemma_apex_makes_a_triangle,
    lemma_apex_needs_a_clear_edge,
    lemma_best_left,
    lemma_hull_edge_has_apex,
    lemma_on_the_line,
    lemma_regular_triangles_fill_the_outline,
    lemma_side_has_the_triangle_as_apex,
    lift,
    lists_regular,
    opposite,
    outer_weight,
    sorted,
    total_area2,
    weight,
};
use crate::triangulation::{
    all_collinear,
    is_delaunay,
    lemma_line_is_collinear,
    lemma_two_distinct_points_are_collinear,
    triangulates,
    Triangle,
};

verus! {

/// No point with a lower index coincides with point `i`.
pub open spec fn is_first(p: Seq<Point>, i: int) -> bool {
    forall|m: int| 0 <= m < i ==> #[trigger] p[m] != p[i]
}

/// The directed edge from `i` to `j` is a side of the convex hull, taken
/// counter-clockwise and between neighbours on the boundary: its ends are
/// different points, each under its first index; no point lies to its right;
/// and no point lies on it between its ends.
pub open spec fn is_hull_edge(p: Seq<Point>, i: int, j: int) -> bool {
    &&& 0 <= i < p.len()
    &&& 0 <= j < p.len()
    &&& p[i] != p[j]
    &&& is_first(p, i)
    &&& is_first(p, j)
    &&& forall|m: int| 0 <= m < p.len() ==> #[trigger] cross(p[i], p[j], p[m]) >= 0
    &&& forall|m: int|
        0 <= m < p.len() && cross(p[i], p[j], p[m]) == 0 ==> #[trigger] dot(p[m], p[i], p[j]) >= 0
}

/// The weight of the sides of the convex hull, and zero elsewhere.
pub open spec fn hull_weight(p: Seq<Point>) -> spec_fn(int, int) -> int {
    |i: int, j: int|
        if is_hull_edge(p, i, j) {
            weight(p, i, j)
        } else {
            0
        }
}

/// Twice the area of the convex hull of `p`: the weights of its sides added
/// up.
pub open spec fn hull_area2(p: Seq<Point>) -> int {
    rect_sum(hull_weight(p), p.len() as int, p.len() as int)
}

/// The outer edges of the lift by `heights` are the sides of the convex hull.
#[verifier::rlimit(50)]
proof fn lemma_outer_is_hull_edge(p: Seq<Point>, i: int, j: int)
    requires
        all_on_lattice(p),
        0 <= i < p.len(),
        0 <= j < p.len(),
    ensures
        is_outer(p, heights(p), i, j) <==> is_hull_edge(p, i, j),
{
    let h = heights(p);
    if p[i] != p[j] {
        lemma_cross_repeated(p[i], p[j]);
        lemma_cross_repeated(p[j], p[i]);
        assert(i != j);
        if is_outer(p, h, i, j) {
            assert forall|m: int| 0 <= m < p.len() implies #[trigger] cross(p[i], p[j], p[m])
                >= 0 by {
                lemma_cross_in_all_orders(p[i], p[j], p[m]);
                assert(!left_of(p, j, i, m));
            }
            assert forall|m: int|
                0 <= m < p.len() && cross(p[i], p[j], p[m]) == 0 implies #[trigger] dot(
                p[m],
                p[i],
                p[j],
            ) >= 0 by {
                if m != i && m != j {
                    assert(lean_of(p, h, i, j, m) > 0);
                    lemma_lean_on_the_line(p, i, j, m);
                    if p[m] == p[i] || p[m] == p[j] {
                        lemma_ends_of_the_edge(p[i], p[j], p[m]);
                    }
                } else {
                    lemma_ends_of_the_edge(p[i], p[j], p[m]);
                }
            }
            assert forall|m: int| 0 <= m < i implies #[trigger] p[m] != p[i] by {
                if p[m] == p[i] {
                    assert(cross(p[i], p[j], p[m]) == 0);
                    assert(lean_of(p, h, i, j, m) > 0);
                    lemma_lean_on_the_line(p, i, j, m);
                    lemma_ends_of_the_edge(p[i], p[j], p[m]);
                }
            }
            assert forall|m: int| 0 <= m < j implies #[trigger] p[m] != p[j] by {
                if p[m] == p[j] {
                    assert(cross(p[i], p[j], p[m]) == 0);
                    assert(lean_of(p, h, i, j, m) > 0);
                    lemma_lean_on_the_line(p, i, j, m);
                    lemma_ends_of_the_edge(p[i], p[j], p[m]);
                }
            }
        }
        if is_hull_edge(p, i, j) {
            assert forall|m: int|
                0 <= m < p.len() && m != i && m != j && cross(p[i], p[j], p[m])
                    == 0 implies #[trigger] lean_of(p, h, i, j, m) > 0 by {
                lemma_lean_on_the_line(p, i, j, m);
                assert(dot(p[m], p[i], p[j]) >= 0);
                if dot(p[m], p[i], p[j]) == 0 {
                    lemma_end_of_the_edge(p[i], p[j], p[m]);
                    if p[m] == p[i] {
                        if m < i {
                            assert(p[m] != p[i]);
                        }
                    } else {
                        if m < j {
                            assert(p[m] != p[j]);
                        }
                    }
                }
            }
            if has_left(p, j, i) {
                let m = choose|m: int| #[trigger] left_of(p, j, i, m);
                lemma_cross_in_all_orders(p[i], p[j], p[m]);
                assert(cross(p[i], p[j], p[m]) >= 0);
            }
        }
    }
}

/// The triangles of the triangulation cover the convex hull of the points:
/// their areas add up to the area of the hull.
pub proof fn lemma_triangles_cover_the_hull(p: Seq<Point>, t: Seq<Triangle>)
    requires
        p.len() <= usize::MAX,
        all_on_lattice(p),
        triangulates(p, t),
    ensures
        total_area2(p, t) == hull_area2(p),
{
    let h = heights(p);
    let n = p.len() as int;
    lemma_heights_are_generic(p);
    assert(lists_regular(p, h, t)) by {
        assert forall|x: int| 0 <= x < t.len() implies is_regular(p, h, #[trigger] t[x]) by {
            lemma_delaunay_is_regular(p, t[x]);
        }
        assert forall|s: Triangle| #[trigger] is_regular(p, h, s) implies t.contains(s) by {
            lemma_delaunay_is_regular(p, s);
        }
    }
    lemma_regular_triangles_fill_the_outline(p, h, t);
    assert forall|i: int, j: int| 0 <= i < n && 0 <= j < n implies #[trigger] outer_weight(p, h)(
        i,
        j,
    ) == hull_weight(p)(i, j) by {
        lemma_outer_is_hull_edge(p, i, j);
    }
    lemma_rect_eq(outer_weight(p, h), hull_weight(p), n, n);
}

/// A directed edge is a side of at most one triangle that lies to its left:
/// two triangles with a common side lie on different sides of it.
pub proof fn lemma_one_triangle_on_each_side(
    p: Seq<Point>,
    s: Triangle,
    t: Triangle,
    i: int,
    j: int,
)
    requires
        all_on_lattice(p),
        is_delaunay(p, s.a as int, s.b as int, s.c as int),
        is_delaunay(p, t.a as int, t.b as int, t.c as int),
        has_edge(p, s, i, j),
        has_edge(p, t, i, j),
    ensures
        s == t,
{
    let h = heights(p);
    lemma_delaunay_is_regular(p, s);
    lemma_delaunay_is_regular(p, t);
    lemma_side_has_the_triangle_as_apex(p, h, s, i, j);
    lemma_side_has_the_triangle_as_apex(p, h, t, i, j);
    lemma_apex_is_unique(p, h, i, j, opposite(s, i, j), opposite(t, i, j));
}

/// A side of a triangle that is not a side of the hull is a side of a second
/// triangle, which lies across it.
pub proof fn lemma_inner_side_is_shared(p: Seq<Point>, t: Triangle, i: int, j: int)
    requires
        p.len() <= usize::MAX,
        all_on_lattice(p),
        is_delaunay(p, t.a as int, t.b as int, t.c as int),
        has_edge(p, t, i, j),
        !is_hull_edge(p, i, j),
    ensures
        exists|s: Triangle| #[trigger]
            is_delaunay(p, s.a as int, s.b as int, s.c as int) && has_edge(p, s, j, i),
{
    let h = heights(p);
    lemma_heights_are_generic(p);
    lemma_delaunay_is_regular(p, t);
    lemma_side_has_the_triangle_as_apex(p, h, t, i, j);
    let c = opposite(t, i, j);
    assert(is_apex(p, h, i, j, c));
    lemma_apex_needs_a_clear_edge(p, h, i, j, c);
    lemma_outer_is_hull_edge(p, i, j);
    assert(has_left(p, j, i));
    lemma_apex_across(p, h, i, j);
    let d = choose|d: int| #[trigger] is_apex(p, h, j, i, d);
    lemma_apex_makes_a_triangle(p, h, j, i, d);
    let s = sorted(j, i, d);
    lemma_delaunay_is_regular(p, s);
    assert(is_delaunay(p, s.a as int, s.b as int, s.c as int) && has_edge(p, s, j, i));
}

/// Every side of the hull is a side of a triangle, unless the points span no
/// triangle at all.
pub proof fn lemma_hull_side_has_a_triangle(p: Seq<Point>, i: int, j: int)
    requires
        p.len() <= usize::MAX,
        all_on_lattice(p),
        is_hull_edge(p, i, j),
        !all_collinear(p),
    ensures
        exists|s: Triangle| #[trigger]
            is_delaunay(p, s.a as int, s.b as int, s.c as int) && has_edge(p, s, i, j),
{
    let h = heights(p);
    lemma_heights_are_generic(p);
    lemma_outer_is_hull_edge(p, i, j);
    if !has_left(p, i, j) {
        assert forall|m: int| 0 <= m < p.len() implies #[trigger] cross(p[i], p[j], p[m])
            == 0 by {
            assert(!left_of(p, i, j, m));
            assert(cross(p[i], p[j], p[m]) >= 0);
        }
        lemma_line_is_collinear(p, p[i], p[j]);
    }
    lemma_hull_edge_has_apex(p, h, i, j);
    let c = choose|c: int| #[trigger] is_apex(p, h, i, j, c);
    lemma_apex_makes_a_triangle(p, h, i, j, c);
    let s = sorted(i, j, c);
    lemma_delaunay_is_regular(p, s);
    assert(is_delaunay(p, s.a as int, s.b as int, s.c as int) && has_edge(p, s, i, j));
}

/// A point at least as far from `a` as `b` is, or at `a`, sees the edge
/// `a b` under no obtuse angle, and under a right angle only from its ends.
#[verifier::rlimit(50)]
proof fn lemma_no_nearer_sees_no_obtuse_angle(a: Point, b: Point, m: Point)
    requires
        a != b,
        m == a || distance2(m, a.x as int, a.y as int) >= distance2(b, a.x as int, a.y as int),
    ensures
        dot(m, a, b) >= 0,
        dot(m, a, b) == 0 ==> m == a || m == b,
{
    let dx = b.x - a.x;
    let dy = b.y - a.y;
    let ux = m.x - a.x;
    let uy = m.y - a.y;
    let dd = dx * dx + dy * dy;
    let uu = ux * ux + uy * uy;
    let ud = ux * dx + uy * dy;
    let du = dx * uy - dy * ux;
    lemma_ends_of_the_edge(a, b, m);
    if m != a {
        assert(dot(m, a, b) == uu - ud) by {
            assert(dot(m, a, b) == (0 - ux) * (dx - ux) + (0 - uy) * (dy - uy));
            assert((0 - ux) * (dx - ux) == ux * ux - ux * dx) by (nonlinear_arith);
            assert((0 - uy) * (dy - uy) == uy * uy - uy * dy) by (nonlinear_arith);
        }
        assert(distance2(m, a.x as int, a.y as int) == uu);
        assert(distance2(b, a.x as int, a.y as int) == dd);
        assert(dd > 0) by (nonlinear_arith)
            requires
                dd == dx * dx + dy * dy,
                dx != 0 || dy != 0,
        ;
        // (d . d)(u . u) - (u . d)(u . d) = (d x u)(d x u) >= 0.
        lemma_two_products(ux, uy, dx, dy, ux, uy);
        assert(du * du >= 0) by (nonlinear_arith);
        assert(dd * uu >= ud * ud);
        if ud > uu {
            assert(ud * ud > dd * uu) by (nonlinear_arith)
                requires
                    ud > uu,
                    uu >= dd,
                    dd > 0,
            ;
        }
        if ud == uu {
            assert(uu == dd) by (nonlinear_arith)
                requires
                    dd * uu >= uu * uu,
                    uu >= dd,
                    dd > 0,
            ;
            let wx = ux - dx;
            let wy = uy - dy;
            assert(wx * wx + wy * wy == uu - 2 * ud + dd) by (nonlinear_arith)
                requires
                    wx == ux - dx,
                    wy == uy - dy,
                    uu == ux * ux + uy * uy,
                    ud == ux * dx + uy * dy,
                    dd == dx * dx + dy * dy,
            ;
            assert(wx == 0 && wy == 0) by (nonlinear_arith)
                requires
                    wx * wx + wy * wy == 0,
            ;
        }
    }
}

/// The distance of point `m` from the first point, squared.
spec fn reach(p: Seq<Point>, m: int) -> int {
    distance2(p[m], p[0].x as int, p[0].y as int)
}

/// Among the first `k` points, the first of those nearest to the first point
/// but not at it, provided any of them is not at it.
proof fn lemma_nearest(p: Seq<Point>, k: int) -> (b: int)
    requires
        0 < k <= p.len(),
        exists|m: int| 0 <= m < k && #[trigger] p[m] != p[0],
    ensures
        0 <= b < k,
        p[b] != p[0],
        forall|m: int| 0 <= m < k && #[trigger] p[m] != p[0] ==> reach(p, m) >= reach(p, b),
        forall|m: int| 0 <= m < b && #[trigger] p[m] != p[0] ==> reach(p, m) > reach(p, b),
    decreases k,
{
    let last = k - 1;
    if exists|m: int| 0 <= m < last && #[trigger] p[m] != p[0] {
        let b0 = lemma_nearest(p, last);
        if p[last] != p[0] && reach(p, last) < reach(p, b0) {
            last
        } else {
            b0
        }
    } else {
        let w = choose|m: int| 0 <= m < k && #[trigger] p[m] != p[0];
        assert(w == last);
        last
    }
}

/// An edge between first occurrences that no point sees under an obtuse
/// angle, nor under a right angle but from its ends, has a triangle to its
/// left if it has a point to its left.
proof fn lemma_short_edge_has_apex(p: Seq<Point>, a: int, b: int)
    requires
        all_on_lattice(p),
        0 <= a < p.len(),
        0 <= b < p.len(),
        p[a] != p[b],
        is_first(p, a),
        is_first(p, b),
        forall|m: int| 0 <= m < p.len() ==> #[trigger] dot(p[m], p[a], p[b]) >= 0,
        forall|m: int|
            0 <= m < p.len() && #[trigger] dot(p[m], p[a], p[b]) == 0 ==> p[m] == p[a] || p[m]
                == p[b],
        has_left(p, a, b),
    ensures
        has_apex(p, heights(p), a, b),
{
    let h = heights(p);
    lemma_heights_are_generic(p);
    let w = choose|m: int| #[trigger] left_of(p, a, b, m);
    assert(left_of(p, a, b, w));
    let c = lemma_best_left(p, h, a, b, p.len() as int);
    lemma_cross_repeated(p[a], p[b]);
    lemma_cross_repeated(p[b], p[a]);
    assert(a != b && c != a && c != b);
    assert(p[c] != p[a] && p[c] != p[b]);
    assert(dot(p[c], p[a], p[b]) > 0);
    assert forall|m: int| 0 <= m < p.len() && m != a && m != b && m != c implies #[trigger] lift(
        p,
        h,
        a,
        b,
        c,
        m,
    ) < 0 by {
        assert(lift(p, h, a, b, c, m) != 0);
        assert(dot(p[m], p[a], p[b]) >= 0);
        if cross(p[a], p[b], p[m]) > 0 {
            assert(left_of(p, a, b, m));
        } else if cross(p[a], p[b], p[m]) == 0 {
            lemma_lean_on_the_line(p, a, b, m);
            lemma_on_the_line(p, h, a, b, c, m);
            if dot(p[m], p[a], p[b]) == 0 {
                if p[m] == p[a] {
                    if m < a {
                        assert(p[m] != p[a]);
                    }
                } else {
                    if m < b {
                        assert(p[m] != p[b]);
                    }
                }
            }
        } else {
            lemma_pencil(p[a], p[b], p[c], p[m]);
            let x = dot(p[c], p[a], p[b]);
            let z = dot(p[m], p[a], p[b]);
            let lc = cross(p[a], p[b], p[c]);
            let lm = cross(p[a], p[b], p[m]);
            assert(x * lm < 0 && z * lc >= 0) by (nonlinear_arith)
                requires
                    x > 0,
                    lm < 0,
                    z >= 0,
                    lc > 0,
            ;
            lemma_steepness_decides(p, a, b, c, m);
        }
    }
    assert(is_apex(p, h, a, b, c));
}

/// The inner product is the same for the two orders of its vectors.
proof fn lemma_dot_either_way(m: Point, a: Point, b: Point)
    ensures
        dot(m, b, a) == dot(m, a, b),
{
    assert((b.x - m.x) * (a.x - m.x) == (a.x - m.x) * (b.x - m.x)) by (nonlinear_arith);
    assert((b.y - m.y) * (a.y - m.y) == (a.y - m.y) * (b.y - m.y)) by (nonlinear_arith);
}

/// Points that span a triangle have a triangulation with at least one
/// triangle.
pub proof fn lemma_some_triangle_exists(p: Seq<Point>)
    requires
        p.len() <= usize::MAX,
        all_on_lattice(p),
        !all_collinear(p),
    ensures
        exists|s: Triangle| #[trigger] is_delaunay(p, s.a as int, s.b as int, s.c as int),
{
    let h = heights(p);
    if p.len() == 0 {
        assert(all_collinear(p));
    }
    if forall|m: int| 0 <= m < p.len() ==> #[trigger] p[m] == p[0] {
        lemma_two_distinct_points_are_collinear(p, p[0], p[0]);
    }
    let a = 0int;
    let b = lemma_nearest(p, p.len() as int);
    assert forall|m: int| 0 <= m < b implies #[trigger] p[m] != p[b] by {
        if p[m] == p[b] {
            assert(reach(p, m) > reach(p, b));
        }
    }
    assert forall|m: int| 0 <= m < p.len() implies #[trigger] dot(p[m], p[a], p[b]) >= 0 && (dot(
        p[m],
        p[a],
        p[b],
    ) == 0 ==> p[m] == p[a] || p[m] == p[b]) by {
        if p[m] != p[0] {
            assert(reach(p, m) >= reach(p, b));
        }
        lemma_no_nearer_sees_no_obtuse_angle(p[a], p[b], p[m]);
    }
    if forall|m: int| 0 <= m < p.len() ==> #[trigger] cross(p[a], p[b], p[m]) == 0 {
        lemma_line_is_collinear(p, p[a], p[b]);
    }
    let w = choose|m: int| 0 <= m < p.len() && #[trigger] cross(p[a], p[b], p[m]) != 0;
    lemma_cross_in_all_orders(p[a], p[b], p[w]);
    let (i, j) = if cross(p[a], p[b], p[w]) > 0 {
        (a, b)
    } else {
        (b, a)
    };
    assert(left_of(p, i, j, w));
    assert forall|m: int| 0 <= m < p.len() implies #[trigger] dot(p[m], p[i], p[j]) >= 0 && (dot(
        p[m],
        p[i],
        p[j],
    ) == 0 ==> p[m] == p[i] || p[m] == p[j]) by {
        lemma_dot_either_way(p[m], p[a], p[b]);
        assert(dot(p[m], p[a], p[b]) >= 0);
    }
    lemma_short_edge_has_apex(p, i, j);
    let c = choose|c: int| #[trigger] is_apex(p, h, i, j, c);
    lemma_apex_makes_a_triangle(p, h, i, j, c);
    let s = sorted(i, j, c);
    lemma_delaunay_is_regular(p, s);
    assert(is_delaunay(p, s.a as int, s.b as int, s.c as int));
}

} // verus!
