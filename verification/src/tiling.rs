//! The triangles of a triangulation cover the convex hull of its points.
//!
//! The proof is made for points lifted to heights, of which no four that
//! span a triangle in the plane lie in one plane of space.  A triangle is
//! then regular when every other lifted point lies above the plane through
//! its three.  Every directed edge with a regular triangle to its left has one
//! to its right as well, unless nothing lies to its right; so the sides of
//! the triangles cancel in pairs but for the sides of the hull.

use vstd::prelude::*;
use crate::geometry::{cross, lemma_cross_in_all_orders, lemma_cross_repeated, Point};
use crate::lifting::{
    dot,
    lean,
    lemma_lifted_det_reverses_with_the_apex,
    lemma_lifted_det_reverses_with_the_edge,
    lemma_lifted_det_turns,
    lemma_lifted_pencil,
    lifted_det,
};
use crate::sums::{
    cell,
    flip,
    lemma_rect_add,
    lemma_rect_eq,
    lemma_rect_flip,
    lemma_rect_of_cell,
    rect_sum,
};
use crate::triangulation::{is_sorted, precedes, Triangle};

verus! {

/// The orientation of the lifted points `a`, `b`, `c`, `d` of `p` with the
/// heights `h`.
pub open spec fn lift(p: Seq<Point>, h: Seq<int>, a: int, b: int, c: int, d: int) -> int {
    lifted_det(p[a], h[a], p[b], h[b], p[c], h[c], p[d], h[d])
}

/// The lean of the lifted point `x` against the lifted edge `a b`.
pub open spec fn lean_of(p: Seq<Point>, h: Seq<int>, a: int, b: int, x: int) -> int {
    lean(p[a], h[a], p[b], h[b], p[x], h[x])
}

/// No lifted point lies in the plane through three others that span a
/// triangle.
pub open spec fn is_generic(p: Seq<Point>, h: Seq<int>) -> bool {
    forall|a: int, b: int, c: int, m: int|
        0 <= a < p.len() && 0 <= b < p.len() && 0 <= c < p.len() && 0 <= m < p.len() && m != a
            && m != b && m != c && cross(p[a], p[b], p[c]) != 0 ==> #[trigger] lift(
            p,
            h,
            a,
            b,
            c,
            m,
        ) != 0
}

/// Point `m` lies to the left of the directed edge from `a` to `b`.
pub open spec fn left_of(p: Seq<Point>, a: int, b: int, m: int) -> bool {
    0 <= m < p.len() && cross(p[a], p[b], p[m]) > 0
}

/// Some point lies to the left of the directed edge from `a` to `b`.
pub open spec fn has_left(p: Seq<Point>, a: int, b: int) -> bool {
    exists|m: int| #[trigger] left_of(p, a, b, m)
}

/// Nothing blocks the edge `a b`: its ends differ, and every other point on
/// the line through them leans above it.
pub open spec fn is_clear(p: Seq<Point>, h: Seq<int>, a: int, b: int) -> bool {
    &&& 0 <= a < p.len()
    &&& 0 <= b < p.len()
    &&& p[a] != p[b]
    &&& forall|m: int|
        0 <= m < p.len() && m != a && m != b && cross(p[a], p[b], p[m]) == 0 ==> #[trigger] lean_of(
            p,
            h,
            a,
            b,
            m,
        ) > 0
}

/// `c` is the apex of the triangle to the left of the directed edge from `a`
/// to `b`: it lies to the left, and every other lifted point lies above the
/// plane through the three.
pub open spec fn is_apex(p: Seq<Point>, h: Seq<int>, a: int, b: int, c: int) -> bool {
    &&& 0 <= a < p.len()
    &&& 0 <= b < p.len()
    &&& left_of(p, a, b, c)
    &&& forall|m: int|
        0 <= m < p.len() && m != a && m != b && m != c ==> #[trigger] lift(p, h, a, b, c, m) < 0
}

/// The directed edge from `a` to `b` has a triangle to its left.
pub open spec fn has_apex(p: Seq<Point>, h: Seq<int>, a: int, b: int) -> bool {
    exists|c: int| #[trigger] is_apex(p, h, a, b, c)
}

/// The triangle `t` is regular: every other lifted point lies above the
/// plane through its three.
pub open spec fn is_regular(p: Seq<Point>, h: Seq<int>, t: Triangle) -> bool {
    &&& t.a < t.b < t.c < p.len()
    &&& cross(p[t.a as int], p[t.b as int], p[t.c as int]) != 0
    &&& forall|m: int|
        0 <= m < p.len() && m != t.a && m != t.b && m != t.c ==> (if cross(
            p[t.a as int],
            p[t.b as int],
            p[t.c as int],
        ) > 0 {
            #[trigger] lift(p, h, t.a as int, t.b as int, t.c as int, m) < 0
        } else {
            lift(p, h, t.a as int, t.b as int, t.c as int, m) > 0
        })
}

/// `t` lists the regular triangles, each once, in lexicographic order.
pub open spec fn lists_regular(p: Seq<Point>, h: Seq<int>, t: Seq<Triangle>) -> bool {
    &&& is_sorted(t)
    &&& forall|x: int| 0 <= x < t.len() ==> is_regular(p, h, #[trigger] t[x])
    &&& forall|s: Triangle| #[trigger] is_regular(p, h, s) ==> t.contains(s)
}

/// An edge between different points has a positive length.
proof fn lemma_edge_has_length(a: Point, b: Point)
    requires
        a != b,
    ensures
        dot(a, b, b) > 0,
{
    let dx = b.x - a.x;
    let dy = b.y - a.y;
    assert(dx * dx + dy * dy > 0) by (nonlinear_arith)
        requires
            dx != 0 || dy != 0,
    ;
}

/// `x / lc <= y / ld <= z / le` for positive denominators.
#[verifier::rlimit(50)]
proof fn lemma_ratio_chain(x: int, lc: int, y: int, ld: int, z: int, le: int)
    requires
        lc > 0,
        ld > 0,
        le > 0,
        x * ld - y * lc <= 0,
        y * le - z * ld <= 0,
    ensures
        x * le - z * lc <= 0,
{
    assert((x * ld) * le <= (y * lc) * le) by (nonlinear_arith)
        requires
            x * ld <= y * lc,
            le > 0,
    ;
    assert((y * le) * lc <= (z * ld) * lc) by (nonlinear_arith)
        requires
            y * le <= z * ld,
            lc > 0,
    ;
    assert((x * ld) * le == (x * le) * ld) by (nonlinear_arith);
    assert((y * lc) * le == (y * le) * lc) by (nonlinear_arith);
    assert((z * ld) * lc == (z * lc) * ld) by (nonlinear_arith);
    assert(x * le <= z * lc) by (nonlinear_arith)
        requires
            (x * le) * ld <= (z * lc) * ld,
            ld > 0,
    ;
}

/// A product with a positive factor has the sign of the other factor.
proof fn lemma_sign_of_scaled(q: int, w: int)
    requires
        q > 0,
    ensures
        q * w > 0 <==> w > 0,
        q * w < 0 <==> w < 0,
        q * w == 0 <==> w == 0,
{
    assert((q * w > 0 <==> w > 0) && (q * w < 0 <==> w < 0) && (q * w == 0 <==> w == 0))
        by (nonlinear_arith)
        requires
            q > 0,
    ;
}

/// Of three points to the left of `a b`: when the second is not below the
/// plane of the first, and the third not below the plane of the second, the
/// third is not below the plane of the first.
#[verifier::rlimit(50)]
proof fn lemma_left_chain(p: Seq<Point>, h: Seq<int>, a: int, b: int, c: int, d: int, e: int)
    requires
        cross(p[a], p[b], p[c]) > 0,
        cross(p[a], p[b], p[d]) > 0,
        cross(p[a], p[b], p[e]) > 0,
        lift(p, h, a, b, c, d) <= 0,
        lift(p, h, a, b, d, e) <= 0,
    ensures
        lift(p, h, a, b, c, e) <= 0,
{
    lemma_cross_repeated(p[a], p[c]);
    lemma_edge_has_length(p[a], p[b]);
    let q = dot(p[a], p[b], p[b]);
    lemma_lifted_pencil(p[a], h[a], p[b], h[b], p[c], h[c], p[d], h[d]);
    lemma_lifted_pencil(p[a], h[a], p[b], h[b], p[d], h[d], p[e], h[e]);
    lemma_lifted_pencil(p[a], h[a], p[b], h[b], p[c], h[c], p[e], h[e]);
    lemma_sign_of_scaled(q, lift(p, h, a, b, c, d));
    lemma_sign_of_scaled(q, lift(p, h, a, b, d, e));
    lemma_sign_of_scaled(q, lift(p, h, a, b, c, e));
    lemma_ratio_chain(
        lean_of(p, h, a, b, c),
        cross(p[a], p[b], p[c]),
        lean_of(p, h, a, b, d),
        cross(p[a], p[b], p[d]),
        lean_of(p, h, a, b, e),
        cross(p[a], p[b], p[e]),
    );
}

/// With `c` and `m` to the left of `a b` and `d` to its right: when `d` is
/// above the plane of `c`, and `m` is not below it, `m` is above the plane of
/// `d`.
#[verifier::rlimit(50)]
proof fn lemma_across(p: Seq<Point>, h: Seq<int>, a: int, b: int, c: int, d: int, m: int)
    requires
        cross(p[a], p[b], p[c]) > 0,
        cross(p[a], p[b], p[d]) < 0,
        cross(p[a], p[b], p[m]) > 0,
        lift(p, h, a, b, c, d) < 0,
        lift(p, h, a, b, c, m) <= 0,
    ensures
        lift(p, h, a, b, d, m) > 0,
{
    lemma_cross_repeated(p[a], p[c]);
    lemma_edge_has_length(p[a], p[b]);
    let q = dot(p[a], p[b], p[b]);
    lemma_lifted_pencil(p[a], h[a], p[b], h[b], p[c], h[c], p[d], h[d]);
    lemma_lifted_pencil(p[a], h[a], p[b], h[b], p[c], h[c], p[m], h[m]);
    lemma_lifted_pencil(p[a], h[a], p[b], h[b], p[d], h[d], p[m], h[m]);
    lemma_sign_of_scaled(q, lift(p, h, a, b, c, d));
    lemma_sign_of_scaled(q, lift(p, h, a, b, c, m));
    lemma_sign_of_scaled(q, lift(p, h, a, b, d, m));
    let x = lean_of(p, h, a, b, c);
    let y = lean_of(p, h, a, b, d);
    let z = lean_of(p, h, a, b, m);
    let lc = cross(p[a], p[b], p[c]);
    let ld = cross(p[a], p[b], p[d]);
    let lm = cross(p[a], p[b], p[m]);
    assert((x * ld) * lm < (y * lc) * lm) by (nonlinear_arith)
        requires
            x * ld < y * lc,
            lm > 0,
    ;
    assert((x * lm) * ld >= (z * lc) * ld) by (nonlinear_arith)
        requires
            x * lm <= z * lc,
            ld < 0,
    ;
    assert((x * ld) * lm == (x * lm) * ld) by (nonlinear_arith);
    assert((y * lc) * lm == (y * lm) * lc) by (nonlinear_arith);
    assert((z * lc) * ld == (z * ld) * lc) by (nonlinear_arith);
    assert(z * ld < y * lm) by (nonlinear_arith)
        requires
            (z * ld) * lc < (y * lm) * lc,
            lc > 0,
    ;
}

/// A point on the line through `a` and `b` is above the plane of a triangle
/// on `a b` exactly when it leans above the edge.
#[verifier::rlimit(50)]
pub proof fn lemma_on_the_line(p: Seq<Point>, h: Seq<int>, a: int, b: int, c: int, m: int)
    requires
        cross(p[a], p[b], p[c]) > 0,
        cross(p[a], p[b], p[m]) == 0,
    ensures
        lift(p, h, a, b, c, m) < 0 <==> lean_of(p, h, a, b, m) > 0,
{
    lemma_cross_repeated(p[a], p[c]);
    lemma_edge_has_length(p[a], p[b]);
    let q = dot(p[a], p[b], p[b]);
    lemma_lifted_pencil(p[a], h[a], p[b], h[b], p[c], h[c], p[m], h[m]);
    lemma_sign_of_scaled(q, lift(p, h, a, b, c, m));
    let x = lean_of(p, h, a, b, c);
    let z = lean_of(p, h, a, b, m);
    let lc = cross(p[a], p[b], p[c]);
    let lm = cross(p[a], p[b], p[m]);
    assert(x * lm == 0) by (nonlinear_arith)
        requires
            lm == 0,
    ;
    lemma_sign_of_scaled(lc, z);
    assert(z * lc == lc * z) by (nonlinear_arith);
}

/// The lean against an edge does not depend on its direction.
#[verifier::rlimit(50)]
proof fn lemma_lean_either_way(p: Seq<Point>, h: Seq<int>, a: int, b: int, m: int)
    ensures
        lean_of(p, h, b, a, m) == lean_of(p, h, a, b, m),
{
    let dx = p[b].x - p[a].x;
    let dy = p[b].y - p[a].y;
    assert(dot(p[b], p[a], p[a]) == (0 - dx) * (0 - dx) + (0 - dy) * (0 - dy));
    assert((0 - dx) * (0 - dx) == dx * dx && (0 - dy) * (0 - dy) == dy * dy) by (nonlinear_arith);
    assert(dot(p[b], p[a], p[a]) == dot(p[a], p[b], p[b]));
}

/// A lifted point is in the plane through itself and two others.
proof fn lemma_lift_of_the_apex(p: Seq<Point>, h: Seq<int>, a: int, b: int, c: int)
    ensures
        lift(p, h, a, b, c, c) == 0,
{
    lemma_lifted_det_reverses_with_the_apex(p[a], h[a], p[b], h[b], p[c], h[c], p[c], h[c]);
}

/// Among the first `k` points, one to the left of `a b` has a plane with no
/// other of them to the left below it, provided any of them is to the left.
pub proof fn lemma_best_left(p: Seq<Point>, h: Seq<int>, a: int, b: int, k: int) -> (c: int)
    requires
        0 <= a < p.len(),
        0 <= b < p.len(),
        0 <= k <= p.len(),
        exists|m: int| 0 <= m < k && #[trigger] left_of(p, a, b, m),
    ensures
        0 <= c < k,
        left_of(p, a, b, c),
        forall|m: int| 0 <= m < k && left_of(p, a, b, m) ==> #[trigger] lift(p, h, a, b, c, m) <= 0,
    decreases k,
{
    let last = k - 1;
    if exists|m: int| 0 <= m < last && #[trigger] left_of(p, a, b, m) {
        let c0 = lemma_best_left(p, h, a, b, last);
        if !left_of(p, a, b, last) {
            c0
        } else if lift(p, h, a, b, c0, last) <= 0 {
            c0
        } else {
            lemma_lifted_det_reverses_with_the_apex(
                p[a],
                h[a],
                p[b],
                h[b],
                p[c0],
                h[c0],
                p[last],
                h[last],
            );
            lemma_lift_of_the_apex(p, h, a, b, last);
            assert forall|m: int| 0 <= m < k && left_of(p, a, b, m) implies #[trigger] lift(
                p,
                h,
                a,
                b,
                last,
                m,
            ) <= 0 by {
                if m < last {
                    assert(lift(p, h, a, b, c0, m) <= 0);
                    lemma_left_chain(p, h, a, b, last, c0, m);
                }
            }
            last
        }
    } else {
        let w = choose|m: int| 0 <= m < k && #[trigger] left_of(p, a, b, m);
        assert(w == last);
        lemma_lift_of_the_apex(p, h, a, b, last);
        last
    }
}

/// A directed edge has at most one triangle to its left.
pub proof fn lemma_apex_is_unique(p: Seq<Point>, h: Seq<int>, a: int, b: int, c: int, d: int)
    requires
        is_apex(p, h, a, b, c),
        is_apex(p, h, a, b, d),
    ensures
        c == d,
{
    lemma_cross_repeated(p[a], p[b]);
    lemma_cross_repeated(p[b], p[a]);
    if c != d {
        assert(d != a && d != b && c != a && c != b);
        assert(lift(p, h, a, b, c, d) < 0);
        assert(lift(p, h, a, b, d, c) < 0);
        lemma_lifted_det_reverses_with_the_apex(p[a], h[a], p[b], h[b], p[c], h[c], p[d], h[d]);
    }
}

/// An edge with a triangle on it is clear.
pub proof fn lemma_apex_needs_a_clear_edge(p: Seq<Point>, h: Seq<int>, a: int, b: int, c: int)
    requires
        is_apex(p, h, a, b, c),
    ensures
        is_clear(p, h, a, b),
{
    lemma_cross_repeated(p[a], p[c]);
    assert forall|m: int|
        0 <= m < p.len() && m != a && m != b && cross(p[a], p[b], p[m]) == 0 implies #[trigger] lean_of(
        p,
        h,
        a,
        b,
        m,
    ) > 0 by {
        assert(lift(p, h, a, b, c, m) < 0);
        lemma_on_the_line(p, h, a, b, c, m);
    }
}

/// A clear directed edge with points to its left and none to its right has a
/// triangle to its left.
pub proof fn lemma_hull_edge_has_apex(p: Seq<Point>, h: Seq<int>, a: int, b: int)
    requires
        is_generic(p, h),
        is_clear(p, h, a, b),
        has_left(p, a, b),
        !has_left(p, b, a),
    ensures
        has_apex(p, h, a, b),
{
    let w = choose|m: int| #[trigger] left_of(p, a, b, m);
    assert(left_of(p, a, b, w));
    let c = lemma_best_left(p, h, a, b, p.len() as int);
    lemma_cross_repeated(p[a], p[b]);
    lemma_cross_repeated(p[b], p[a]);
    assert(a != b && c != a && c != b);
    assert forall|m: int| 0 <= m < p.len() && m != a && m != b && m != c implies #[trigger] lift(
        p,
        h,
        a,
        b,
        c,
        m,
    ) < 0 by {
        lemma_cross_in_all_orders(p[a], p[b], p[m]);
        assert(!left_of(p, b, a, m));
        assert(lift(p, h, a, b, c, m) != 0);
        if cross(p[a], p[b], p[m]) == 0 {
            assert(lean_of(p, h, a, b, m) > 0);
            lemma_on_the_line(p, h, a, b, c, m);
        } else {
            assert(left_of(p, a, b, m));
        }
    }
    assert(is_apex(p, h, a, b, c));
}

/// A directed edge with a triangle to its left and a point to its right has a
/// triangle to its right as well.
pub proof fn lemma_apex_across(p: Seq<Point>, h: Seq<int>, a: int, b: int)
    requires
        is_generic(p, h),
        has_apex(p, h, a, b),
        has_left(p, b, a),
    ensures
        has_apex(p, h, b, a),
{
    let c = choose|c: int| #[trigger] is_apex(p, h, a, b, c);
    let w = choose|m: int| #[trigger] left_of(p, b, a, m);
    assert(left_of(p, b, a, w));
    let d = lemma_best_left(p, h, b, a, p.len() as int);
    lemma_cross_repeated(p[a], p[b]);
    lemma_cross_repeated(p[b], p[a]);
    lemma_cross_in_all_orders(p[a], p[b], p[d]);
    lemma_cross_in_all_orders(p[a], p[b], p[c]);
    assert(a != b && c != a && c != b);
    assert(d != a && d != b && d != c);
    assert(lift(p, h, a, b, c, d) < 0);
    lemma_lift_of_the_apex(p, h, a, b, c);
    lemma_apex_needs_a_clear_edge(p, h, a, b, c);
    assert forall|m: int| 0 <= m < p.len() && m != b && m != a && m != d implies #[trigger] lift(
        p,
        h,
        b,
        a,
        d,
        m,
    ) < 0 by {
        lemma_cross_in_all_orders(p[a], p[b], p[m]);
        if cross(p[a], p[b], p[m]) < 0 {
            assert(left_of(p, b, a, m));
            assert(lift(p, h, b, a, d, m) != 0);
        } else if cross(p[a], p[b], p[m]) == 0 {
            assert(lean_of(p, h, a, b, m) > 0);
            lemma_lean_either_way(p, h, a, b, m);
            lemma_on_the_line(p, h, b, a, d, m);
        } else {
            if m != c {
                assert(lift(p, h, a, b, c, m) < 0);
            }
            lemma_across(p, h, a, b, c, d, m);
            lemma_lifted_det_reverses_with_the_edge(
                p[a],
                h[a],
                p[b],
                h[b],
                p[d],
                h[d],
                p[m],
                h[m],
            );
        }
    }
    assert(is_apex(p, h, b, a, d));
}

/// The directed edge from `i` to `j` is a side of `t`, taken so that the
/// triangle lies to its left.
pub open spec fn has_edge(p: Seq<Point>, t: Triangle, i: int, j: int) -> bool {
    if cross(p[t.a as int], p[t.b as int], p[t.c as int]) > 0 {
        (i == t.a && j == t.b) || (i == t.b && j == t.c) || (i == t.c && j == t.a)
    } else {
        (i == t.b && j == t.a) || (i == t.c && j == t.b) || (i == t.a && j == t.c)
    }
}

/// The vertex of `t` opposite its side `i j`.
pub open spec fn opposite(t: Triangle, i: int, j: int) -> int {
    t.a + t.b + t.c - i - j
}

/// The triangle with the vertices `a`, `b`, `c`, in the order of their
/// indices.
pub open spec fn sorted(a: int, b: int, c: int) -> Triangle {
    if a < b && b < c {
        Triangle { a: a as usize, b: b as usize, c: c as usize }
    } else if a < c && c < b {
        Triangle { a: a as usize, b: c as usize, c: b as usize }
    } else if b < a && a < c {
        Triangle { a: b as usize, b: a as usize, c: c as usize }
    } else if b < c && c < a {
        Triangle { a: b as usize, b: c as usize, c: a as usize }
    } else if c < a && a < b {
        Triangle { a: c as usize, b: a as usize, c: b as usize }
    } else {
        Triangle { a: c as usize, b: b as usize, c: a as usize }
    }
}


/// The orientation of lifted points in all orders of the first three:
/// turning them keeps it, exchanging two of them reverses it.
pub proof fn lemma_lift_in_all_orders(p: Seq<Point>, h: Seq<int>, a: int, b: int, c: int, m: int)
    ensures
        lift(p, h, b, c, a, m) == lift(p, h, a, b, c, m),
        lift(p, h, c, a, b, m) == lift(p, h, a, b, c, m),
        lift(p, h, b, a, c, m) == -lift(p, h, a, b, c, m),
        lift(p, h, a, c, b, m) == -lift(p, h, a, b, c, m),
        lift(p, h, c, b, a, m) == -lift(p, h, a, b, c, m),
{
    lemma_lifted_det_turns(p[a], h[a], p[b], h[b], p[c], h[c], p[m], h[m]);
    lemma_lifted_det_turns(p[b], h[b], p[c], h[c], p[a], h[a], p[m], h[m]);
    lemma_lifted_det_reverses_with_the_edge(p[a], h[a], p[b], h[b], p[c], h[c], p[m], h[m]);
    lemma_lifted_det_turns(p[b], h[b], p[a], h[a], p[c], h[c], p[m], h[m]);
    lemma_lifted_det_turns(p[a], h[a], p[c], h[c], p[b], h[b], p[m], h[m]);
}

/// A regular triangle is the triangle to the left of each of its sides.
pub proof fn lemma_side_has_the_triangle_as_apex(
    p: Seq<Point>,
    h: Seq<int>,
    t: Triangle,
    i: int,
    j: int,
)
    requires
        is_regular(p, h, t),
        has_edge(p, t, i, j),
    ensures
        is_apex(p, h, i, j, opposite(t, i, j)),
        sorted(i, j, opposite(t, i, j)) == t,
{
    let a = t.a as int;
    let b = t.b as int;
    let c = t.c as int;
    let k = opposite(t, i, j);
    lemma_cross_in_all_orders(p[a], p[b], p[c]);
    assert(cross(p[i], p[j], p[k]) > 0);
    assert forall|m: int| 0 <= m < p.len() && m != i && m != j && m != k implies #[trigger] lift(
        p,
        h,
        i,
        j,
        k,
        m,
    ) < 0 by {
        lemma_lift_in_all_orders(p, h, a, b, c, m);
        if cross(p[a], p[b], p[c]) > 0 {
            assert(lift(p, h, a, b, c, m) < 0);
        } else {
            assert(lift(p, h, a, b, c, m) > 0);
        }
    }
}

/// The triangle to the left of a directed edge is a regular triangle with
/// that edge as a side.
pub proof fn lemma_apex_makes_a_triangle(p: Seq<Point>, h: Seq<int>, a: int, b: int, c: int)
    requires
        p.len() <= usize::MAX,
        is_apex(p, h, a, b, c),
    ensures
        is_regular(p, h, sorted(a, b, c)),
        has_edge(p, sorted(a, b, c), a, b),
        opposite(sorted(a, b, c), a, b) == c,
{
    let t = sorted(a, b, c);
    let lo = t.a as int;
    let mid = t.b as int;
    let hi = t.c as int;
    lemma_cross_repeated(p[a], p[b]);
    lemma_cross_repeated(p[b], p[a]);
    lemma_cross_repeated(p[a], p[c]);
    assert(a != b && a != c && b != c);
    lemma_cross_in_all_orders(p[a], p[b], p[c]);
    assert forall|m: int| 0 <= m < p.len() && m != t.a && m != t.b && m != t.c implies (if cross(
        p[t.a as int],
        p[t.b as int],
        p[t.c as int],
    ) > 0 {
        #[trigger] lift(p, h, t.a as int, t.b as int, t.c as int, m) < 0
    } else {
        lift(p, h, t.a as int, t.b as int, t.c as int, m) > 0
    }) by {
        assert(lift(p, h, a, b, c, m) < 0);
        lemma_lift_in_all_orders(p, h, a, b, c, m);
    }
}

/// What the directed edge from `i` to `j` adds to twice the area of a polygon
/// that has it on its boundary, the inside to its left.
pub open spec fn weight(p: Seq<Point>, i: int, j: int) -> int {
    p[i].x * p[j].y - p[i].y * p[j].x
}

/// Twice the area of the triangle `t`.
pub open spec fn area2(p: Seq<Point>, t: Triangle) -> int {
    let twice = cross(p[t.a as int], p[t.b as int], p[t.c as int]);
    if twice >= 0 {
        twice
    } else {
        -twice
    }
}

/// Twice the area of the first `k` triangles of `t` together.
pub open spec fn area2_of_first(p: Seq<Point>, t: Seq<Triangle>, k: int) -> int
    decreases k,
{
    if k <= 0 {
        0
    } else {
        area2_of_first(p, t, k - 1) + area2(p, t[k - 1])
    }
}

/// Twice the area of all triangles of `t` together.
pub open spec fn total_area2(p: Seq<Point>, t: Seq<Triangle>) -> int {
    area2_of_first(p, t, t.len() as int)
}

/// The directed edge from `i` to `j` is an outer edge: it is clear and no
/// point lies to its right.
pub open spec fn is_outer(p: Seq<Point>, h: Seq<int>, i: int, j: int) -> bool {
    is_clear(p, h, i, j) && !has_left(p, j, i)
}

/// The weight of the outer edges, and zero elsewhere.
pub open spec fn outer_weight(p: Seq<Point>, h: Seq<int>) -> spec_fn(int, int) -> int {
    |i: int, j: int|
        if is_outer(p, h, i, j) {
            weight(p, i, j)
        } else {
            0
        }
}

/// The weight of the sides of `t`, and zero elsewhere.
pub open spec fn side_weight(p: Seq<Point>, t: Triangle) -> spec_fn(int, int) -> int {
    |i: int, j: int|
        if has_edge(p, t, i, j) {
            weight(p, i, j)
        } else {
            0
        }
}

/// How much the first `k` triangles of `t` weigh on the directed edge from
/// `i` to `j`.
pub open spec fn cover_at(p: Seq<Point>, t: Seq<Triangle>, k: int, i: int, j: int) -> int
    decreases k,
{
    if k <= 0 {
        0
    } else {
        cover_at(p, t, k - 1, i, j) + side_weight(p, t[k - 1])(i, j)
    }
}

/// `cover_at` as a function of the edge.
pub open spec fn cover(p: Seq<Point>, t: Seq<Triangle>, k: int) -> spec_fn(int, int) -> int {
    |i: int, j: int| cover_at(p, t, k, i, j)
}

/// The weight of the directed edges that have a triangle to their left, and
/// zero elsewhere.
pub open spec fn apex_weight(p: Seq<Point>, h: Seq<int>) -> spec_fn(int, int) -> int {
    |i: int, j: int|
        if has_apex(p, h, i, j) {
            weight(p, i, j)
        } else {
            0
        }
}

/// The weight of an edge changes its sign with the direction of the edge.
pub proof fn lemma_weight_reverses(p: Seq<Point>, i: int, j: int)
    ensures
        weight(p, j, i) == -weight(p, i, j),
{
    assert(p[j].x * p[i].y - p[j].y * p[i].x == -(p[i].x * p[j].y - p[i].y * p[j].x))
        by (nonlinear_arith);
}

/// The weights of the three sides of a triangle add up to twice its signed
/// area.
#[verifier::rlimit(50)]
proof fn lemma_weights_of_a_triangle(a: Point, b: Point, c: Point)
    ensures
        (a.x * b.y - a.y * b.x) + (b.x * c.y - b.y * c.x) + (c.x * a.y - c.y * a.x) == cross(
            a,
            b,
            c,
        ),
{
    let ax = a.x as int;
    let ay = a.y as int;
    let bx = b.x as int;
    let by = b.y as int;
    let cx = c.x as int;
    let cy = c.y as int;
    assert((bx - ax) * (cy - ay) == bx * cy - bx * ay - ax * cy + ax * ay) by (nonlinear_arith);
    assert((by - ay) * (cx - ax) == by * cx - by * ax - ay * cx + ay * ax) by (nonlinear_arith);
    assert(bx * ay == ay * bx && ax * cy == cy * ax && ax * ay == ay * ax && by * ax == ax * by
        && ay * cx == cx * ay) by (nonlinear_arith);
}

/// The weights of the sides of a triangle add up to twice its area.
proof fn lemma_sides_weigh_the_area(p: Seq<Point>, t: Triangle)
    requires
        t.a < t.b < t.c < p.len(),
    ensures
        rect_sum(side_weight(p, t), p.len() as int, p.len() as int) == area2(p, t),
{
    let n = p.len() as int;
    let a = t.a as int;
    let b = t.b as int;
    let c = t.c as int;
    lemma_weights_of_a_triangle(p[a], p[b], p[c]);
    lemma_weight_reverses(p, a, b);
    lemma_weight_reverses(p, b, c);
    lemma_weight_reverses(p, c, a);
    let (e1, e2, e3) = if cross(p[a], p[b], p[c]) > 0 {
        (cell(a, b, weight(p, a, b)), cell(b, c, weight(p, b, c)), cell(c, a, weight(p, c, a)))
    } else {
        (cell(b, a, weight(p, b, a)), cell(c, b, weight(p, c, b)), cell(a, c, weight(p, a, c)))
    };
    let two = |i: int, j: int| e1(i, j) + e2(i, j);
    lemma_rect_add(two, e1, e2, n, n);
    lemma_rect_add(side_weight(p, t), two, e3, n, n);
    if cross(p[a], p[b], p[c]) > 0 {
        lemma_rect_of_cell(a, b, weight(p, a, b), n, n);
        lemma_rect_of_cell(b, c, weight(p, b, c), n, n);
        lemma_rect_of_cell(c, a, weight(p, c, a), n, n);
    } else {
        lemma_rect_of_cell(b, a, weight(p, b, a), n, n);
        lemma_rect_of_cell(c, b, weight(p, c, b), n, n);
        lemma_rect_of_cell(a, c, weight(p, a, c), n, n);
    }
}

/// The weights that the first `k` triangles put on the edges add up to twice
/// their area.
proof fn lemma_cover_weighs_the_area(p: Seq<Point>, t: Seq<Triangle>, k: int)
    requires
        0 <= k <= t.len(),
        forall|x: int| 0 <= x < t.len() ==> (#[trigger] t[x]).a < t[x].b < t[x].c < p.len(),
    ensures
        rect_sum(cover(p, t, k), p.len() as int, p.len() as int) == area2_of_first(p, t, k),
    decreases k,
{
    let n = p.len() as int;
    if k == 0 {
        lemma_rect_eq(cover(p, t, 0), cell(0, 0, 0), n, n);
        lemma_rect_of_cell(0, 0, 0, n, n);
    } else {
        lemma_cover_weighs_the_area(p, t, k - 1);
        lemma_sides_weigh_the_area(p, t[k - 1]);
        lemma_rect_add(cover(p, t, k), cover(p, t, k - 1), side_weight(p, t[k - 1]), n, n);
    }
}

/// Where at most the triangle at `x0` has the edge as a side, the first `k`
/// triangles weigh on the edge what that triangle does.
proof fn lemma_cover_of_one(p: Seq<Point>, t: Seq<Triangle>, k: int, i: int, j: int, x0: int)
    requires
        0 <= k <= t.len(),
        forall|x: int| 0 <= x < k && x != x0 ==> !has_edge(p, #[trigger] t[x], i, j),
    ensures
        cover_at(p, t, k, i, j) == (if 0 <= x0 < k {
            side_weight(p, t[x0])(i, j)
        } else {
            0
        }),
    decreases k,
{
    if k > 0 {
        lemma_cover_of_one(p, t, k - 1, i, j, x0);
        if k - 1 != x0 {
            assert(!has_edge(p, t[k - 1], i, j));
        }
    }
}

/// The regular triangles weigh on a directed edge exactly when it has a
/// triangle to its left, and then once.
proof fn lemma_cover_is_apex_weight(
    p: Seq<Point>,
    h: Seq<int>,
    t: Seq<Triangle>,
    i: int,
    j: int,
)
    requires
        p.len() <= usize::MAX,
        lists_regular(p, h, t),
        0 <= i < p.len(),
        0 <= j < p.len(),
    ensures
        cover_at(p, t, t.len() as int, i, j) == apex_weight(p, h)(i, j),
{
    let k = t.len() as int;
    if has_apex(p, h, i, j) {
        let c = choose|c: int| #[trigger] is_apex(p, h, i, j, c);
        let own = sorted(i, j, c);
        lemma_apex_makes_a_triangle(p, h, i, j, c);
        assert(t.contains(own));
        let x0 = choose|x: int| 0 <= x < t.len() && t[x] == own;
        assert forall|x: int| 0 <= x < k && x != x0 implies !has_edge(p, #[trigger] t[x], i, j) by {
            if has_edge(p, t[x], i, j) {
                lemma_side_has_the_triangle_as_apex(p, h, t[x], i, j);
                lemma_apex_is_unique(p, h, i, j, c, opposite(t[x], i, j));
                assert(t[x] == t[x0]);
                if x < x0 {
                    assert(precedes(t[x], t[x0]));
                } else {
                    assert(precedes(t[x0], t[x]));
                }
            }
        }
        lemma_cover_of_one(p, t, k, i, j, x0);
    } else {
        assert forall|x: int| 0 <= x < k && x != -1 implies !has_edge(p, #[trigger] t[x], i, j) by {
            if has_edge(p, t[x], i, j) {
                lemma_side_has_the_triangle_as_apex(p, h, t[x], i, j);
                assert(is_apex(p, h, i, j, opposite(t[x], i, j)));
            }
        }
        lemma_cover_of_one(p, t, k, i, j, -1);
    }
}

/// A directed edge and its reverse weigh the same for the triangles as for
/// the outer edges: an edge inside has a triangle on either side or on
/// neither, and an outer edge has one on its inner side only.
proof fn lemma_apex_and_outer_agree(p: Seq<Point>, h: Seq<int>, i: int, j: int)
    requires
        is_generic(p, h),
        0 <= i < p.len(),
        0 <= j < p.len(),
    ensures
        apex_weight(p, h)(i, j) + apex_weight(p, h)(j, i) == outer_weight(p, h)(i, j)
            + outer_weight(p, h)(j, i),
{
    lemma_weight_reverses(p, i, j);
    if has_apex(p, h, i, j) {
        let c = choose|c: int| #[trigger] is_apex(p, h, i, j, c);
        assert(left_of(p, i, j, c));
        lemma_apex_needs_a_clear_edge(p, h, i, j, c);
    }
    if has_apex(p, h, j, i) {
        let c = choose|c: int| #[trigger] is_apex(p, h, j, i, c);
        assert(left_of(p, j, i, c));
        lemma_apex_needs_a_clear_edge(p, h, j, i, c);
    }
    if is_clear(p, h, i, j) || is_clear(p, h, j, i) {
        if is_clear(p, h, i, j) {
            lemma_clear_either_way(p, h, i, j);
        } else {
            lemma_clear_either_way(p, h, j, i);
        }
        if has_left(p, i, j) && has_left(p, j, i) {
            if has_apex(p, h, i, j) {
                lemma_apex_across(p, h, i, j);
            }
            if has_apex(p, h, j, i) {
                lemma_apex_across(p, h, j, i);
            }
        } else if has_left(p, i, j) {
            lemma_hull_edge_has_apex(p, h, i, j);
        } else if has_left(p, j, i) {
            lemma_hull_edge_has_apex(p, h, j, i);
        }
    }
}

/// Whether an edge is clear does not depend on its direction.
proof fn lemma_clear_either_way(p: Seq<Point>, h: Seq<int>, a: int, b: int)
    requires
        is_clear(p, h, a, b),
    ensures
        is_clear(p, h, b, a),
{
    assert forall|m: int|
        0 <= m < p.len() && m != b && m != a && cross(p[b], p[a], p[m]) == 0 implies #[trigger] lean_of(
        p,
        h,
        b,
        a,
        m,
    ) > 0 by {
        lemma_cross_in_all_orders(p[a], p[b], p[m]);
        assert(lean_of(p, h, a, b, m) > 0);
        lemma_lean_either_way(p, h, a, b, m);
    }
}

/// The regular triangles cover what the outer edges enclose: the areas of
/// the triangles add up to the weights of the outer edges.
pub proof fn lemma_regular_triangles_fill_the_outline(p: Seq<Point>, h: Seq<int>, t: Seq<Triangle>)
    requires
        p.len() <= usize::MAX,
        is_generic(p, h),
        lists_regular(p, h, t),
    ensures
        total_area2(p, t) == rect_sum(outer_weight(p, h), p.len() as int, p.len() as int),
{
    let n = p.len() as int;
    let k = t.len() as int;
    let inner = apex_weight(p, h);
    let outer = outer_weight(p, h);
    lemma_cover_weighs_the_area(p, t, k);
    assert forall|i: int, j: int| 0 <= i < n && 0 <= j < n implies #[trigger] cover(p, t, k)(i, j)
        == inner(i, j) by {
        lemma_cover_is_apex_weight(p, h, t, i, j);
    }
    lemma_rect_eq(cover(p, t, k), inner, n, n);
    // Each sum, taken twice, is the sum over the edges and their reverses.
    let inner_both = |i: int, j: int| inner(i, j) + flip(inner)(i, j);
    let outer_both = |i: int, j: int| outer(i, j) + flip(outer)(i, j);
    lemma_rect_flip(inner, n, n);
    lemma_rect_flip(outer, n, n);
    lemma_rect_add(inner_both, inner, flip(inner), n, n);
    lemma_rect_add(outer_both, outer, flip(outer), n, n);
    assert forall|i: int, j: int| 0 <= i < n && 0 <= j < n implies #[trigger] inner_both(i, j)
        == outer_both(i, j) by {
        lemma_apex_and_outer_agree(p, h, i, j);
    }
    lemma_rect_eq(inner_both, outer_both, n, n);
}

} // verus!
