//! The tie-break of the triangulation as a lift: raising every point by an
//! amount that grows fast with its index puts the lifted points in general
//! position, and the triangles of the triangulation are the regular ones.

use vstd::prelude::*;
use crate::arith::lemma_product_bound;
use crate::geometry::{
    all_on_lattice,
    cross,
    in_circle_det,
    lemma_cross_in_all_orders,
    lemma_cross_repeated,
    Point,
};
use crate::lifting::{
    dot,
    lean,
    lemma_end_of_the_edge,
    lemma_lean_is_linear,
    lemma_lean_of_squares_on_the_line,
    lemma_lift_of_squares,
    lemma_lifted_det_is_linear,
    lemma_lifted_pencil,
    lifted_det,
    square,
};
use crate::tiling::{is_generic, is_regular, lean_of, lemma_lift_in_all_orders, lift};
use crate::triangulation::{admits, is_delaunay, lemma_vertex_is_on_circle, Triangle};

verus! {

/// No orientation and no inner product of lattice points exceeds this.
pub open spec fn bound() -> int {
    0x2000_0000_0000_0000
}

/// The factor by which the raise grows from one index to the next.
pub open spec fn base() -> int {
    4 * bound()
}

/// By how much the point with index `v` is raised: `base()` to the `v`.
pub open spec fn raise(v: int) -> int
    decreases v,
{
    if v <= 0 {
        1
    } else {
        base() * raise(v - 1)
    }
}

/// The factor of the squared distance in the height of `n` points.
pub open spec fn steep(n: int) -> int {
    raise(n) + 1
}

/// The heights of the points of `p`: the squared distance from the origin,
/// steepened, and the raise of the index.
pub open spec fn heights(p: Seq<Point>) -> Seq<int> {
    Seq::new(p.len(), |v: int| steep(p.len() as int) * square(p[v]) + raise(v))
}

/// The raise is positive and grows by the base at least.
pub proof fn lemma_raise_grows(v: int, z: int)
    requires
        0 <= v < z,
    ensures
        0 < raise(v),
        raise(v) < raise(z),
        base() * raise(v) <= raise(z),
    decreases z,
{
    lemma_raise_is_positive(v);
    lemma_raise_is_positive(z - 1);
    assert(raise(v) < base() * raise(v)) by (nonlinear_arith)
        requires
            raise(v) > 0,
            base() >= 2,
    ;
    if z - 1 > v {
        lemma_raise_grows(v, z - 1);
        assert(raise(z - 1) <= base() * raise(z - 1)) by (nonlinear_arith)
            requires
                raise(z - 1) > 0,
                base() >= 1,
        ;
    }
}

/// The raise is positive.
pub proof fn lemma_raise_is_positive(v: int)
    ensures
        0 < raise(v),
    decreases v,
{
    if v > 0 {
        lemma_raise_is_positive(v - 1);
        assert(base() * raise(v - 1) > 0) by (nonlinear_arith)
            requires
                raise(v - 1) > 0,
                base() > 0,
        ;
    }
}

/// A raise times an orientation is less than a quarter of any later raise.
pub proof fn lemma_raised_is_small(v: int, z: int, x: int)
    requires
        0 <= v < z,
        -bound() <= x <= bound(),
    ensures
        -raise(z) <= 4 * (raise(v) * x) <= raise(z),
{
    lemma_raise_grows(v, z);
    lemma_product_bound(raise(v), x, raise(v), bound());
    assert(4 * (raise(v) * bound()) == base() * raise(v)) by (nonlinear_arith)
        requires
            base() == 4 * bound(),
    ;
}

/// A raise times a number that is not zero is at least the raise.
pub proof fn lemma_raised_is_large(v: int, x: int)
    requires
        0 <= v,
        x != 0,
    ensures
        x > 0 ==> raise(v) * x >= raise(v),
        x < 0 ==> raise(v) * x <= -raise(v),
{
    lemma_raise_is_positive(v);
    assert((x > 0 ==> raise(v) * x >= raise(v)) && (x < 0 ==> raise(v) * x <= -raise(v)))
        by (nonlinear_arith)
        requires
            raise(v) > 0,
            x != 0,
    ;
}

/// The orientation of three lattice points is within the bound.
pub proof fn lemma_cross_is_bounded(p: Point, q: Point, r: Point)
    requires
        p.on_lattice(),
        q.on_lattice(),
        r.on_lattice(),
    ensures
        -bound() <= cross(p, q, r) <= bound(),
{
    lemma_product_bound(q.x - p.x, r.y - p.y, 0x4000_0000, 0x4000_0000);
    lemma_product_bound(q.y - p.y, r.x - p.x, 0x4000_0000, 0x4000_0000);
}

/// The inner product of two vectors between lattice points is within the
/// bound.
pub proof fn lemma_dot_is_bounded(o: Point, u: Point, v: Point)
    requires
        o.on_lattice(),
        u.on_lattice(),
        v.on_lattice(),
    ensures
        -bound() <= dot(o, u, v) <= bound(),
{
    lemma_product_bound(u.x - o.x, v.x - o.x, 0x4000_0000, 0x4000_0000);
    lemma_product_bound(u.y - o.y, v.y - o.y, 0x4000_0000, 0x4000_0000);
}

/// What the raises add to the orientation of four lifted points.
pub open spec fn tilt(p: Seq<Point>, a: int, b: int, c: int, m: int) -> int {
    lifted_det(p[a], raise(a), p[b], raise(b), p[c], raise(c), p[m], raise(m))
}

/// The orientation of four lifted points is the in-circle determinant,
/// steepened, and the tilt.
proof fn lemma_lift_of_heights(p: Seq<Point>, a: int, b: int, c: int, m: int)
    requires
        0 <= a < p.len(),
        0 <= b < p.len(),
        0 <= c < p.len(),
        0 <= m < p.len(),
    ensures
        lift(p, heights(p), a, b, c, m) == steep(p.len() as int) * in_circle_det(
            p[a],
            p[b],
            p[c],
            p[m],
        ) + tilt(p, a, b, c, m),
{
    lemma_lifted_det_is_linear(
        p[a],
        p[b],
        p[c],
        p[m],
        steep(p.len() as int),
        square(p[a]),
        square(p[b]),
        square(p[c]),
        square(p[m]),
        raise(a),
        raise(b),
        raise(c),
        raise(m),
    );
    lemma_lift_of_squares(p[a], p[b], p[c], p[m]);
}

/// The tilt is smaller than the steepness.
proof fn lemma_tilt_is_small(p: Seq<Point>, a: int, b: int, c: int, m: int)
    requires
        all_on_lattice(p),
        0 <= a < p.len(),
        0 <= b < p.len(),
        0 <= c < p.len(),
        0 <= m < p.len(),
    ensures
        -steep(p.len() as int) < tilt(p, a, b, c, m) < steep(p.len() as int),
{
    let n = p.len() as int;
    lemma_cross_is_bounded(p[b], p[c], p[m]);
    lemma_cross_is_bounded(p[c], p[a], p[m]);
    lemma_cross_is_bounded(p[a], p[b], p[m]);
    lemma_cross_is_bounded(p[a], p[b], p[c]);
    lemma_raised_is_small(a, n, cross(p[b], p[c], p[m]));
    lemma_raised_is_small(b, n, cross(p[c], p[a], p[m]));
    lemma_raised_is_small(c, n, cross(p[a], p[b], p[m]));
    lemma_raised_is_small(m, n, cross(p[a], p[b], p[c]));
}

/// Where the in-circle determinant is not zero, it decides the side of the
/// lifted point.
pub proof fn lemma_steepness_decides(p: Seq<Point>, a: int, b: int, c: int, m: int)
    requires
        all_on_lattice(p),
        0 <= a < p.len(),
        0 <= b < p.len(),
        0 <= c < p.len(),
        0 <= m < p.len(),
        in_circle_det(p[a], p[b], p[c], p[m]) != 0,
    ensures
        in_circle_det(p[a], p[b], p[c], p[m]) > 0 ==> lift(p, heights(p), a, b, c, m) > 0,
        in_circle_det(p[a], p[b], p[c], p[m]) < 0 ==> lift(p, heights(p), a, b, c, m) < 0,
{
    let k = steep(p.len() as int);
    let d = in_circle_det(p[a], p[b], p[c], p[m]);
    lemma_lift_of_heights(p, a, b, c, m);
    lemma_tilt_is_small(p, a, b, c, m);
    lemma_raise_is_positive(p.len() as int);
    assert((d > 0 ==> k * d >= k) && (d < 0 ==> k * d <= -k)) by (nonlinear_arith)
        requires
            k > 0,
            d != 0,
    ;
}

/// Over a point that coincides with a vertex, the side of the lifted point
/// goes by the indices: the later of the two is above.
#[verifier::rlimit(50)]
proof fn lemma_lift_over_a_vertex(p: Seq<Point>, a: int, b: int, c: int, m: int, v: int)
    requires
        0 <= a < p.len(),
        0 <= b < p.len(),
        0 <= c < p.len(),
        0 <= m < p.len(),
        v == a || v == b || v == c,
        p[m] == p[v],
        cross(p[a], p[b], p[c]) != 0,
    ensures
        lift(p, heights(p), a, b, c, m) == (raise(v) - raise(m)) * cross(p[a], p[b], p[c]),
{
    let o = cross(p[a], p[b], p[c]);
    lemma_lift_of_heights(p, a, b, c, m);
    lemma_vertex_is_on_circle(p[a], p[b], p[c]);
    lemma_cross_in_all_orders(p[a], p[b], p[c]);
    lemma_cross_repeated(p[a], p[b]);
    lemma_cross_repeated(p[b], p[a]);
    lemma_cross_repeated(p[a], p[c]);
    lemma_cross_repeated(p[c], p[a]);
    lemma_cross_repeated(p[b], p[c]);
    lemma_cross_repeated(p[c], p[b]);
    let k = steep(p.len() as int);
    assert(k * in_circle_det(p[a], p[b], p[c], p[m]) == 0) by (nonlinear_arith)
        requires
            in_circle_det(p[a], p[b], p[c], p[m]) == 0,
    ;
    let ca = cross(p[b], p[c], p[m]);
    let cb = cross(p[c], p[a], p[m]);
    let cc = cross(p[a], p[b], p[m]);
    assert(raise(a) * ca == (if v == a {
        raise(a) * o
    } else {
        0
    })) by (nonlinear_arith)
        requires
            ca == (if v == a {
                o
            } else {
                0
            }),
    ;
    assert(raise(b) * cb == (if v == b {
        raise(b) * o
    } else {
        0
    })) by (nonlinear_arith)
        requires
            cb == (if v == b {
                o
            } else {
                0
            }),
    ;
    assert(raise(c) * cc == (if v == c {
        raise(c) * o
    } else {
        0
    })) by (nonlinear_arith)
        requires
            cc == (if v == c {
                o
            } else {
                0
            }),
    ;
    assert((raise(v) - raise(m)) * o == raise(v) * o - raise(m) * o) by (nonlinear_arith);
}

/// A point on the circle through `a`, `b`, `c` that is neither `a` nor `b`
/// is off the line through `a` and `b`.
#[verifier::rlimit(50)]
proof fn lemma_circle_meets_line_twice(a: Point, b: Point, c: Point, m: Point)
    requires
        cross(a, b, c) != 0,
        in_circle_det(a, b, c, m) == 0,
        m != a,
        m != b,
    ensures
        cross(a, b, m) != 0,
{
    if cross(a, b, m) == 0 {
        lemma_lift_of_squares(a, b, c, m);
        lemma_lifted_pencil(a, square(a), b, square(b), c, square(c), m, square(m));
        lemma_lean_of_squares_on_the_line(a, b, m);
        let q = dot(a, b, b);
        let lc = lean(a, square(a), b, square(b), c, square(c));
        let lm = lean(a, square(a), b, square(b), m, square(m));
        let o = cross(a, b, c);
        assert(q * in_circle_det(a, b, c, m) == 0) by (nonlinear_arith)
            requires
                in_circle_det(a, b, c, m) == 0,
        ;
        assert(lc * cross(a, b, m) == 0) by (nonlinear_arith)
            requires
                cross(a, b, m) == 0,
        ;
        assert(lm == 0) by (nonlinear_arith)
            requires
                lm * o == 0,
                o != 0,
        ;
        lemma_cross_repeated(a, c);
        let dx = b.x - a.x;
        let dy = b.y - a.y;
        assert(q > 0) by (nonlinear_arith)
            requires
                q == dx * dx + dy * dy,
                dx != 0 || dy != 0,
        ;
        assert(dot(m, a, b) == 0) by (nonlinear_arith)
            requires
                q * dot(m, a, b) == 0,
                q > 0,
        ;
        lemma_end_of_the_edge(a, b, m);
    }
}

/// A sum of a term and three others, each of them less than a quarter of it
/// in size, has the sign of the term.
proof fn lemma_largest_decides(top: int, main: int, r1: int, r2: int, r3: int)
    requires
        top > 0,
        main >= top || main <= -top,
        -top <= 4 * r1 <= top,
        -top <= 4 * r2 <= top,
        -top <= 4 * r3 <= top,
    ensures
        main > 0 ==> main + r1 + r2 + r3 > 0,
        main < 0 ==> main + r1 + r2 + r3 < 0,
{
}

/// The tie-break of the triangulation is the lift by `heights`: a point is
/// admitted by a triangle exactly when, lifted, it lies above the plane of
/// the triangle; and it never lies in that plane.
#[verifier::rlimit(50)]
pub proof fn lemma_tie_break_is_a_lift(p: Seq<Point>, a: int, b: int, c: int, m: int)
    requires
        all_on_lattice(p),
        0 <= a < b < c < p.len(),
        0 <= m < p.len(),
        m != a,
        m != b,
        m != c,
        cross(p[a], p[b], p[c]) != 0,
    ensures
        lift(p, heights(p), a, b, c, m) != 0,
        admits(p, a, b, c, m) <==> (if cross(p[a], p[b], p[c]) > 0 {
            lift(p, heights(p), a, b, c, m) < 0
        } else {
            lift(p, heights(p), a, b, c, m) > 0
        }),
{
    let h = heights(p);
    let o = cross(p[a], p[b], p[c]);
    let w = lift(p, h, a, b, c, m);
    let d = in_circle_det(p[a], p[b], p[c], p[m]);
    lemma_cross_repeated(p[a], p[c]);
    lemma_cross_repeated(p[a], p[b]);
    lemma_cross_repeated(p[b], p[a]);
    assert(p[a] != p[b] && p[b] != p[c] && p[a] != p[c]);
    if p[m] == p[a] || p[m] == p[b] || p[m] == p[c] {
        let v = if p[m] == p[a] {
            a
        } else if p[m] == p[b] {
            b
        } else {
            c
        };
        lemma_lift_over_a_vertex(p, a, b, c, m, v);
        if v < m {
            lemma_raise_grows(v, m);
        } else {
            lemma_raise_grows(m, v);
        }
        let gap = raise(v) - raise(m);
        assert((gap > 0 && o > 0 ==> gap * o > 0) && (gap > 0 && o < 0 ==> gap * o < 0) && (gap < 0
            && o > 0 ==> gap * o < 0) && (gap < 0 && o < 0 ==> gap * o > 0)) by (nonlinear_arith);
    } else if d != 0 {
        lemma_steepness_decides(p, a, b, c, m);
    } else {
        lemma_lift_of_heights(p, a, b, c, m);
        let k = steep(p.len() as int);
        assert(k * d == 0) by (nonlinear_arith)
            requires
                d == 0,
        ;
        let ca = cross(p[b], p[c], p[m]);
        let cb = cross(p[c], p[a], p[m]);
        let cc = cross(p[a], p[b], p[m]);
        lemma_cross_is_bounded(p[b], p[c], p[m]);
        lemma_cross_is_bounded(p[c], p[a], p[m]);
        lemma_cross_is_bounded(p[a], p[b], p[m]);
        lemma_cross_is_bounded(p[a], p[b], p[c]);
        if c < m {
            lemma_raised_is_small(a, m, ca);
            lemma_raised_is_small(b, m, cb);
            lemma_raised_is_small(c, m, cc);
            lemma_raised_is_large(m, -o);
            assert(raise(m) * (-o) == -(raise(m) * o)) by (nonlinear_arith);
            lemma_raise_is_positive(m);
            lemma_largest_decides(
                raise(m),
                -(raise(m) * o),
                raise(a) * ca,
                raise(b) * cb,
                raise(c) * cc,
            );
        } else {
            lemma_circle_meets_line_twice(p[a], p[b], p[c], p[m]);
            lemma_raised_is_small(a, c, ca);
            lemma_raised_is_small(b, c, cb);
            lemma_raised_is_small(m, c, -o);
            assert(raise(m) * (-o) == -(raise(m) * o)) by (nonlinear_arith);
            lemma_raised_is_large(c, cc);
            lemma_raise_is_positive(c);
            lemma_largest_decides(
                raise(c),
                raise(c) * cc,
                raise(a) * ca,
                raise(b) * cb,
                -(raise(m) * o),
            );
        }
    }
}

/// Lifted by `heights`, lattice points are in general position.
#[verifier::rlimit(50)]
pub proof fn lemma_heights_are_generic(p: Seq<Point>)
    requires
        all_on_lattice(p),
    ensures
        is_generic(p, heights(p)),
{
    let h = heights(p);
    assert forall|a: int, b: int, c: int, m: int|
        0 <= a < p.len() && 0 <= b < p.len() && 0 <= c < p.len() && 0 <= m < p.len() && m != a
            && m != b && m != c && cross(p[a], p[b], p[c]) != 0 implies #[trigger] lift(
        p,
        h,
        a,
        b,
        c,
        m,
    ) != 0 by {
        lemma_cross_repeated(p[a], p[c]);
        lemma_cross_repeated(p[a], p[b]);
        lemma_cross_repeated(p[b], p[a]);
        assert(a != b && b != c && a != c);
        lemma_cross_in_all_orders(p[a], p[b], p[c]);
        lemma_lift_in_all_orders(p, h, a, b, c, m);
        if a < b && b < c {
            lemma_tie_break_is_a_lift(p, a, b, c, m);
        } else if a < c && c < b {
            lemma_tie_break_is_a_lift(p, a, c, b, m);
        } else if b < a && a < c {
            lemma_tie_break_is_a_lift(p, b, a, c, m);
        } else if b < c && c < a {
            lemma_tie_break_is_a_lift(p, b, c, a, m);
        } else if c < a && a < b {
            lemma_tie_break_is_a_lift(p, c, a, b, m);
        } else {
            lemma_tie_break_is_a_lift(p, c, b, a, m);
        }
    }
}

/// The triangles of the triangulation are the regular triangles of the lift
/// by `heights`.
pub proof fn lemma_delaunay_is_regular(p: Seq<Point>, t: Triangle)
    requires
        all_on_lattice(p),
    ensures
        is_delaunay(p, t.a as int, t.b as int, t.c as int) <==> is_regular(p, heights(p), t),
{
    let h = heights(p);
    let a = t.a as int;
    let b = t.b as int;
    let c = t.c as int;
    if a < b && b < c && c < p.len() && cross(p[a], p[b], p[c]) != 0 {
        lemma_cross_repeated(p[a], p[c]);
        lemma_cross_repeated(p[a], p[b]);
        lemma_cross_repeated(p[b], p[a]);
        assert(p[a] != p[b] && p[b] != p[c] && p[a] != p[c]);
        if is_delaunay(p, a, b, c) {
            assert forall|m: int| 0 <= m < p.len() && m != t.a && m != t.b && m != t.c implies (
            if cross(p[t.a as int], p[t.b as int], p[t.c as int]) > 0 {
                #[trigger] lift(p, h, t.a as int, t.b as int, t.c as int, m) < 0
            } else {
                lift(p, h, t.a as int, t.b as int, t.c as int, m) > 0
            }) by {
                assert(admits(p, a, b, c, m));
                lemma_tie_break_is_a_lift(p, a, b, c, m);
            }
        }
        if is_regular(p, h, t) {
            assert forall|m: int| 0 <= m < p.len() implies #[trigger] admits(p, a, b, c, m) by {
                if m != a && m != b && m != c {
                    assert(if cross(p[a], p[b], p[c]) > 0 {
                        lift(p, h, a, b, c, m) < 0
                    } else {
                        lift(p, h, a, b, c, m) > 0
                    });
                    lemma_tie_break_is_a_lift(p, a, b, c, m);
                }
            }
        }
    }
}

/// What the raises add to the lean of a lifted point.
pub open spec fn slant(p: Seq<Point>, a: int, b: int, m: int) -> int {
    lean(p[a], raise(a), p[b], raise(b), p[m], raise(m))
}

/// A point on the line through `a` and `b`, lifted by `heights`, leans above
/// the edge exactly when it lies outside the segment, or coincides with one
/// of its ends under a later index.
#[verifier::rlimit(50)]
pub proof fn lemma_lean_on_the_line(p: Seq<Point>, a: int, b: int, m: int)
    requires
        all_on_lattice(p),
        0 <= a < p.len(),
        0 <= b < p.len(),
        0 <= m < p.len(),
        m != a,
        m != b,
        p[a] != p[b],
        cross(p[a], p[b], p[m]) == 0,
    ensures
        lean_of(p, heights(p), a, b, m) > 0 <==> (dot(p[m], p[a], p[b]) > 0 || (p[m] == p[a] && a
            < m) || (p[m] == p[b] && b < m)),
{
    let n = p.len() as int;
    let k = steep(n);
    let q = dot(p[a], p[b], p[b]);
    let between = dot(p[m], p[a], p[b]);
    let al = dot(p[b], p[m], p[a]);
    let be = dot(p[a], p[m], p[b]);
    lemma_lean_is_linear(
        p[a],
        p[b],
        p[m],
        k,
        square(p[a]),
        square(p[b]),
        square(p[m]),
        raise(a),
        raise(b),
        raise(m),
    );
    lemma_lean_of_squares_on_the_line(p[a], p[b], p[m]);
    assert(lean_of(p, heights(p), a, b, m) == k * (q * between) + slant(p, a, b, m));
    let dx = p[b].x - p[a].x;
    let dy = p[b].y - p[a].y;
    assert(q > 0) by (nonlinear_arith)
        requires
            q == dx * dx + dy * dy,
            dx != 0 || dy != 0,
    ;
    lemma_dot_is_bounded(p[a], p[b], p[b]);
    lemma_dot_is_bounded(p[b], p[m], p[a]);
    lemma_dot_is_bounded(p[a], p[m], p[b]);
    lemma_raise_is_positive(n);
    if between != 0 {
        lemma_raised_is_small(m, n, q);
        lemma_raised_is_small(a, n, al);
        lemma_raised_is_small(b, n, be);
        assert(q * raise(m) == raise(m) * q) by (nonlinear_arith);
        lemma_ends_of_the_edge(p[a], p[b], p[m]);
        assert((between > 0 ==> k * (q * between) >= k) && (between < 0 ==> k * (q * between)
            <= -k)) by (nonlinear_arith)
            requires
                k > 0,
                q > 0,
                between != 0,
        ;
    } else {
        lemma_end_of_the_edge(p[a], p[b], p[m]);
        assert(k * (q * between) == 0) by (nonlinear_arith)
            requires
                between == 0,
        ;
        if p[m] == p[a] {
            assert(be == 0) by (nonlinear_arith)
                requires
                    be == (p[a].x - p[a].x) * dx + (p[a].y - p[a].y) * dy,
            ;
            assert(al == q) by (nonlinear_arith)
                requires
                    al == (p[a].x - p[b].x) * (p[a].x - p[b].x) + (p[a].y - p[b].y) * (p[a].y
                        - p[b].y),
                    q == dx * dx + dy * dy,
                    dx == p[b].x - p[a].x,
                    dy == p[b].y - p[a].y,
            ;
            assert(raise(b) * be == 0) by (nonlinear_arith)
                requires
                    be == 0,
            ;
            assert(slant(p, a, b, m) == q * (raise(m) - raise(a))) by (nonlinear_arith)
                requires
                    slant(p, a, b, m) == q * raise(m) - raise(a) * al - raise(b) * be,
                    al == q,
                    raise(b) * be == 0,
            ;
            if a < m {
                lemma_raise_grows(a, m);
            } else {
                lemma_raise_grows(m, a);
            }
            let gap = raise(m) - raise(a);
            assert((gap > 0 ==> q * gap > 0) && (gap < 0 ==> q * gap < 0)) by (nonlinear_arith)
                requires
                    q > 0,
            ;
        } else {
            assert(al == 0) by (nonlinear_arith)
                requires
                    al == (p[b].x - p[b].x) * (0 - dx) + (p[b].y - p[b].y) * (0 - dy),
            ;
            assert(be == q);
            assert(raise(a) * al == 0) by (nonlinear_arith)
                requires
                    al == 0,
            ;
            assert(slant(p, a, b, m) == q * (raise(m) - raise(b))) by (nonlinear_arith)
                requires
                    slant(p, a, b, m) == q * raise(m) - raise(a) * al - raise(b) * be,
                    be == q,
                    raise(a) * al == 0,
            ;
            if b < m {
                lemma_raise_grows(b, m);
            } else {
                lemma_raise_grows(m, b);
            }
            let gap = raise(m) - raise(b);
            assert((gap > 0 ==> q * gap > 0) && (gap < 0 ==> q * gap < 0)) by (nonlinear_arith)
                requires
                    q > 0,
            ;
        }
    }
}

/// Each end of an edge sees the two ends at a right angle, in the sense of
/// the inner product.
pub proof fn lemma_ends_of_the_edge(a: Point, b: Point, m: Point)
    ensures
        m == a || m == b ==> dot(m, a, b) == 0,
{
    if m == a {
        assert(dot(m, a, b) == 0) by (nonlinear_arith)
            requires
                dot(m, a, b) == (a.x - a.x) * (b.x - a.x) + (a.y - a.y) * (b.y - a.y),
        ;
    }
    if m == b {
        assert(dot(m, a, b) == 0) by (nonlinear_arith)
            requires
                dot(m, a, b) == (a.x - b.x) * (b.x - b.x) + (a.y - b.y) * (b.y - b.y),
        ;
    }
}

} // verus!
