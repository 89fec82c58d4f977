use complot::error::MeshError;
use complot::geometry::{are_on_lattice, in_circle, orient, Point, LATTICE_MAX};
use complot::triangulation::{spans_triangle, Triangle, Triangulation};

fn pts(xy: &[(i32, i32)]) -> Vec<Point> {
    xy.iter().map(|&(x, y)| Point { x, y }).collect()
}

fn tri(a: usize, b: usize, c: usize) -> Triangle {
    Triangle { a, b, c }
}

fn cross(p: Point, q: Point, r: Point) -> i128 {
    (q.x as i128 - p.x as i128) * (r.y as i128 - p.y as i128)
        - (q.y as i128 - p.y as i128) * (r.x as i128 - p.x as i128)
}

/// Twice the area of the convex hull, by Andrew's monotone chain.
fn hull_area2(points: &[Point]) -> i128 {
    let mut p: Vec<Point> = points.to_vec();
    p.sort_by_key(|q| (q.x, q.y));
    p.dedup();
    if p.len() < 3 {
        return 0;
    }
    let mut lower: Vec<Point> = Vec::new();
    for &q in p.iter() {
        while lower.len() >= 2 && cross(lower[lower.len() - 2], lower[lower.len() - 1], q) <= 0 {
            lower.pop();
        }
        lower.push(q);
    }
    let mut upper: Vec<Point> = Vec::new();
    for &q in p.iter().rev() {
        while upper.len() >= 2 && cross(upper[upper.len() - 2], upper[upper.len() - 1], q) <= 0 {
            upper.pop();
        }
        upper.push(q);
    }
    lower.pop();
    upper.pop();
    lower.extend(upper);
    let mut area: i128 = 0;
    for i in 0..lower.len() {
        let a = lower[i];
        let b = lower[(i + 1) % lower.len()];
        area += a.x as i128 * b.y as i128 - a.y as i128 * b.x as i128;
    }
    area
}

fn triangles_area2(t: &Triangulation) -> i128 {
    let p = t.points();
    let sum = t.triangles().iter().map(|s| cross(p[s.a], p[s.b], p[s.c]).abs()).sum();
    assert_eq!(t.area2(), sum);
    sum
}

/// The squared distance of `d` from the circumcentre minus the squared radius,
/// scaled by a positive factor, computed apart from the library.
fn strictly_inside(a: Point, b: Point, c: Point, d: Point) -> bool {
    let f = |p: Point| (p.x as f64, p.y as f64);
    let (ax, ay) = f(a);
    let (bx, by) = f(b);
    let (cx, cy) = f(c);
    let (dx, dy) = f(d);
    let den = 2.0 * (ax * (by - cy) + bx * (cy - ay) + cx * (ay - by));
    let ux = ((ax * ax + ay * ay) * (by - cy)
        + (bx * bx + by * by) * (cy - ay)
        + (cx * cx + cy * cy) * (ay - by))
        / den;
    let uy = ((ax * ax + ay * ay) * (cx - bx)
        + (bx * bx + by * by) * (ax - cx)
        + (cx * cx + cy * cy) * (bx - ax))
        / den;
    let r2 = (ax - ux) * (ax - ux) + (ay - uy) * (ay - uy);
    let d2 = (dx - ux) * (dx - ux) + (dy - uy) * (dy - uy);
    d2 < r2 * (1.0 - 1e-9)
}

/// Whether the point `(x, y) / 3` lies strictly inside the triangle `a b c`.
fn holds_third(a: Point, b: Point, c: Point, x: i128, y: i128) -> bool {
    let side = |p: Point, q: Point| {
        (3 * q.x as i128 - 3 * p.x as i128) * (y - 3 * p.y as i128)
            - (3 * q.y as i128 - 3 * p.y as i128) * (x - 3 * p.x as i128)
    };
    let (u, v, w) = (side(a, b), side(b, c), side(c, a));
    (u > 0 && v > 0 && w > 0) || (u < 0 && v < 0 && w < 0)
}

/// The sides of the triangles, each directed so that its triangle lies to the
/// left.
fn directed_sides(t: &Triangulation) -> Vec<(usize, usize)> {
    let p = t.points();
    let mut sides = Vec::new();
    for s in t.triangles().iter() {
        let (a, b, c) = if cross(p[s.a], p[s.b], p[s.c]) > 0 {
            (s.a, s.b, s.c)
        } else {
            (s.a, s.c, s.b)
        };
        sides.extend([(a, b), (b, c), (c, a)]);
    }
    sides
}

/// The triangles cover the hull once: their areas add up to its area, the
/// centroid of each lies in no other, no side is used twice in one direction,
/// and a side used in one direction only has no point beyond it.
fn assert_tiling(t: &Triangulation) {
    let p = t.points();
    assert_eq!(triangles_area2(t), hull_area2(p));
    let sides = directed_sides(t);
    for (k, &(i, j)) in sides.iter().enumerate() {
        assert!(!sides[k + 1..].contains(&(i, j)));
        if !sides.contains(&(j, i)) {
            assert!(p.iter().all(|&m| cross(p[i], p[j], m) >= 0));
        }
    }
    for (i, s) in t.triangles().iter().enumerate() {
        let x = p[s.a].x as i128 + p[s.b].x as i128 + p[s.c].x as i128;
        let y = p[s.a].y as i128 + p[s.b].y as i128 + p[s.c].y as i128;
        for (j, u) in t.triangles().iter().enumerate() {
            assert_eq!(holds_third(p[u.a], p[u.b], p[u.c], x, y), i == j);
        }
    }
}

fn scattered(n: usize, seed: u64, span: i32) -> Vec<Point> {
    let mut state = seed;
    let mut next = move || {
        state = state.wrapping_mul(6364136223846793005).wrapping_add(1442695040888963407);
        ((state >> 33) % (2 * span as u64 + 1)) as i32 - span
    };
    (0..n)
        .map(|_| {
            let x = next();
            let y = next();
            Point { x, y }
        })
        .collect()
}

#[test]
fn orientation_is_twice_the_signed_area() {
    let a = Point { x: 0, y: 0 };
    let b = Point { x: 4, y: 0 };
    let c = Point { x: 0, y: 4 };
    assert_eq!(orient(a, b, c), 16);
    assert_eq!(orient(a, c, b), -16);
    assert_eq!(orient(a, b, Point { x: 9, y: 0 }), 0);
    let lo = Point { x: i32::MIN, y: i32::MIN };
    let hi = Point { x: i32::MAX, y: i32::MAX };
    let corner = Point { x: i32::MAX, y: i32::MIN };
    let side = (1i128 << 32) - 1;
    assert_eq!(orient(lo, corner, hi), side * side);
}

#[test]
fn in_circle_tells_inside_from_outside() {
    let a = Point { x: 0, y: 0 };
    let b = Point { x: 4, y: 0 };
    let c = Point { x: 0, y: 4 };
    assert_eq!(in_circle(a, b, c, Point { x: 1, y: 1 }), 96);
    assert_eq!(in_circle(a, b, c, Point { x: 4, y: 4 }), 0);
    assert!(in_circle(a, b, c, Point { x: 5, y: 5 }) < 0);
    assert!(in_circle(a, c, b, Point { x: 1, y: 1 }) < 0);
}

#[test]
fn in_circle_at_the_edge_of_the_lattice() {
    let m = LATTICE_MAX;
    let a = Point { x: -m, y: -m };
    let b = Point { x: m, y: -m };
    let c = Point { x: m, y: m };
    assert!(a.is_on_lattice() && b.is_on_lattice() && c.is_on_lattice());
    assert!(!Point { x: m + 1, y: 0 }.is_on_lattice());
    assert!(are_on_lattice(&vec![a, b, c]));
    assert!(are_on_lattice(&vec![]));
    assert!(!are_on_lattice(&vec![a, Point { x: 0, y: -m - 1 }, c]));
    assert_eq!(in_circle(a, b, c, Point { x: -m, y: m }), 0);
    assert!(in_circle(a, b, c, Point { x: 0, y: 0 }) > 0);
    // d at the centre: each row is (±m, ±m, 2 m^2), and the determinant 8 m^4.
    let m2 = m as i128 * m as i128;
    assert_eq!(in_circle(a, b, c, Point { x: 0, y: 0 }), 8 * m2 * m2);
}

#[test]
fn single_triangle() {
    let t = Triangulation::build(pts(&[(0, 0), (5, 0), (0, 5)])).unwrap();
    assert_eq!(t.triangles().clone(), vec![tri(0, 1, 2)]);
    assert_eq!(t.points().clone(), pts(&[(0, 0), (5, 0), (0, 5)]));
    assert_eq!(
        t.vertices(0),
        (Point { x: 0, y: 0 }, Point { x: 5, y: 0 }, Point { x: 0, y: 5 })
    );
}

#[test]
fn unit_square_has_two_triangles() {
    let t = Triangulation::build(pts(&[(0, 0), (1, 0), (0, 1), (1, 1)])).unwrap();
    assert_eq!(t.triangles().clone(), vec![tri(0, 1, 2), tri(1, 2, 3)]);
}

#[test]
fn cocircular_points_follow_the_order_of_insertion() {
    // The same square with the corners listed around it: the first three
    // corners make the first triangle, the fourth is joined across the far edge.
    let t = Triangulation::build(pts(&[(0, 0), (1, 0), (1, 1), (0, 1)])).unwrap();
    assert_eq!(t.triangles().clone(), vec![tri(0, 1, 2), tri(0, 2, 3)]);
    // A regular octagon's worth of lattice points on one circle.
    let ring = pts(&[(5, 0), (4, 3), (3, 4), (0, 5), (-3, 4), (-4, 3), (-5, 0), (0, -5)]);
    let t = Triangulation::build(ring.clone()).unwrap();
    assert_eq!(t.triangles().len(), 6);
    assert_eq!(triangles_area2(&t), hull_area2(&ring));
    assert_eq!(t.triangles()[0], tri(0, 1, 2));
}

#[test]
fn centre_of_a_rectangle_is_joined_to_its_corners() {
    // A flat rectangle with its centre: the centre is joined to all four
    // corners.
    let p = pts(&[(0, 0), (6, 0), (6, 2), (0, 2), (3, 1)]);
    let t = Triangulation::build(p.clone()).unwrap();
    assert_eq!(
        t.triangles().clone(),
        vec![tri(0, 1, 4), tri(0, 3, 4), tri(1, 2, 4), tri(2, 3, 4)]
    );
    assert_eq!(triangles_area2(&t), 24);
}

#[test]
fn area_of_the_triangles_is_the_area_of_the_hull() {
    let t = Triangulation::build(pts(&[(0, 0), (10, 0), (10, 10), (0, 10), (5, 5), (2, 7)]))
        .unwrap();
    assert_eq!(t.area2(), 200);
    let t = Triangulation::build(pts(&[(0, 0), (5, 0), (0, 5)])).unwrap();
    assert_eq!(t.area2(), 25);
    // A point far outside stretches the hull.
    let t = Triangulation::build(pts(&[(0, 0), (4, 0), (4, 4), (0, 4), (2, 2), (12, 2)])).unwrap();
    assert_eq!(t.area2(), 2 * 16 + 8 * 4);
    let m = 1 << 29;
    let t = Triangulation::build(pts(&[(-m, -m), (m, -m), (m, m), (-m, m)])).unwrap();
    assert_eq!(t.area2(), 2 * (2 * m as i128) * (2 * m as i128));
}

#[test]
fn collinear_points_are_degenerate() {
    let r = Triangulation::build(pts(&[(0, 0), (1, 1), (2, 2)]));
    assert_eq!(r.unwrap_err(), MeshError::DegenerateInput);
}

#[test]
fn too_few_points_are_degenerate() {
    assert_eq!(Triangulation::build(pts(&[])).unwrap_err(), MeshError::DegenerateInput);
    assert_eq!(Triangulation::build(pts(&[(1, 2)])).unwrap_err(), MeshError::DegenerateInput);
    assert_eq!(
        Triangulation::build(pts(&[(1, 2), (3, 4)])).unwrap_err(),
        MeshError::DegenerateInput
    );
}

#[test]
fn too_few_distinct_points_are_degenerate() {
    let r = Triangulation::build(pts(&[(1, 2), (3, 4), (1, 2), (3, 4), (3, 4)]));
    assert_eq!(r.unwrap_err(), MeshError::DegenerateInput);
    let r = Triangulation::build(pts(&[(7, 7), (7, 7), (7, 7)]));
    assert_eq!(r.unwrap_err(), MeshError::DegenerateInput);
}

#[test]
fn spans_triangle_finds_the_point_off_the_line() {
    assert!(!spans_triangle(&pts(&[(0, 0), (2, 1), (4, 2), (-6, -3)])));
    assert!(spans_triangle(&pts(&[(0, 0), (0, 0), (2, 1), (4, 2), (4, 3)])));
}

#[test]
fn repeated_points_use_the_first_occurrence() {
    let t = Triangulation::build(pts(&[(0, 0), (0, 0), (5, 0), (0, 5), (5, 0)])).unwrap();
    assert_eq!(t.triangles().clone(), vec![tri(0, 2, 3)]);
}

#[test]
fn vertices_are_distinct_points_of_the_input() {
    let p = scattered(30, 7, 50);
    let t = Triangulation::build(p.clone()).unwrap();
    assert!(!t.triangles().is_empty());
    for (i, s) in t.triangles().iter().enumerate() {
        assert!(s.a < s.b && s.b < s.c && s.c < p.len());
        let (a, b, c) = t.vertices(i);
        assert_eq!((a, b, c), (p[s.a], p[s.b], p[s.c]));
        assert!(a != b && b != c && a != c);
    }
}

#[test]
fn points_on_one_circle_in_any_order() {
    let ring = [
        (5, 0), (-5, 0), (0, 5), (0, -5), (3, 4), (-3, -4), (4, -3), (-4, 3), (4, 3), (-4, -3),
        (3, -4), (-3, 4),
    ];
    for turn in 0..ring.len() {
        let mut order: Vec<(i32, i32)> = ring.to_vec();
        order.rotate_left(turn);
        if turn % 2 == 1 {
            order.reverse();
        }
        order.swap(1, (turn * 5 + 3) % ring.len());
        let t = Triangulation::build(pts(&order)).unwrap();
        assert_eq!(t.triangles().len(), ring.len() - 2);
        assert_tiling(&t);
    }
}

#[test]
fn repeated_and_collinear_points_still_tile() {
    let p = pts(&[
        (0, 0), (4, 0), (2, 0), (0, 0), (4, 4), (2, 2), (0, 4), (2, 0), (1, 1), (3, 3), (2, 4),
        (4, 0), (0, 2), (4, 2),
    ]);
    let t = Triangulation::build(p).unwrap();
    assert_tiling(&t);
    // A repeated point is never a vertex under its later index.
    for s in t.triangles().iter() {
        assert!(s.a != 3 && s.b != 3 && s.b != 7 && s.c != 7 && s.c != 11);
    }
}

#[test]
fn triangles_tile_the_convex_hull() {
    for seed in 1..6u64 {
        let p = scattered(40, seed, 1000);
        let t = Triangulation::build(p.clone()).unwrap();
        assert_eq!(triangles_area2(&t), hull_area2(&p));
        assert_tiling(&t);
    }
    // Points so close together that many coincide or share lines and circles.
    for seed in 1..6u64 {
        let t = Triangulation::build(scattered(30, seed, 3)).unwrap();
        assert_tiling(&t);
    }
    // A lattice patch, where many points share circles and lines.
    let mut grid = Vec::new();
    for x in 0..5 {
        for y in 0..4 {
            grid.push(Point { x, y });
        }
    }
    let t = Triangulation::build(grid.clone()).unwrap();
    assert_eq!(t.triangles().len(), 2 * 4 * 3);
    assert_eq!(triangles_area2(&t), hull_area2(&grid));
}

#[test]
fn circumcircles_are_empty() {
    let p = scattered(40, 11, 1000);
    let t = Triangulation::build(p.clone()).unwrap();
    for s in t.triangles().iter() {
        for &d in p.iter() {
            assert!(!strictly_inside(p[s.a], p[s.b], p[s.c], d));
        }
    }
}

#[test]
fn triangles_come_in_lexicographic_order() {
    let p = scattered(25, 3, 100);
    let t = Triangulation::build(p).unwrap();
    let keys: Vec<(usize, usize, usize)> = t.triangles().iter().map(|s| (s.a, s.b, s.c)).collect();
    let mut sorted = keys.clone();
    sorted.sort();
    sorted.dedup();
    assert_eq!(keys, sorted);
}

#[test]
fn general_position_gives_the_same_triangles_in_any_order() {
    // No four of these points share a circle and no three a line.
    let p = pts(&[(0, 0), (10, 1), (3, 9), (12, 11), (6, 4), (-4, 7)]);
    let t = Triangulation::build(p.clone()).unwrap();
    let mut forward: Vec<[Point; 3]> = t
        .triangles()
        .iter()
        .map(|s| {
            let mut v = [p[s.a], p[s.b], p[s.c]];
            v.sort_by_key(|q| (q.x, q.y));
            v
        })
        .collect();
    let q: Vec<Point> = p.iter().rev().cloned().collect();
    let u = Triangulation::build(q.clone()).unwrap();
    let mut backward: Vec<[Point; 3]> = u
        .triangles()
        .iter()
        .map(|s| {
            let mut v = [q[s.a], q[s.b], q[s.c]];
            v.sort_by_key(|q| (q.x, q.y));
            v
        })
        .collect();
    forward.sort_by_key(|v| v.map(|q| (q.x, q.y)));
    backward.sort_by_key(|v| v.map(|q| (q.x, q.y)));
    assert_eq!(forward, backward);
    assert_eq!(triangles_area2(&t), hull_area2(&p));
}
