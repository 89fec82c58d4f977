//! Axis intervals and the extent of a set of coordinates.

use vstd::prelude::*;
use crate::error::MeshError;
use crate::geometry::Point;

verus! {

/// The interval of an axis, from `start` to `end`.
#[derive(Clone, Copy, Debug, PartialEq, Eq, Structural)]
pub struct Interval {
    pub start: i32,
    pub end: i32,
}

impl Interval {
    /// The interval has a positive length.
    pub open spec fn has_extent(self) -> bool {
        self.start < self.end
    }
}

/// The abscissae of `p`.
pub open spec fn xs(p: Seq<Point>) -> Seq<i32> {
    Seq::new(p.len(), |i: int| p[i].x)
}

/// The ordinates of `p`.
pub open spec fn ys(p: Seq<Point>) -> Seq<i32> {
    Seq::new(p.len(), |i: int| p[i].y)
}

/// `lo` is the least and `hi` the greatest element of `s`.
pub open spec fn spans(s: Seq<i32>, lo: i32, hi: i32) -> bool {
    &&& forall|i: int| 0 <= i < s.len() ==> lo <= #[trigger] s[i] <= hi
    &&& s.contains(lo)
    &&& s.contains(hi)
}

/// `x` and `y` are the sides of the smallest axis-parallel box around `p`.
pub open spec fn is_bounding_box(p: Seq<Point>, x: Interval, y: Interval) -> bool {
    &&& spans(xs(p), x.start, x.end)
    &&& spans(ys(p), y.start, y.end)
}

/// The interval an axis gets: the caller's where there is one, else the
/// measured one, which must then exist and have a positive length.
pub open spec fn axis_interval(given: Option<Interval>, measured: Option<Interval>) -> Result<
    Interval,
    MeshError,
> {
    match given {
        Some(interval) => Ok(interval),
        None => match measured {
            Some(interval) => if interval.has_extent() {
                Ok(interval)
            } else {
                Err(MeshError::DegenerateAxisRange)
            },
            None => Err(MeshError::DegenerateAxisRange),
        },
    }
}

/// What spans a sequence is unique.
pub proof fn lemma_spans_is_unique(s: Seq<i32>, lo: i32, hi: i32, lo2: i32, hi2: i32)
    requires
        spans(s, lo, hi),
        spans(s, lo2, hi2),
    ensures
        lo == lo2,
        hi == hi2,
{
    let a = choose|i: int| 0 <= i < s.len() && s[i] == lo;
    let b = choose|i: int| 0 <= i < s.len() && s[i] == lo2;
    let c = choose|i: int| 0 <= i < s.len() && s[i] == hi;
    let d = choose|i: int| 0 <= i < s.len() && s[i] == hi2;
    assert(lo2 <= s[a] && lo <= s[b] && s[c] <= hi2 && s[d] <= hi);
}

/// The least and the greatest element of `values`, if there is any element.
pub fn extent(values: &Vec<i32>) -> (r: Option<Interval>)
    ensures
        r is None <==> values.len() == 0,
        r matches Some(e) ==> spans(values@, e.start, e.end),
{
    if values.len() == 0 {
        return None;
    }
    let mut lo: i32 = values[0];
    let mut hi: i32 = values[0];
    let mut i: usize = 1;
    while i < values.len()
        invariant
            1 <= i <= values.len(),
            forall|x: int| 0 <= x < i ==> lo <= #[trigger] values[x] <= hi,
            exists|x: int| 0 <= x < i && #[trigger] values[x] == lo,
            exists|x: int| 0 <= x < i && #[trigger] values[x] == hi,
        decreases values.len() - i,
    {
        let v = values[i];
        if v < lo {
            lo = v;
        }
        if v > hi {
            hi = v;
        }
        i += 1;
    }
    Some(Interval { start: lo, end: hi })
}

/// The smallest axis-parallel box around `points`, if there is any point.
pub fn bounding_box(points: &Vec<Point>) -> (r: Option<(Interval, Interval)>)
    ensures
        r is None <==> points.len() == 0,
        r matches Some((x, y)) ==> is_bounding_box(points@, x, y),
{
    if points.len() == 0 {
        return None;
    }
    let first = points[0];
    let mut x = Interval { start: first.x, end: first.x };
    let mut y = Interval { start: first.y, end: first.y };
    let mut i: usize = 1;
    proof {
        assert(xs(points@)[0] == first.x);
        assert(ys(points@)[0] == first.y);
    }
    while i < points.len()
        invariant
            1 <= i <= points.len(),
            forall|k: int| 0 <= k < i ==> x.start <= #[trigger] xs(points@)[k] <= x.end,
            forall|k: int| 0 <= k < i ==> y.start <= #[trigger] ys(points@)[k] <= y.end,
            exists|k: int| 0 <= k < i && #[trigger] xs(points@)[k] == x.start,
            exists|k: int| 0 <= k < i && #[trigger] xs(points@)[k] == x.end,
            exists|k: int| 0 <= k < i && #[trigger] ys(points@)[k] == y.start,
            exists|k: int| 0 <= k < i && #[trigger] ys(points@)[k] == y.end,
        decreases points.len() - i,
    {
        let p = points[i];
        proof {
            assert(xs(points@)[i as int] == p.x);
            assert(ys(points@)[i as int] == p.y);
        }
        if p.x < x.start {
            x.start = p.x;
        }
        if p.x > x.end {
            x.end = p.x;
        }
        if p.y < y.start {
            y.start = p.y;
        }
        if p.y > y.end {
            y.end = p.y;
        }
        i += 1;
    }
    Some((x, y))
}

/// Chooses the interval of one axis.
///
/// A given interval is taken as it is.  Without one the measured interval is
/// taken, and the call fails with `DegenerateAxisRange` when nothing was
/// measured or the measured interval has no positive length.
pub fn choose_interval(given: Option<Interval>, measured: Option<Interval>) -> (r: Result<
    Interval,
    MeshError,
>)
    ensures
        r == axis_interval(given, measured),
{
    match given {
        Some(interval) => Ok(interval),
        None => match measured {
            Some(interval) => if interval.start < interval.end {
                Ok(interval)
            } else {
                Err(MeshError::DegenerateAxisRange)
            },
            None => Err(MeshError::DegenerateAxisRange),
        },
    }
}


/// What spans two sequences spans the two of them joined.
pub proof fn lemma_spans_joined(a: Seq<i32>, b: Seq<i32>, x: Interval, y: Interval)
    requires
        spans(a, x.start, x.end),
        spans(b, y.start, y.end),
    ensures
        spans(
            a + b,
            if x.start <= y.start {
                x.start
            } else {
                y.start
            },
            if x.end >= y.end {
                x.end
            } else {
                y.end
            },
        ),
{
    let s = a + b;
    let a_lo = choose|i: int| 0 <= i < a.len() && a[i] == x.start;
    let a_hi = choose|i: int| 0 <= i < a.len() && a[i] == x.end;
    let b_lo = choose|i: int| 0 <= i < b.len() && b[i] == y.start;
    let b_hi = choose|i: int| 0 <= i < b.len() && b[i] == y.end;
    assert(s[a_lo] == x.start && s[a_hi] == x.end);
    assert(s[a.len() + b_lo] == y.start && s[a.len() + b_hi] == y.end);
    assert forall|i: int| 0 <= i < s.len() implies (if x.start <= y.start {
        x.start
    } else {
        y.start
    }) <= #[trigger] s[i] <= (if x.end >= y.end {
        x.end
    } else {
        y.end
    }) by {
        if i < a.len() {
            assert(s[i] == a[i]);
        } else {
            assert(s[i] == b[i - a.len()]);
        }
    }
}

/// The smallest interval that holds both `x` and `y`.
pub fn hull(x: Interval, y: Interval) -> (r: Interval)
    ensures
        r.start == (if x.start <= y.start {
            x.start
        } else {
            y.start
        }),
        r.end == (if x.end >= y.end {
            x.end
        } else {
            y.end
        }),
{
    Interval {
        start: if x.start <= y.start {
            x.start
        } else {
            y.start
        },
        end: if x.end >= y.end {
            x.end
        } else {
            y.end
        },
    }
}

} // verus!
