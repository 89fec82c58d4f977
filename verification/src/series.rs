//! Tabular data: rows of one abscissa and several ordinates, and the series
//! that are drawn from them.

use vstd::prelude::*;
use crate::axis::{extent, spans, Interval};
use crate::error::MeshError;
use crate::geometry::Point;
use crate::render::{has_spread, lemma_spread_of_spanned};

verus! {

/// The abscissae of the rows.
pub open spec fn row_xs(rows: Seq<(i32, Vec<i32>)>) -> Seq<i32> {
    Seq::new(rows.len(), |i: int| rows[i].0)
}

/// The ordinates of all rows, row after row.
pub open spec fn all_ys(rows: Seq<(i32, Vec<i32>)>) -> Seq<i32>
    decreases rows.len(),
{
    if rows.len() == 0 {
        Seq::empty()
    } else {
        all_ys(rows.drop_last()) + rows.last().1@
    }
}

/// The data points of one row: its abscissa paired with each of its ordinates.
pub open spec fn row_points(row: (i32, Vec<i32>)) -> Seq<Point> {
    Seq::new(row.1.len() as nat, |j: int| Point { x: row.0, y: row.1[j] })
}

/// The data points of all rows, row after row.
pub open spec fn data_points(rows: Seq<(i32, Vec<i32>)>) -> Seq<Point>
    decreases rows.len(),
{
    if rows.len() == 0 {
        Seq::empty()
    } else {
        data_points(rows.drop_last()) + row_points(rows.last())
    }
}

/// The number of series: the number of ordinates of the first row.
pub open spec fn series_count(rows: Seq<(i32, Vec<i32>)>) -> nat {
    if rows.len() == 0 {
        0
    } else {
        rows[0].1.len() as nat
    }
}

/// How many elements of a sequence of length `len` are at the positions
/// `k`, `k + step`, `k + 2 * step`, and so on.
pub open spec fn stride_len(len: int, k: int, step: int) -> nat {
    if 0 <= k < len && step > 0 {
        (((len - k - 1) / step) + 1) as nat
    } else {
        0
    }
}

/// The elements of `flat` at the positions `k`, `k + step`, `k + 2 * step`,
/// and so on.
pub open spec fn every_nth(flat: Seq<Point>, k: int, step: int) -> Seq<Point> {
    Seq::new(stride_len(flat.len() as int, k, step), |t: int| flat[k + t * step])
}

/// Series `k` of the rows: every `series_count`-th data point from the
/// `k`-th on.
pub open spec fn series(rows: Seq<(i32, Vec<i32>)>, k: int) -> Seq<Point> {
    every_nth(data_points(rows), k, series_count(rows) as int)
}

/// Every row has `n` ordinates.
pub open spec fn is_rectangular(rows: Seq<(i32, Vec<i32>)>, n: int) -> bool {
    forall|i: int| 0 <= i < rows.len() ==> (#[trigger] rows[i]).1.len() == n
}

#[verifier::rlimit(50)]
proof fn lemma_rectangular_points(rows: Seq<(i32, Vec<i32>)>, n: int, t: int, k: int)
    requires
        is_rectangular(rows, n),
        0 <= t < rows.len(),
        0 <= k < n,
    ensures
        data_points(rows).len() == rows.len() * n,
        0 <= t * n + k < rows.len() * n,
        data_points(rows)[t * n + k] == (Point { x: rows[t].0, y: rows[t].1[k] }),
    decreases rows.len(),
{
    let front = rows.drop_last();
    let last = rows.last();
    assert forall|i: int| 0 <= i < front.len() implies (#[trigger] front[i]).1.len() == n by {
        assert(front[i] == rows[i]);
    }
    assert(last == rows[rows.len() - 1]);
    assert(row_points(last).len() == n);
    if front.len() == 0 {
        assert(data_points(front).len() == 0);
        assert(front.len() * n == 0);
    } else {
        lemma_rectangular_points(front, n, 0, k);
    }
    assert(rows.len() * n == front.len() * n + n) by (nonlinear_arith)
        requires
            rows.len() == front.len() + 1,
    ;
    assert(0 <= t * n + k < rows.len() * n) by (nonlinear_arith)
        requires
            0 <= t < rows.len(),
            0 <= k < n,
    ;
    if t < front.len() {
        lemma_rectangular_points(front, n, t, k);
        assert(front[t] == rows[t]);
    } else {
        assert(t * n == front.len() * n);
        assert(data_points(rows)[t * n + k] == row_points(last)[k]);
    }
}

/// When every row has as many ordinates as the first, series `k` pairs the
/// abscissa of each row with the `k`-th ordinate of that row.
#[verifier::rlimit(50)]
pub proof fn lemma_series_of_rectangular_rows(rows: Seq<(i32, Vec<i32>)>, k: int)
    requires
        is_rectangular(rows, series_count(rows) as int),
        0 <= k < series_count(rows),
    ensures
        series(rows, k).len() == rows.len(),
        forall|t: int|
            0 <= t < rows.len() ==> #[trigger] series(rows, k)[t] == (Point {
                x: rows[t].0,
                y: rows[t].1[k],
            }),
{
    let n = series_count(rows) as int;
    let len = data_points(rows).len() as int;
    lemma_rectangular_points(rows, n, 0, k);
    assert(len == rows.len() * n);
    assert((len - k - 1) / n == rows.len() - 1) by (nonlinear_arith)
        requires
            len == rows.len() * n,
            0 <= k < n,
            rows.len() >= 1,
    ;
    assert forall|t: int| 0 <= t < rows.len() implies #[trigger] series(rows, k)[t] == (Point {
        x: rows[t].0,
        y: rows[t].1[k],
    }) by {
        lemma_rectangular_points(rows, n, t, k);
        assert(k + t * n == t * n + k);
    }
}

/// The abscissae of the rows.
pub fn abscissae(rows: &Vec<(i32, Vec<i32>)>) -> (r: Vec<i32>)
    ensures
        r@ == row_xs(rows@),
{
    let mut r: Vec<i32> = Vec::new();
    let mut i: usize = 0;
    while i < rows.len()
        invariant
            i <= rows.len(),
            r.len() == i,
            forall|k: int| 0 <= k < i ==> #[trigger] r[k] == rows[k].0,
        decreases rows.len() - i,
    {
        r.push(rows[i].0);
        i += 1;
    }
    assert(r@ =~= row_xs(rows@));
    r
}

/// The ordinates of all rows, row after row.
pub fn ordinates(rows: &Vec<(i32, Vec<i32>)>) -> (r: Vec<i32>)
    ensures
        r@ == all_ys(rows@),
{
    let mut r: Vec<i32> = Vec::new();
    let mut i: usize = 0;
    while i < rows.len()
        invariant
            i <= rows.len(),
            r@ == all_ys(rows@.take(i as int)),
        decreases rows.len() - i,
    {
        let ys = &rows[i].1;
        let ghost before = r@;
        let mut j: usize = 0;
        while j < ys.len()
            invariant
                j <= ys.len(),
                r@ == before + ys@.take(j as int),
            decreases ys.len() - j,
        {
            r.push(ys[j]);
            assert(ys@.take(j + 1) =~= ys@.take(j as int).push(ys[j as int]));
            assert(r@ =~= before + ys@.take(j + 1));
            j += 1;
        }
        proof {
            assert(ys@.take(ys.len() as int) =~= ys@);
            assert(rows@.take(i + 1).drop_last() =~= rows@.take(i as int));
            assert(rows@.take(i + 1).last() == rows[i as int]);
        }
        i += 1;
    }
    assert(rows@.take(rows.len() as int) =~= rows@);
    r
}

/// The data points of all rows, row after row.
pub fn points_of(rows: &Vec<(i32, Vec<i32>)>) -> (r: Vec<Point>)
    ensures
        r@ == data_points(rows@),
{
    let mut r: Vec<Point> = Vec::new();
    let mut i: usize = 0;
    while i < rows.len()
        invariant
            i <= rows.len(),
            r@ == data_points(rows@.take(i as int)),
        decreases rows.len() - i,
    {
        let x = rows[i].0;
        let ys = &rows[i].1;
        let ghost before = r@;
        let mut j: usize = 0;
        while j < ys.len()
            invariant
                j <= ys.len(),
                x == rows[i as int].0,
                ys@ == rows[i as int].1@,
                r@ == before + row_points(rows[i as int]).take(j as int),
            decreases ys.len() - j,
        {
            r.push(Point { x, y: ys[j] });
            assert(r@ =~= before + row_points(rows[i as int]).take(j + 1));
            j += 1;
        }
        proof {
            assert(row_points(rows[i as int]).take(ys.len() as int) =~= row_points(
                rows[i as int],
            ));
            assert(rows@.take(i + 1).drop_last() =~= rows@.take(i as int));
            assert(rows@.take(i + 1).last() == rows[i as int]);
        }
        i += 1;
    }
    assert(rows@.take(rows.len() as int) =~= rows@);
    r
}

/// The elements of `flat` at the positions `k`, `k + step`, `k + 2 * step`,
/// and so on.
#[verifier::rlimit(50)]
pub fn take_every_nth(flat: &Vec<Point>, k: usize, step: usize) -> (r: Vec<Point>)
    requires
        step > 0,
    ensures
        r@ == every_nth(flat@, k as int, step as int),
{
    let mut r: Vec<Point> = Vec::new();
    let len = flat.len();
    if k >= len {
        assert(r@ =~= every_nth(flat@, k as int, step as int));
        return r;
    }
    let mut at: usize = k;
    let ghost mut t: int = 0;
    let ghost total = stride_len(len as int, k as int, step as int) as int;
    proof {
        assert(0 <= (len - k - 1) / (step as int)) by (nonlinear_arith)
            requires
                len - k - 1 >= 0,
                step > 0,
        ;
    }
    loop
        invariant_except_break
            at < len,
            at == k + t * step,
            0 <= t < total,
        invariant
            len == flat.len(),
            k < len,
            step > 0,
            total == stride_len(len as int, k as int, step as int),
            r.len() == t,
            forall|x: int| 0 <= x < r.len() ==> #[trigger] r[x] == flat[k + x * step],
        ensures
            r.len() == total,
        decreases len - at,
    {
        r.push(flat[at]);
        proof {
            t = t + 1;
            assert((t - 1) * step + step == t * step) by (nonlinear_arith);
        }
        if step >= len - at {
            proof {
                // No further position is inside the sequence.
                assert(t == total) by (nonlinear_arith)
                    requires
                        at == k + (t - 1) * step,
                        at < len,
                        at + step >= len,
                        step > 0,
                        k >= 0,
                        t >= 1,
                        total == ((len - k - 1) / (step as int)) + 1,
                ;
            }
            break ;
        }
        proof {
            assert(t < total) by (nonlinear_arith)
                requires
                    at == k + (t - 1) * step,
                    at + step < len,
                    step > 0,
                    t >= 1,
                    total == ((len - k - 1) / (step as int)) + 1,
            ;
        }
        at = at + step;
    }
    assert(r@ =~= every_nth(flat@, k as int, step as int));
    r
}

/// The series of the rows, one per ordinate of the first row.
pub fn split_series(rows: &Vec<(i32, Vec<i32>)>) -> (r: Vec<Vec<Point>>)
    ensures
        r.len() == series_count(rows@),
        forall|k: int| 0 <= k < r.len() ==> (#[trigger] r[k])@ == series(rows@, k),
{
    let mut r: Vec<Vec<Point>> = Vec::new();
    if rows.len() == 0 {
        return r;
    }
    let count = rows[0].1.len();
    let flat = points_of(rows);
    let mut k: usize = 0;
    while k < count
        invariant
            k <= count,
            count == series_count(rows@),
            flat@ == data_points(rows@),
            r.len() == k,
            forall|x: int| 0 <= x < k ==> (#[trigger] r[x])@ == series(rows@, x),
        decreases count - k,
    {
        r.push(take_every_nth(&flat, k, count));
        k += 1;
    }
    r
}

/// The greatest abscissa and the greatest ordinate of the rows; none where
/// there is no abscissa or no ordinate.
pub fn xy_max(data: &Vec<(i32, Vec<i32>)>) -> (r: (Option<i32>, Option<i32>))
    ensures
        r.0 is None <==> row_xs(data@).len() == 0,
        r.1 is None <==> all_ys(data@).len() == 0,
        r.0 matches Some(m) ==> row_xs(data@).contains(m) && forall|i: int|
            0 <= i < row_xs(data@).len() ==> #[trigger] row_xs(data@)[i] <= m,
        r.1 matches Some(m) ==> all_ys(data@).contains(m) && forall|i: int|
            0 <= i < all_ys(data@).len() ==> #[trigger] all_ys(data@)[i] <= m,
{
    let x = extent(&abscissae(data));
    let y = extent(&ordinates(data));
    (
        match x {
            Some(e) => Some(e.end),
            None => None,
        },
        match y {
            Some(e) => Some(e.end),
            None => None,
        },
    )
}

/// The least abscissa and the least ordinate of the rows; none where there is
/// no abscissa or no ordinate.
pub fn xy_min(data: &Vec<(i32, Vec<i32>)>) -> (r: (Option<i32>, Option<i32>))
    ensures
        r.0 is None <==> row_xs(data@).len() == 0,
        r.1 is None <==> all_ys(data@).len() == 0,
        r.0 matches Some(m) ==> row_xs(data@).contains(m) && forall|i: int|
            0 <= i < row_xs(data@).len() ==> m <= #[trigger] row_xs(data@)[i],
        r.1 matches Some(m) ==> all_ys(data@).contains(m) && forall|i: int|
            0 <= i < all_ys(data@).len() ==> m <= #[trigger] all_ys(data@)[i],
{
    let x = extent(&abscissae(data));
    let y = extent(&ordinates(data));
    (
        match x {
            Some(e) => Some(e.start),
            None => None,
        },
        match y {
            Some(e) => Some(e.start),
            None => None,
        },
    )
}

/// The intervals that the abscissae and the ordinates of the rows span.
///
/// It fails with `DegenerateAxisRange` unless two abscissae differ and two
/// ordinates differ.
pub fn xy_range(data: &Vec<(i32, Vec<i32>)>) -> (r: Result<(Interval, Interval), MeshError>)
    ensures
        r is Ok <==> has_spread(row_xs(data@)) && has_spread(all_ys(data@)),
        r matches Err(e) ==> e == MeshError::DegenerateAxisRange,
        r matches Ok((x, y)) ==> spans(row_xs(data@), x.start, x.end) && spans(
            all_ys(data@),
            y.start,
            y.end,
        ) && x.has_extent() && y.has_extent(),
{
    let x = extent(&abscissae(data));
    let y = extent(&ordinates(data));
    match (x, y) {
        (Some(x), Some(y)) => {
            proof {
                lemma_spread_of_spanned(row_xs(data@), x.start, x.end);
                lemma_spread_of_spanned(all_ys(data@), y.start, y.end);
            }
            if x.start < x.end && y.start < y.end {
                Ok((x, y))
            } else {
                Err(MeshError::DegenerateAxisRange)
            }
        },
        _ => Err(MeshError::DegenerateAxisRange),
    }
}

} // verus!
