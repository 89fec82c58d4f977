//! Sums over the pairs of indices of a square.

use vstd::prelude::*;

verus! {

/// `g(i, 0) + ... + g(i, n - 1)`.
pub open spec fn row_sum(g: spec_fn(int, int) -> int, i: int, n: int) -> int
    decreases n,
{
    if n <= 0 {
        0
    } else {
        row_sum(g, i, n - 1) + g(i, n - 1)
    }
}

/// The sum of `g(i, j)` over `0 <= i < m` and `0 <= j < n`.
pub open spec fn rect_sum(g: spec_fn(int, int) -> int, m: int, n: int) -> int
    decreases m,
{
    if m <= 0 {
        0
    } else {
        rect_sum(g, m - 1, n) + row_sum(g, m - 1, n)
    }
}

/// The function that is `v` at `(i0, j0)` and zero elsewhere.
pub open spec fn cell(i0: int, j0: int, v: int) -> spec_fn(int, int) -> int {
    |i: int, j: int|
        if i == i0 && j == j0 {
            v
        } else {
            0
        }
}

/// The function `g` with its arguments exchanged.
pub open spec fn flip(g: spec_fn(int, int) -> int) -> spec_fn(int, int) -> int {
    |i: int, j: int| g(j, i)
}

pub proof fn lemma_row_add(
    h: spec_fn(int, int) -> int,
    f: spec_fn(int, int) -> int,
    g: spec_fn(int, int) -> int,
    i: int,
    n: int,
)
    requires
        forall|j: int| 0 <= j < n ==> #[trigger] h(i, j) == f(i, j) + g(i, j),
    ensures
        row_sum(h, i, n) == row_sum(f, i, n) + row_sum(g, i, n),
    decreases n,
{
    if n > 0 {
        lemma_row_add(h, f, g, i, n - 1);
    }
}

/// The sum of a sum of two functions is the sum of their sums.
pub proof fn lemma_rect_add(
    h: spec_fn(int, int) -> int,
    f: spec_fn(int, int) -> int,
    g: spec_fn(int, int) -> int,
    m: int,
    n: int,
)
    requires
        forall|i: int, j: int|
            0 <= i < m && 0 <= j < n ==> #[trigger] h(i, j) == f(i, j) + g(i, j),
    ensures
        rect_sum(h, m, n) == rect_sum(f, m, n) + rect_sum(g, m, n),
    decreases m,
{
    if m > 0 {
        lemma_rect_add(h, f, g, m - 1, n);
        lemma_row_add(h, f, g, m - 1, n);
    }
}

pub proof fn lemma_row_eq(f: spec_fn(int, int) -> int, g: spec_fn(int, int) -> int, i: int, n: int)
    requires
        forall|j: int| 0 <= j < n ==> #[trigger] f(i, j) == g(i, j),
    ensures
        row_sum(f, i, n) == row_sum(g, i, n),
    decreases n,
{
    if n > 0 {
        lemma_row_eq(f, g, i, n - 1);
    }
}

/// Functions that agree on the rectangle have the same sum.
pub proof fn lemma_rect_eq(f: spec_fn(int, int) -> int, g: spec_fn(int, int) -> int, m: int, n: int)
    requires
        forall|i: int, j: int| 0 <= i < m && 0 <= j < n ==> #[trigger] f(i, j) == g(i, j),
    ensures
        rect_sum(f, m, n) == rect_sum(g, m, n),
    decreases m,
{
    if m > 0 {
        lemma_rect_eq(f, g, m - 1, n);
        lemma_row_eq(f, g, m - 1, n);
    }
}

pub proof fn lemma_row_of_cell(i0: int, j0: int, v: int, i: int, n: int)
    ensures
        row_sum(cell(i0, j0, v), i, n) == (if i == i0 && 0 <= j0 < n {
            v
        } else {
            0
        }),
    decreases n,
{
    if n > 0 {
        lemma_row_of_cell(i0, j0, v, i, n - 1);
    }
}

/// The sum of a function with one cell is the value of the cell.
pub proof fn lemma_rect_of_cell(i0: int, j0: int, v: int, m: int, n: int)
    ensures
        rect_sum(cell(i0, j0, v), m, n) == (if 0 <= i0 < m && 0 <= j0 < n {
            v
        } else {
            0
        }),
    decreases m,
{
    if m > 0 {
        lemma_rect_of_cell(i0, j0, v, m - 1, n);
        lemma_row_of_cell(i0, j0, v, m - 1, n);
    }
}

/// Summing by rows or by columns gives the same.
pub proof fn lemma_rect_flip(g: spec_fn(int, int) -> int, m: int, n: int)
    requires
        0 <= m,
        0 <= n,
    ensures
        rect_sum(g, m, n) == rect_sum(flip(g), n, m),
    decreases m,
{
    if m == 0 {
        lemma_rect_of_no_columns(flip(g), n);
    } else {
        lemma_rect_flip(g, m - 1, n);
        lemma_rect_with_one_more_column(flip(g), g, n, m);
    }
}

pub proof fn lemma_rect_of_no_columns(f: spec_fn(int, int) -> int, n: int)
    ensures
        rect_sum(f, n, 0) == 0,
    decreases n,
{
    if n > 0 {
        lemma_rect_of_no_columns(f, n - 1);
    }
}

/// Adding column `m - 1` to `f` adds row `m - 1` of `g`, where `f` is `g`
/// with its arguments exchanged.
pub proof fn lemma_rect_with_one_more_column(
    f: spec_fn(int, int) -> int,
    g: spec_fn(int, int) -> int,
    n: int,
    m: int,
)
    requires
        m > 0,
        0 <= n,
        forall|i: int, j: int| #[trigger] f(i, j) == g(j, i),
    ensures
        rect_sum(f, n, m) == rect_sum(f, n, m - 1) + row_sum(g, m - 1, n),
    decreases n,
{
    if n > 0 {
        lemma_rect_with_one_more_column(f, g, n - 1, m);
        assert(f(n - 1, m - 1) == g(m - 1, n - 1));
    }
}

} // verus!
