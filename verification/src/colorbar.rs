//! The legend strip: evenly spaced swatches of a gradient over a value range.

use vstd::prelude::*;
use crate::arith::lemma_product_bound;
use crate::color::{color_discrete, gradient_rgb, Gradient, Rgb};
use crate::normalize::ValueRange;
use crate::ratio::Ratio;

verus! {

/// One rectangle of the strip.  It reaches from `x0` to `x1` along the value
/// axis and from 0 to 1 across it.
#[derive(Clone, Copy, Debug, PartialEq, Eq, Structural)]
pub struct Swatch {
    pub x0: Ratio,
    pub x1: Ratio,
    pub color: Rgb,
}

/// The left edge of swatch `k` of `n`: `min + k * (max - min) / (n - 1)`, as
/// a fraction over `n - 1`.
pub open spec fn swatch_edge(range: ValueRange, n: int, k: int) -> Ratio {
    Ratio {
        num: (range.min * (n - 1) + k * (range.max - range.min)) as i128,
        den: (n - 1) as i128,
    }
}

/// Swatch `k` of the strip of `n` swatches of `gradient` over `range`.
pub open spec fn swatch(range: ValueRange, gradient: Gradient, n: int, k: int) -> Swatch {
    Swatch {
        x0: swatch_edge(range, n, k),
        x1: swatch_edge(range, n, k + 1),
        color: gradient_rgb(gradient, k, n),
    }
}

/// The strip of `n` swatches of `gradient` over `range`.
pub open spec fn strip(range: ValueRange, gradient: Gradient, n: int) -> Seq<Swatch> {
    Seq::new(n as nat, |k: int| swatch(range, gradient, n, k))
}

#[verifier::rlimit(50)]
proof fn lemma_edge_fits(range: ValueRange, n: int, k: int)
    requires
        2 <= n <= usize::MAX,
        0 <= k <= n,
    ensures
        -0x1_0000_0000_0000_0000_0000_0000 <= range.min * (n - 1)
            <= 0x1_0000_0000_0000_0000_0000_0000,
        -0x1_0000_0000_0000_0000_0000_0000 <= k * (range.max - range.min)
            <= 0x1_0000_0000_0000_0000_0000_0000,
{
    lemma_product_bound(range.min as int, n - 1, 0x1_0000_0000, 0x1_0000_0000_0000_0000);
    lemma_product_bound(k, range.max - range.min, 0x1_0000_0000_0000_0000, 0x1_0000_0000);
}

/// The swatches are adjacent, the first begins at the least value of the
/// range and the last begins at the greatest.
#[verifier::rlimit(50)]
pub proof fn lemma_strip_spans_range(range: ValueRange, gradient: Gradient, n: int)
    requires
        2 <= n <= usize::MAX,
    ensures
        forall|k: int|
            0 <= k < n - 1 ==> (#[trigger] strip(range, gradient, n)[k]).x1 == strip(
                range,
                gradient,
                n,
            )[k + 1].x0,
        strip(range, gradient, n)[0].x0.num == range.min * (n - 1),
        strip(range, gradient, n)[n - 1].x0.num == range.max * (n - 1),
        forall|k: int| 0 <= k < n ==> (#[trigger] strip(range, gradient, n)[k]).x0.den == n - 1,
{
    lemma_edge_fits(range, n, 0);
    lemma_edge_fits(range, n, n - 1);
    assert(0 * (range.max - range.min) == 0);
    assert(range.min * (n - 1) + (n - 1) * (range.max - range.min) == range.max * (n - 1))
        by (nonlinear_arith);
}

/// Computes `swatch_edge`.
fn edge(range: ValueRange, n: usize, k: usize) -> (e: Ratio)
    requires
        2 <= n,
        k <= n,
    ensures
        e == swatch_edge(range, n as int, k as int),
        e.wf(),
{
    let lo = range.min as i128;
    let hi = range.max as i128;
    let steps = n as i128 - 1;
    proof {
        lemma_edge_fits(range, n as int, k as int);
    }
    Ratio { num: lo * steps + (k as i128) * (hi - lo), den: steps }
}

/// Lays out the legend strip of `gradient` over `range`.
///
/// The strip has `n_swatches` adjacent rectangles of width
/// `(max - min) / (n_swatches - 1)`; swatch `k` begins at
/// `min + k * (max - min) / (n_swatches - 1)` and has the colour of the
/// gradient at `k / (n_swatches - 1)`.
pub fn synthesize(range: ValueRange, gradient: Gradient, n_swatches: usize) -> (swatches: Vec<
    Swatch,
>)
    requires
        n_swatches >= 2,
    ensures
        swatches@ == strip(range, gradient, n_swatches as int),
{
    let mut swatches: Vec<Swatch> = Vec::new();
    let mut k: usize = 0;
    while k < n_swatches
        invariant
            k <= n_swatches,
            2 <= n_swatches,
            swatches.len() == k,
            forall|x: int|
                0 <= x < k ==> #[trigger] swatches[x] == swatch(
                    range,
                    gradient,
                    n_swatches as int,
                    x,
                ),
        decreases n_swatches - k,
    {
        let x0 = edge(range, n_swatches, k);
        let x1 = edge(range, n_swatches, k + 1);
        let color = color_discrete(gradient, k, n_swatches);
        swatches.push(Swatch { x0, x1, color });
        k += 1;
    }
    assert(swatches@ =~= strip(range, gradient, n_swatches as int));
    swatches
}

} // verus!
