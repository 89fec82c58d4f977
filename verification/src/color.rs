//! Colours, the two perceptual gradients and the categorical palette.
//!
//! The gradients themselves are those of the `colorous` crate.  This module
//! decides where a gradient is sampled: it clamps positions to the unit
//! interval, gives missing values the sentinel colour, and cycles the palette.

use vstd::prelude::*;
use crate::ratio::Ratio;

verus! {

/// An opaque 24-bit colour.
#[derive(Clone, Copy, Debug, PartialEq, Eq, Structural)]
pub struct Rgb {
    pub r: u8,
    pub g: u8,
    pub b: u8,
}

/// The perceptual gradients the library can sample.
#[derive(Clone, Copy, Debug, PartialEq, Eq, Structural)]
pub enum Gradient {
    Viridis,
    Cividis,
}

/// Denominators from this bound on are halved before a gradient is sampled.
pub const GRID_LIMIT: i128 = 0x8000_0000;

/// The number of colours in the categorical palette.
pub const PALETTE_LEN: usize = 10;

/// The colour of `gradient` at sample `i` of `n` evenly spaced samples, that
/// is at position `i / (n - 1)`; defined for `i < n`.
pub uninterp spec fn gradient_rgb(gradient: Gradient, i: int, n: int) -> Rgb;

/// The sentinel colour of a missing value: pure black.
pub open spec fn sentinel() -> Rgb {
    Rgb { r: 0, g: 0, b: 0 }
}

/// The colour of `gradient` at position zero.
pub open spec fn gradient_start(gradient: Gradient) -> Rgb {
    gradient_rgb(gradient, 0, 2)
}

/// The colour of `gradient` at position one.
pub open spec fn gradient_end(gradient: Gradient) -> Rgb {
    gradient_rgb(gradient, 1, 2)
}

/// `num / den` with both halved, rounding down, until the denominator is
/// below `GRID_LIMIT`.
pub open spec fn coarsen(num: int, den: int) -> (int, int)
    decreases den,
{
    if den < GRID_LIMIT {
        (num, den)
    } else {
        coarsen(num / 2, den / 2)
    }
}

/// The colour of a normalised value: the sentinel for a missing value, the
/// gradient's start at or below zero, its end at or above one, and in between
/// the gradient at the coarsened position.
pub open spec fn continuous_color(gradient: Gradient, u: Option<Ratio>) -> Rgb {
    match u {
        None => sentinel(),
        Some(r) => if r.num <= 0 {
            gradient_start(gradient)
        } else if r.num >= r.den {
            gradient_end(gradient)
        } else {
            let (i, d) = coarsen(r.num as int, r.den as int);
            gradient_rgb(gradient, i, d + 1)
        },
    }
}

/// Colour `k` of the ten-colour Tableau palette.
pub open spec fn tableau10(k: int) -> Rgb {
    if k == 0 {
        Rgb { r: 0x4e, g: 0x79, b: 0xa7 }
    } else if k == 1 {
        Rgb { r: 0xf2, g: 0x8e, b: 0x2c }
    } else if k == 2 {
        Rgb { r: 0xe1, g: 0x57, b: 0x59 }
    } else if k == 3 {
        Rgb { r: 0x76, g: 0xb7, b: 0xb2 }
    } else if k == 4 {
        Rgb { r: 0x59, g: 0xa1, b: 0x4f }
    } else if k == 5 {
        Rgb { r: 0xed, g: 0xc9, b: 0x49 }
    } else if k == 6 {
        Rgb { r: 0xaf, g: 0x7a, b: 0xa1 }
    } else if k == 7 {
        Rgb { r: 0xff, g: 0x9d, b: 0xa7 }
    } else if k == 8 {
        Rgb { r: 0x9c, g: 0x75, b: 0x5f }
    } else {
        Rgb { r: 0xba, g: 0xb0, b: 0xab }
    }
}

/// Calls `colorous::Gradient::eval_rational` on the `colorous` gradient of the
/// same name.  Trusted: the result is a function of the gradient and the two
/// integers alone, and is named `gradient_rgb`.
#[verifier::external_body]
fn eval_rational(gradient: Gradient, i: usize, n: usize) -> (c: Rgb)
    requires
        i < n,
    ensures
        c == gradient_rgb(gradient, i as int, n as int),
{
    let ramp = match gradient {
        Gradient::Viridis => colorous::VIRIDIS,
        Gradient::Cividis => colorous::CIVIDIS,
    };
    let c = ramp.eval_rational(i, n);
    Rgb { r: c.r, g: c.g, b: c.b }
}

/// Reads entry `k` of `colorous::TABLEAU10`.  Trusted: the ten entries are the
/// colours listed in `tableau10`.
#[verifier::external_body]
fn tableau10_entry(k: usize) -> (c: Rgb)
    requires
        k < PALETTE_LEN,
    ensures
        c == tableau10(k as int),
{
    let c = colorous::TABLEAU10[k];
    Rgb { r: c.r, g: c.g, b: c.b }
}

/// Computes `coarsen` for a position strictly between zero and one.
fn coarsen_position(num: i128, den: i128) -> (r: (usize, usize))
    requires
        0 < num < den,
    ensures
        (r.0 as int, r.1 as int) == coarsen(num as int, den as int),
        r.0 <= r.1 < GRID_LIMIT,
{
    let mut i: i128 = num;
    let mut d: i128 = den;
    while d >= GRID_LIMIT
        invariant
            0 <= i <= d,
            coarsen(i as int, d as int) == coarsen(num as int, den as int),
        decreases d,
    {
        i = i / 2;
        d = d / 2;
    }
    (i as usize, d as usize)
}

/// The colour of a normalised value under `gradient`.
///
/// A missing value gets the sentinel colour.  A present value is clamped to
/// the unit interval and the gradient is sampled there; the position is
/// compared as numerator against denominator.
pub fn color_continuous(gradient: Gradient, u: Option<Ratio>) -> (c: Rgb)
    ensures
        c == continuous_color(gradient, u),
{
    match u {
        None => Rgb { r: 0, g: 0, b: 0 },
        Some(r) => {
            if r.num <= 0 {
                eval_rational(gradient, 0, 2)
            } else if r.num >= r.den {
                eval_rational(gradient, 1, 2)
            } else {
                let (i, d) = coarsen_position(r.num, r.den);
                eval_rational(gradient, i, d + 1)
            }
        },
    }
}

/// The colour of swatch `k` of `n` evenly spaced swatches of `gradient`: the
/// gradient at position `k / (n - 1)`.
pub fn color_discrete(gradient: Gradient, k: usize, n: usize) -> (c: Rgb)
    requires
        k < n,
    ensures
        c == gradient_rgb(gradient, k as int, n as int),
{
    eval_rational(gradient, k, n)
}

/// The colour of series `k`: the palette, repeated every `PALETTE_LEN` series.
pub fn series_color(k: usize) -> (c: Rgb)
    ensures
        c == tableau10(k as int % PALETTE_LEN as int),
{
    tableau10_entry(k % PALETTE_LEN)
}

/// At zero, and below it, a present value has the gradient's start colour.
pub proof fn lemma_clamps_to_start(gradient: Gradient, u: Ratio)
    requires
        u.wf(),
        u.num <= 0,
    ensures
        continuous_color(gradient, Some(u)) == gradient_start(gradient),
        continuous_color(gradient, Some(u)) == continuous_color(
            gradient,
            Some(Ratio { num: 0, den: 1 }),
        ),
{
}

/// At one, and above it, a present value has the gradient's end colour.
pub proof fn lemma_clamps_to_end(gradient: Gradient, u: Ratio)
    requires
        u.wf(),
        u.num >= u.den,
    ensures
        continuous_color(gradient, Some(u)) == gradient_end(gradient),
        continuous_color(gradient, Some(u)) == continuous_color(
            gradient,
            Some(Ratio { num: 1, den: 1 }),
        ),
{
}

/// A position whose denominator is below `GRID_LIMIT` is sampled as it is.
pub proof fn lemma_fine_positions_are_exact(gradient: Gradient, u: Ratio)
    requires
        0 < u.num < u.den < GRID_LIMIT,
    ensures
        continuous_color(gradient, Some(u)) == gradient_rgb(
            gradient,
            u.num as int,
            u.den as int + 1,
        ),
{
}

} // verus!
