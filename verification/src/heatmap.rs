//! The heatmap of a scalar field sampled on a square grid, with its colorbar.

use vstd::prelude::*;
use crate::color::{color_continuous, continuous_color, Rgb};
use crate::colorbar::{strip, synthesize, Swatch};
use crate::config::{file_name, settings, Config};
use crate::error::MeshError;
use crate::normalize::{effective_range, normalize, normalized_sample, ValueRange};

verus! {

/// The largest side of the grid drawing, in pixels.
pub const MAX_SIDE: usize = 0x7fff_0000;

/// The margin added to the side for the width of the canvas, in pixels.
pub const WIDTH_MARGIN: u32 = 40;

/// The margin added to the side for the height of the drawing area.
pub const PLOT_MARGIN: u32 = 30;

/// The margin added to the side for the height of the canvas.
pub const HEIGHT_MARGIN: u32 = 90;

/// One grid cell on the canvas: the square from `(x0, y0)` to `(x1, y1)`.
#[derive(Clone, Copy, Debug, PartialEq, Eq, Structural)]
pub struct Tile {
    pub x0: i32,
    pub y0: i32,
    pub x1: i32,
    pub y1: i32,
    pub color: Rgb,
}

/// Heatmap chart of a square grid.
#[derive(Debug, PartialEq, Eq)]
pub struct Heatmap {
    pub filename: String,
    pub title: Option<String>,
    pub width: u32,
    /// The height of the whole canvas: drawing area and colorbar.
    pub height: u32,
    /// The height of the drawing area, below which the colorbar lies.
    pub split: u32,
    /// Both axes of the drawing run from zero to this pixel.
    pub axis_end: i32,
    /// One tile per sample, in the order of the samples.
    pub tiles: Vec<Tile>,
    /// The range that the colours and the colorbar span.
    pub value_range: ValueRange,
    pub colorbar: Vec<Swatch>,
    pub colorbar_label: Option<String>,
}

/// The tile of sample `k` of a grid with `res` samples per row, drawn with
/// `osf` pixels per sample: column `k % res`, row `k / res`.
pub open spec fn tile_of(k: int, res: int, osf: int, color: Rgb) -> Tile {
    Tile {
        x0: (osf * (k % res)) as i32,
        y0: (osf * (k / res)) as i32,
        x1: (osf * (k % res + 1)) as i32,
        y1: (osf * (k / res + 1)) as i32,
        color,
    }
}

#[verifier::rlimit(50)]
proof fn lemma_tile_fits(k: int, res: int, osf: int)
    requires
        0 <= k < res * res,
        0 < res,
        0 < osf,
    ensures
        0 <= k % res < res,
        0 <= k / res < res,
        0 <= osf * (k % res) < osf * (k % res + 1) <= res * osf,
        0 <= osf * (k / res) < osf * (k / res + 1) <= res * osf,
{
    let i = k % res;
    let j = k / res;
    assert(0 <= j < res) by (nonlinear_arith)
        requires
            0 <= k < res * res,
            0 < res,
            j == k / res,
    ;
    assert(0 <= osf * i < osf * (i + 1) <= res * osf) by (nonlinear_arith)
        requires
            0 <= i < res,
            0 < osf,
    ;
    assert(0 <= osf * j < osf * (j + 1) <= res * osf) by (nonlinear_arith)
        requires
            0 <= j < res,
            0 < osf,
    ;
}

/// The tile of sample `k`.
fn tile(k: usize, res: usize, osf: usize, color: Rgb) -> (t: Tile)
    requires
        0 < res,
        0 < osf,
        k < res * res,
        res * osf <= MAX_SIDE,
    ensures
        t == tile_of(k as int, res as int, osf as int, color),
{
    let i = k % res;
    let j = k / res;
    proof {
        lemma_tile_fits(k as int, res as int, osf as int);
    }
    Tile {
        x0: (osf * i) as i32,
        y0: (osf * j) as i32,
        x1: (osf * (i + 1)) as i32,
        y1: (osf * (j + 1)) as i32,
        color,
    }
}

impl Heatmap {
    /// Lays out the heatmap of the samples `map` of a grid of `rows` by
    /// `cols`, row after row, and its colorbar.
    ///
    /// Each sample is drawn as a square of the over-sampling factor of
    /// `config` in pixels.  The samples are normalised against the colormap
    /// bounds of `config`, or else against the range of the present samples;
    /// the call fails with `EmptyRange` when no bounds are given and no sample
    /// is present.  The colorbar spans the same range with one swatch per
    /// pixel of the side of the drawing.
    ///
    /// The grid must be square, and the side of the drawing must be at least
    /// two pixels and at most `MAX_SIDE`.
    pub fn layout(map: &Vec<Option<i32>>, rows: usize, cols: usize, config: Option<Config>) -> (r:
        Result<Heatmap, MeshError>)
        requires
            rows == cols,
            map.len() == rows * cols,
            2 <= rows * settings(config).osf <= MAX_SIDE,
        ensures
            r is Err <==> settings(config).cmap_minmax is None && forall|k: int|
                0 <= k < map.len() ==> #[trigger] map[k] is None,
            r matches Err(e) ==> e == MeshError::EmptyRange,
            r matches Ok(chart) ==> {
                let side = rows * settings(config).osf;
                &&& chart.filename@ == file_name(settings(config), "complot-heatmap.png"@)
                &&& chart.title == settings(config).title
                &&& chart.width == side + WIDTH_MARGIN
                &&& chart.height == side + HEIGHT_MARGIN
                &&& chart.split == side + PLOT_MARGIN
                &&& chart.axis_end == side - 1
                &&& Some(chart.value_range) == effective_range(
                    map@,
                    settings(config).value_range(),
                )
                &&& chart.tiles.len() == map.len()
                &&& forall|k: int|
                    0 <= k < map.len() ==> #[trigger] chart.tiles[k] == tile_of(
                        k,
                        rows as int,
                        settings(config).osf as int,
                        continuous_color(
                            settings(config).cmap,
                            normalized_sample(map[k], chart.value_range),
                        ),
                    )
                &&& chart.colorbar@ == strip(chart.value_range, settings(config).cmap, side)
                &&& chart.colorbar_label == settings(config).xaxis.label
            },
    {
        let config = match config {
            Some(c) => c,
            None => Config::new(),
        };
        let osf = config.osf;
        let res = rows;
        proof {
            assert(0 < res && 0 < osf) by (nonlinear_arith)
                requires
                    2 <= res * osf,
                    0 <= res,
                    0 <= osf,
            ;
        }
        let side = res * osf;
        let cmap = config.cmap;
        let normalized = match normalize(map, config.colormap_range()) {
            Ok(n) => n,
            Err(e) => {
                return Err(e);
            },
        };
        let value_range = normalized.range;
        let mut tiles: Vec<Tile> = Vec::new();
        let mut k: usize = 0;
        while k < map.len()
            invariant
                k <= map.len(),
                map.len() == res * res,
                0 < res,
                0 < osf,
                res * osf <= MAX_SIDE,
                tiles.len() == k,
                normalized.values.len() == map.len(),
                forall|x: int|
                    0 <= x < map.len() ==> #[trigger] normalized.values[x] == normalized_sample(
                        map[x],
                        value_range,
                    ),
                forall|x: int|
                    0 <= x < k ==> #[trigger] tiles[x] == tile_of(
                        x,
                        res as int,
                        osf as int,
                        continuous_color(cmap, normalized_sample(map[x], value_range)),
                    ),
            decreases map.len() - k,
        {
            let color = color_continuous(cmap, normalized.values[k]);
            tiles.push(tile(k, res, osf, color));
            k += 1;
        }
        let colorbar = synthesize(value_range, cmap, side);
        let filename = match config.filename {
            Some(name) => name,
            None => "complot-heatmap.png".to_string(),
        };
        Ok(
            Heatmap {
                filename,
                title: config.title,
                width: side as u32 + WIDTH_MARGIN,
                height: side as u32 + HEIGHT_MARGIN,
                split: side as u32 + PLOT_MARGIN,
                axis_end: (side - 1) as i32,
                tiles,
                value_range,
                colorbar,
                colorbar_label: config.xaxis.label,
            },
        )
    }
}

} // verus!
