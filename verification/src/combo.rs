//! Charts of several series: the common layout of line plots, scatter plots
//! and their combination.

use vstd::prelude::*;
use crate::axis::Interval;
use crate::color::{series_color, tableau10, Rgb, PALETTE_LEN};
use crate::config::{copy_text, file_name, settings, Config};
use crate::error::MeshError;
use crate::geometry::Point;
use crate::series::{series, series_count, split_series};

verus! {

/// The width of the canvas of a chart, in pixels.
pub const CHART_WIDTH: u32 = 768;

/// The height of the canvas of a chart, in pixels.
pub const CHART_HEIGHT: u32 = 512;

/// How a data set is drawn, and under which name it appears in the legend.
#[derive(Debug, PartialEq, Eq)]
pub enum Kind {
    /// As lines.
    Plot(Option<String>),
    /// As circles.
    Scatter(Option<String>),
}

impl Clone for Kind {
    fn clone(&self) -> (r: Self)
        ensures
            r == *self,
    {
        match self {
            Kind::Plot(label) => Kind::Plot(copy_text(label)),
            Kind::Scatter(label) => Kind::Scatter(copy_text(label)),
        }
    }
}

impl Kind {
    /// The data set has a name for the legend.
    pub open spec fn is_labelled(self) -> bool {
        match self {
            Kind::Plot(label) => label is Some,
            Kind::Scatter(label) => label is Some,
        }
    }

    /// Decides `is_labelled`.
    pub fn has_label(&self) -> (b: bool)
        ensures
            b == self.is_labelled(),
    {
        match self {
            Kind::Plot(label) => label.is_some(),
            Kind::Scatter(label) => label.is_some(),
        }
    }
}

/// One series of a chart.
#[derive(Debug, PartialEq, Eq)]
pub struct Series {
    pub kind: Kind,
    pub color: Rgb,
    pub points: Vec<Point>,
}

/// A `Series` over sequences.
pub struct SeriesView {
    pub kind: Kind,
    pub color: Rgb,
    pub points: Seq<Point>,
}

impl View for Series {
    type V = SeriesView;

    open spec fn view(&self) -> SeriesView {
        SeriesView { kind: self.kind, color: self.color, points: self.points@ }
    }
}

/// A laid-out chart of series.
#[derive(Debug, PartialEq, Eq)]
pub struct Chart {
    pub filename: String,
    pub width: u32,
    pub height: u32,
    pub x_range: Interval,
    pub y_range: Interval,
    pub x_label: Option<String>,
    pub y_label: Option<String>,
    pub series: Vec<Series>,
    /// Whether a legend is drawn.
    pub legend: bool,
}

/// The series of a sequence, over sequences.
pub open spec fn views(s: Seq<Series>) -> Seq<SeriesView> {
    Seq::new(s.len(), |i: int| s[i]@)
}

/// The series of one data set drawn as `kind`, where `first` series were
/// drawn before: series `k` has colour `first + k` of the palette, which
/// repeats.
pub open spec fn dataset_series(rows: Seq<(i32, Vec<i32>)>, kind: Kind, first: int) -> Seq<
    SeriesView,
> {
    Seq::new(
        series_count(rows),
        |k: int|
            SeriesView {
                kind,
                color: tableau10((first + k) % PALETTE_LEN as int),
                points: series(rows, k),
            },
    )
}

/// The series of the first `count` data sets, each drawn as the kind at the
/// same position.
pub open spec fn combined_series(
    datasets: Seq<Vec<(i32, Vec<i32>)>>,
    draws: Seq<Kind>,
    count: int,
) -> Seq<SeriesView>
    decreases count,
{
    if count <= 0 {
        Seq::empty()
    } else {
        let front = combined_series(datasets, draws, count - 1);
        front + dataset_series(datasets[count - 1]@, draws[count - 1], front.len() as int)
    }
}

/// One of the first `count` kinds has a name for the legend.
pub open spec fn any_labelled(draws: Seq<Kind>, count: int) -> bool {
    exists|d: int| 0 <= d < count && (#[trigger] draws[d]).is_labelled()
}

/// The number of data sets that are drawn: those that have a kind.
pub open spec fn pair_count(datasets: int, draws: int) -> int {
    if datasets <= draws {
        datasets
    } else {
        draws
    }
}

/// Appends the series of one data set to `out`.
pub fn append_series(out: &mut Vec<Series>, rows: &Vec<(i32, Vec<i32>)>, kind: &Kind)
    ensures
        views(final(out)@) == views(old(out)@) + dataset_series(
            rows@,
            *kind,
            old(out).len() as int,
        ),
{
    let split = split_series(rows);
    let ghost before = views(out@);
    let ghost first = out.len() as int;
    let mut k: usize = 0;
    while k < split.len()
        invariant
            k <= split.len(),
            split.len() == series_count(rows@),
            forall|x: int| 0 <= x < split.len() ==> (#[trigger] split[x])@ == series(rows@, x),
            before.len() == first,
            out.len() == first + k,
            views(out@) == before + dataset_series(rows@, *kind, first).take(k as int),
        decreases split.len() - k,
    {
        let color = series_color(out.len());
        let points = crate::render::copy_points(&split[k]);
        let ghost earlier = views(out@);
        out.push(Series { kind: kind.clone(), color, points });
        proof {
            assert(views(out@) =~= earlier.push(out@[first + k]@));
            assert(views(out@) =~= before + dataset_series(rows@, *kind, first).take(k + 1));
        }
        k += 1;
    }
    assert(dataset_series(rows@, *kind, first).take(split.len() as int) =~= dataset_series(
        rows@,
        *kind,
        first,
    ));
}

/// Combines plots of different kinds.
pub struct Combo {}

impl Combo {
    /// Lays out the data sets in one chart, each drawn as the kind at the same
    /// position; a data set without a kind, or a kind without a data set, is
    /// left out.
    ///
    /// The file name is that of `config`, or `complot-plot.svg`.  Both axis
    /// ranges are those of `config`; the call fails with
    /// `DegenerateAxisRange` when one of them is not set.  The colours run
    /// through the palette over all series of the chart.  A legend is drawn
    /// when one of the kinds has a name.
    pub fn layout(
        datasets: &Vec<Vec<(i32, Vec<i32>)>>,
        draws: &Vec<Kind>,
        config: Option<Config>,
    ) -> (r: Result<Chart, MeshError>)
        ensures
            r is Ok <==> settings(config).xaxis.range is Some && settings(config).yaxis.range
                is Some,
            r matches Err(e) ==> e == MeshError::DegenerateAxisRange,
            r matches Ok(chart) ==> {
                let count = pair_count(datasets.len() as int, draws.len() as int);
                &&& chart.filename@ == file_name(settings(config), "complot-plot.svg"@)
                &&& chart.width == CHART_WIDTH
                &&& chart.height == CHART_HEIGHT
                &&& Some(chart.x_range) == settings(config).xaxis.range
                &&& Some(chart.y_range) == settings(config).yaxis.range
                &&& chart.x_label == settings(config).xaxis.label
                &&& chart.y_label == settings(config).yaxis.label
                &&& views(chart.series@) == combined_series(datasets@, draws@, count)
                &&& chart.legend == any_labelled(draws@, count)
            },
    {
        let config = match config {
            Some(c) => c,
            None => Config::new(),
        };
        let (x_range, y_range) = match (config.xaxis.range, config.yaxis.range) {
            (Some(x), Some(y)) => (x, y),
            _ => {
                return Err(MeshError::DegenerateAxisRange);
            },
        };
        let count = if datasets.len() <= draws.len() {
            datasets.len()
        } else {
            draws.len()
        };
        let mut out: Vec<Series> = Vec::new();
        let mut legend = false;
        let mut d: usize = 0;
        assert(views(out@) =~= combined_series(datasets@, draws@, 0));
        while d < count
            invariant
                d <= count,
                count == pair_count(datasets.len() as int, draws.len() as int),
                views(out@) == combined_series(datasets@, draws@, d as int),
                legend == any_labelled(draws@, d as int),
            decreases count - d,
        {
            append_series(&mut out, &datasets[d], &draws[d]);
            let labelled = draws[d].has_label();
            proof {
                if labelled {
                    assert(draws[d as int].is_labelled());
                }
                if any_labelled(draws@, d + 1) && !labelled {
                    let w = choose|w: int| 0 <= w < d + 1 && (#[trigger] draws[w]).is_labelled();
                    assert(w < d);
                }
            }
            legend = legend || labelled;
            d += 1;
        }
        let filename = match config.filename {
            Some(name) => name,
            None => "complot-plot.svg".to_string(),
        };
        Ok(
            Chart {
                filename,
                width: CHART_WIDTH,
                height: CHART_HEIGHT,
                x_range,
                y_range,
                x_label: config.xaxis.label,
                y_label: config.yaxis.label,
                series: out,
                legend,
            },
        )
    }
}

} // verus!
