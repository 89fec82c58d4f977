//! Scatter plots.

use vstd::prelude::*;
use crate::axis::{choose_interval, extent, Interval};
use crate::combo::{
    append_series,
    dataset_series,
    views,
    Chart,
    Kind,
    Series,
    CHART_HEIGHT,
    CHART_WIDTH,
};
use crate::config::{file_name, settings, Config};
use crate::error::MeshError;
use crate::render::{axis_is_defined, is_axis_of, lemma_spread_of_spanned};
use crate::series::{abscissae, all_ys, ordinates, row_xs};

verus! {

/// Scatter plots.
pub struct Scatter {}

/// Chooses both axes of a scatter plot and lays out its series.
fn scatter_chart(
    rows: &Vec<(i32, Vec<i32>)>,
    filename: String,
    height: u32,
    x_given: Option<Interval>,
    y_given: Option<Interval>,
    x_label: Option<String>,
    y_label: Option<String>,
) -> (r: Result<Chart, MeshError>)
    ensures
        r is Ok <==> axis_is_defined(x_given, row_xs(rows@)) && axis_is_defined(
            y_given,
            all_ys(rows@),
        ),
        r matches Err(e) ==> e == MeshError::DegenerateAxisRange,
        r matches Ok(chart) ==> {
            &&& chart.filename == filename
            &&& chart.width == CHART_WIDTH
            &&& chart.height == height
            &&& is_axis_of(chart.x_range, x_given, row_xs(rows@))
            &&& is_axis_of(chart.y_range, y_given, all_ys(rows@))
            &&& chart.x_label == x_label
            &&& chart.y_label == y_label
            &&& views(chart.series@) == dataset_series(rows@, Kind::Scatter(None), 0)
            &&& !chart.legend
        },
{
    let measured_x = extent(&abscissae(rows));
    let measured_y = extent(&ordinates(rows));
    proof {
        if let Some(x) = measured_x {
            lemma_spread_of_spanned(row_xs(rows@), x.start, x.end);
        }
        if let Some(y) = measured_y {
            lemma_spread_of_spanned(all_ys(rows@), y.start, y.end);
        }
    }
    let x_range = match choose_interval(x_given, measured_x) {
        Ok(x) => x,
        Err(e) => {
            return Err(e);
        },
    };
    let y_range = match choose_interval(y_given, measured_y) {
        Ok(y) => y,
        Err(e) => {
            return Err(e);
        },
    };
    let mut series: Vec<Series> = Vec::new();
    assert(views(series@) =~= Seq::empty());
    append_series(&mut series, rows, &Kind::Scatter(None));
    assert(views(series@) =~= dataset_series(rows@, Kind::Scatter(None), 0));
    Ok(
        Chart {
            filename,
            width: CHART_WIDTH,
            height,
            x_range,
            y_range,
            x_label,
            y_label,
            series,
            legend: false,
        },
    )
}

impl Scatter {
    /// Lays out the scattered data `(x, y1)`, `(x, y2)`, ... of the rows
    /// `(x, [y1, y2, ...])` on a square canvas.
    ///
    /// The file name is that of `config`, or `complot-plot.svg`.  Each axis
    /// has the range of `config`, or else spans the abscissae, or the
    /// ordinates, of the rows; the call fails with `DegenerateAxisRange` when
    /// an axis without a range has no two different coordinates.  There is
    /// one series per ordinate of the first row, in the colours of the
    /// palette.
    pub fn layout(rows: &Vec<(i32, Vec<i32>)>, config: Option<Config>) -> (r: Result<
        Chart,
        MeshError,
    >)
        ensures
            r is Ok <==> axis_is_defined(settings(config).xaxis.range, row_xs(rows@))
                && axis_is_defined(settings(config).yaxis.range, all_ys(rows@)),
            r matches Err(e) ==> e == MeshError::DegenerateAxisRange,
            r matches Ok(chart) ==> {
                &&& chart.filename@ == file_name(settings(config), "complot-plot.svg"@)
                &&& chart.width == CHART_WIDTH
                &&& chart.height == CHART_WIDTH
                &&& is_axis_of(chart.x_range, settings(config).xaxis.range, row_xs(rows@))
                &&& is_axis_of(chart.y_range, settings(config).yaxis.range, all_ys(rows@))
                &&& chart.x_label == settings(config).xaxis.label
                &&& chart.y_label == settings(config).yaxis.label
                &&& views(chart.series@) == dataset_series(rows@, Kind::Scatter(None), 0)
                &&& !chart.legend
            },
    {
        let config = match config {
            Some(c) => c,
            None => Config::new(),
        };
        let filename = match config.filename {
            Some(name) => name,
            None => "complot-plot.svg".to_string(),
        };
        scatter_chart(
            rows,
            filename,
            CHART_WIDTH,
            config.xaxis.range,
            config.yaxis.range,
            config.xaxis.label,
            config.yaxis.label,
        )
    }

    /// Lays out the scattered data of the rows with no properties set: in the
    /// file `scatter.svg`, on a canvas of the common chart size, with both
    /// axes spanning the data and without labels.
    pub fn collect(rows: &Vec<(i32, Vec<i32>)>) -> (r: Result<Chart, MeshError>)
        ensures
            r is Ok <==> axis_is_defined(None, row_xs(rows@)) && axis_is_defined(
                None,
                all_ys(rows@),
            ),
            r matches Err(e) ==> e == MeshError::DegenerateAxisRange,
            r matches Ok(chart) ==> {
                &&& chart.filename@ == "scatter.svg"@
                &&& chart.width == CHART_WIDTH
                &&& chart.height == CHART_HEIGHT
                &&& is_axis_of(chart.x_range, None, row_xs(rows@))
                &&& is_axis_of(chart.y_range, None, all_ys(rows@))
                &&& chart.x_label is None
                &&& chart.y_label is None
                &&& views(chart.series@) == dataset_series(rows@, Kind::Scatter(None), 0)
                &&& !chart.legend
            },
    {
        scatter_chart(rows, "scatter.svg".to_string(), CHART_HEIGHT, None, None, None, None)
    }
}

} // verus!
