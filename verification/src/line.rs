//! Line plots, and the properties of their logarithmic variants.

use vstd::prelude::*;
use vstd::string::StringExecFns;
use crate::axis::spans;
use crate::combo::{
    append_series,
    dataset_series,
    views,
    Chart,
    Kind,
    Series,
    CHART_HEIGHT,
    CHART_WIDTH,
};
use crate::config::{file_name, settings, Axis, Config};
use crate::error::MeshError;
use crate::render::has_spread;
use crate::series::{all_ys, row_xs, xy_range};

verus! {

/// The label of an axis that shows the decimal logarithm of what `label`
/// names.
pub open spec fn log10_label(label: Seq<char>) -> Seq<char> {
    "log10( "@ + label + " )"@
}

/// The axis of a logarithmic plot whose quantity is named by the label of
/// `named`: it keeps `axis` where `named` has no label, and is otherwise a
/// new axis, without range, labelled with the logarithm of that label.
pub open spec fn is_log10_axis(r: Axis, axis: Axis, named: Axis) -> bool {
    match named.label {
        Some(label) => {
            &&& r.range is None
            &&& r.label matches Some(text) && text@ == log10_label(label@)
        },
        None => r == axis,
    }
}

/// `r` is `config` with the file name set to `complot-linlog.svg` unless it
/// has one, and otherwise unchanged but possibly in its axes.
pub open spec fn is_log_config(r: Config, config: Option<Config>) -> bool {
    &&& r.filename matches Some(name) && name@ == file_name(
        settings(config),
        "complot-linlog.svg"@,
    )
    &&& r.title == settings(config).title
    &&& r.cmap == settings(config).cmap
    &&& r.cmap_minmax == settings(config).cmap_minmax
    &&& r.colorbar == settings(config).colorbar
    &&& r.osf == settings(config).osf
}

/// Computes `log10_label`.
pub fn log10_of(label: &String) -> (r: String)
    ensures
        r@ == log10_label(label@),
{
    let mut r = String::from_str("log10( ");
    r.append(label.as_str());
    r.append(" )");
    r
}

/// Computes the axis described by `is_log10_axis`.
fn log10_axis(axis: Axis, named: &Axis) -> (r: Axis)
    ensures
        is_log10_axis(r, axis, *named),
{
    match &named.label {
        Some(label) => Axis::new().label(log10_of(label)),
        None => axis,
    }
}

/// Names the file of a logarithmic plot unless it has a name.
fn with_log_filename(config: Option<Config>) -> (r: Config)
    ensures
        is_log_config(r, config),
        r.xaxis == settings(config).xaxis,
        r.yaxis == settings(config).yaxis,
{
    let config = match config {
        Some(c) => c,
        None => Config::new(),
    };
    if config.filename.is_none() {
        config.filename("complot-linlog.svg".to_string())
    } else {
        config
    }
}

/// Line plots.
pub struct Plot;

/// Log-log plots.
///
/// Like `Plot` but for `(log10(x), [log10(y), ...])` rows.
pub struct LogLog;

/// Log-lin plots.
///
/// Like `Plot` but for `(log10(x), [y, ...])` rows.
pub struct LogLin;

/// Lin-log plots.
///
/// Like `Plot` but for `(x, [log10(y), ...])` rows.
pub struct LinLog;

impl Plot {
    /// Lays out the lines `(x, y1)`, `(x, y2)`, ... of the rows
    /// `(x, [y1, y2, ...])`.
    ///
    /// The file name is that of `config`, or `complot-plot.svg`.  The axes
    /// span the abscissae and the ordinates of the rows; the call fails with
    /// `DegenerateAxisRange` unless two abscissae differ and two ordinates
    /// differ.  There is one line per ordinate of the first row, in the
    /// colours of the palette.
    pub fn layout(rows: &Vec<(i32, Vec<i32>)>, config: Option<Config>) -> (r: Result<
        Chart,
        MeshError,
    >)
        ensures
            r is Ok <==> has_spread(row_xs(rows@)) && has_spread(all_ys(rows@)),
            r matches Err(e) ==> e == MeshError::DegenerateAxisRange,
            r matches Ok(chart) ==> {
                &&& chart.filename@ == file_name(settings(config), "complot-plot.svg"@)
                &&& chart.width == CHART_WIDTH
                &&& chart.height == CHART_HEIGHT
                &&& spans(row_xs(rows@), chart.x_range.start, chart.x_range.end)
                &&& spans(all_ys(rows@), chart.y_range.start, chart.y_range.end)
                &&& chart.x_range.has_extent()
                &&& chart.y_range.has_extent()
                &&& chart.x_label == settings(config).xaxis.label
                &&& chart.y_label == settings(config).yaxis.label
                &&& views(chart.series@) == dataset_series(rows@, Kind::Plot(None), 0)
                &&& !chart.legend
            },
    {
        let config = match config {
            Some(c) => c,
            None => Config::new(),
        };
        let (x_range, y_range) = match xy_range(rows) {
            Ok(ranges) => ranges,
            Err(e) => {
                return Err(e);
            },
        };
        let mut series: Vec<Series> = Vec::new();
        assert(views(series@) =~= Seq::empty());
        append_series(&mut series, rows, &Kind::Plot(None));
        assert(views(series@) =~= dataset_series(rows@, Kind::Plot(None), 0));
        let filename = match config.filename {
            Some(name) => name,
            None => "complot-plot.svg".to_string(),
        };
        Ok(
            Chart {
                filename,
                width: CHART_WIDTH,
                height: CHART_HEIGHT,
                x_range,
                y_range,
                x_label: config.xaxis.label,
                y_label: config.yaxis.label,
                series,
                legend: false,
            },
        )
    }
}

impl LogLog {
    /// The properties of the line plot that shows a log-log plot.
    ///
    /// The file name defaults to `complot-linlog.svg`.  An axis that has a
    /// label is replaced by a new axis labelled `log10( label )`.
    pub fn config(config: Option<Config>) -> (r: Config)
        ensures
            is_log_config(r, config),
            is_log10_axis(r.xaxis, settings(config).xaxis, settings(config).xaxis),
            is_log10_axis(r.yaxis, settings(config).yaxis, settings(config).yaxis),
    {
        let config = with_log_filename(config);
        let named_x = config.xaxis.clone();
        let named_y = config.yaxis.clone();
        let Config { filename, title, xaxis, yaxis, cmap, cmap_minmax, colorbar, osf } = config;
        Config {
            filename,
            title,
            xaxis: log10_axis(xaxis, &named_x),
            yaxis: log10_axis(yaxis, &named_y),
            cmap,
            cmap_minmax,
            colorbar,
            osf,
        }
    }
}

impl LogLin {
    /// The properties of the line plot that shows a log-lin plot.
    ///
    /// The file name defaults to `complot-linlog.svg`.  Where the x axis has
    /// a label, the y axis is replaced by a new axis labelled
    /// `log10( label )` with the label of the x axis; the x axis is kept.
    pub fn config(config: Option<Config>) -> (r: Config)
        ensures
            is_log_config(r, config),
            r.xaxis == settings(config).xaxis,
            is_log10_axis(r.yaxis, settings(config).yaxis, settings(config).xaxis),
    {
        let config = with_log_filename(config);
        let named = config.xaxis.clone();
        let Config { filename, title, xaxis, yaxis, cmap, cmap_minmax, colorbar, osf } = config;
        Config {
            filename,
            title,
            xaxis,
            yaxis: log10_axis(yaxis, &named),
            cmap,
            cmap_minmax,
            colorbar,
            osf,
        }
    }
}

impl LinLog {
    /// The properties of the line plot that shows a lin-log plot.
    ///
    /// The file name defaults to `complot-linlog.svg`.  Where the y axis has
    /// a label, it is replaced by a new axis labelled `log10( label )`.
    pub fn config(config: Option<Config>) -> (r: Config)
        ensures
            is_log_config(r, config),
            r.xaxis == settings(config).xaxis,
            is_log10_axis(r.yaxis, settings(config).yaxis, settings(config).yaxis),
    {
        let config = with_log_filename(config);
        let named = config.yaxis.clone();
        let Config { filename, title, xaxis, yaxis, cmap, cmap_minmax, colorbar, osf } = config;
        Config {
            filename,
            title,
            xaxis,
            yaxis: log10_axis(yaxis, &named),
            cmap,
            cmap_minmax,
            colorbar,
            osf,
        }
    }
}

} // verus!
