//! The properties of a chart: file name, title, axes, colour map.

use vstd::prelude::*;
use crate::axis::{hull, lemma_spans_joined, spans, Interval};
use crate::color::Gradient;
use crate::error::MeshError;
use crate::normalize::ValueRange;
use crate::render::has_spread;
use crate::series::{all_ys, row_xs, xy_range};

verus! {

/// The side of a cell of a grid heatmap, in pixels, unless set otherwise.
pub const DEFAULT_OVER_SAMPLING: usize = 2;

/// Axis properties.
#[derive(Debug, PartialEq, Eq)]
pub struct Axis {
    pub label: Option<String>,
    pub range: Option<Interval>,
}

impl Clone for Axis {
    fn clone(&self) -> (r: Self)
        ensures
            r == *self,
    {
        Axis { label: copy_text(&self.label), range: self.range }
    }
}

impl Default for Axis {
    fn default() -> (r: Self)
        ensures
            r == (Axis { label: None, range: None }),
    {
        Axis { label: None, range: None }
    }
}

impl Axis {
    /// Creates a new axis, without label and without range.
    pub fn new() -> (r: Self)
        ensures
            r == (Axis { label: None, range: None }),
    {
        Axis { label: None, range: None }
    }

    /// Sets the axis label.
    pub fn label(self, label: String) -> (r: Self)
        ensures
            r == (Axis { label: Some(label), range: self.range }),
    {
        Axis { label: Some(label), range: self.range }
    }

    /// Sets the axis range.
    pub fn range(self, range: Interval) -> (r: Self)
        ensures
            r == (Axis { label: self.label, range: Some(range) }),
    {
        Axis { label: self.label, range: Some(range) }
    }
}

/// A copy of an optional text.
pub fn copy_text(text: &Option<String>) -> (r: Option<String>)
    ensures
        r == *text,
{
    match text {
        Some(s) => Some(s.clone()),
        None => None,
    }
}

/// Colorbar properties.
#[derive(Debug, PartialEq, Eq)]
pub struct Colorbar {
    pub cmap: Gradient,
    pub label: Option<String>,
    pub range: Option<Interval>,
}

impl Clone for Colorbar {
    fn clone(&self) -> (r: Self)
        ensures
            r == *self,
    {
        Colorbar { cmap: self.cmap, label: copy_text(&self.label), range: self.range }
    }
}

impl Default for Colorbar {
    fn default() -> (r: Self)
        ensures
            r == (Colorbar { cmap: Gradient::Viridis, label: None, range: None }),
    {
        Colorbar { cmap: Gradient::Viridis, label: None, range: None }
    }
}

/// Graph properties.
#[derive(Debug, PartialEq, Eq)]
pub struct Config {
    pub filename: Option<String>,
    pub title: Option<String>,
    pub xaxis: Axis,
    pub yaxis: Axis,
    pub cmap: Gradient,
    pub cmap_minmax: Option<(i32, i32)>,
    pub colorbar: Option<Colorbar>,
    pub osf: usize,
}

/// The properties of a graph for which nothing was set.
pub open spec fn default_config() -> Config {
    Config {
        filename: None,
        title: None,
        xaxis: Axis { label: None, range: None },
        yaxis: Axis { label: None, range: None },
        cmap: Gradient::Viridis,
        cmap_minmax: None,
        colorbar: None,
        osf: DEFAULT_OVER_SAMPLING,
    }
}

impl Clone for Config {
    fn clone(&self) -> (r: Self)
        ensures
            r == *self,
    {
        Config {
            filename: copy_text(&self.filename),
            title: copy_text(&self.title),
            xaxis: self.xaxis.clone(),
            yaxis: self.yaxis.clone(),
            cmap: self.cmap,
            cmap_minmax: self.cmap_minmax,
            colorbar: match &self.colorbar {
                Some(c) => Some(c.clone()),
                None => None,
            },
            osf: self.osf,
        }
    }
}

impl Default for Config {
    fn default() -> (r: Self)
        ensures
            r == default_config(),
    {
        Config {
            filename: None,
            title: None,
            xaxis: Axis::new(),
            yaxis: Axis::new(),
            cmap: Gradient::Viridis,
            cmap_minmax: None,
            colorbar: None,
            osf: DEFAULT_OVER_SAMPLING,
        }
    }
}

/// The abscissae of all data sets, set after set.
pub open spec fn joint_xs(datasets: Seq<Vec<(i32, Vec<i32>)>>) -> Seq<i32>
    decreases datasets.len(),
{
    if datasets.len() == 0 {
        Seq::empty()
    } else {
        joint_xs(datasets.drop_last()) + row_xs(datasets.last()@)
    }
}

/// The ordinates of all data sets, set after set.
pub open spec fn joint_ys(datasets: Seq<Vec<(i32, Vec<i32>)>>) -> Seq<i32>
    decreases datasets.len(),
{
    if datasets.len() == 0 {
        Seq::empty()
    } else {
        joint_ys(datasets.drop_last()) + all_ys(datasets.last()@)
    }
}

/// In every data set two abscissae differ and two ordinates differ.
pub open spec fn each_has_spread(datasets: Seq<Vec<(i32, Vec<i32>)>>) -> bool {
    forall|d: int|
        0 <= d < datasets.len() ==> has_spread(row_xs((#[trigger] datasets[d])@)) && has_spread(
            all_ys(datasets[d]@),
        )
}

/// The properties in effect where `config` may be absent.
pub open spec fn settings(config: Option<Config>) -> Config {
    match config {
        Some(c) => c,
        None => default_config(),
    }
}

/// The file name in effect: the one of `config`, or `fallback`.
pub open spec fn file_name(config: Config, fallback: Seq<char>) -> Seq<char> {
    match config.filename {
        Some(name) => name@,
        None => fallback,
    }
}

impl Config {
    /// The bounds of the colormap as a value range.
    pub open spec fn value_range(self) -> Option<ValueRange> {
        match self.cmap_minmax {
            Some((min, max)) => Some(ValueRange { min, max }),
            None => None,
        }
    }

    /// The bounds of the colormap as a value range.
    pub fn colormap_range(&self) -> (r: Option<ValueRange>)
        ensures
            r == self.value_range(),
    {
        match self.cmap_minmax {
            Some((min, max)) => Some(ValueRange { min, max }),
            None => None,
        }
    }

    /// Creates a new graph.
    pub fn new() -> (r: Self)
        ensures
            r == default_config(),
    {
        Config::default()
    }

    /// Sets the filename to save the graph to.
    pub fn filename(self, filename: String) -> (r: Self)
        ensures
            r == (Config { filename: Some(filename), ..self }),
    {
        Config { filename: Some(filename), ..self }
    }

    /// Sets the graph title.
    pub fn title(self, title: String) -> (r: Self)
        ensures
            r == (Config { title: Some(title), ..self }),
    {
        Config { title: Some(title), ..self }
    }

    /// Sets the side of a cell of a grid heatmap, in pixels.
    pub fn over_sampling_factor(self, osf: usize) -> (r: Self)
        ensures
            r == (Config { osf, ..self }),
    {
        Config { osf, ..self }
    }

    /// Sets the colormap lower and upper bounds.
    pub fn cmap_minmax(self, cmap_minmax: (i32, i32)) -> (r: Self)
        ensures
            r == (Config { cmap_minmax: Some(cmap_minmax), ..self }),
    {
        Config { cmap_minmax: Some(cmap_minmax), ..self }
    }

    /// Sets the x-axis properties.
    pub fn xaxis(self, xaxis: Axis) -> (r: Self)
        ensures
            r == (Config { xaxis, ..self }),
    {
        Config { xaxis, ..self }
    }

    /// Sets the y-axis properties.
    pub fn yaxis(self, yaxis: Axis) -> (r: Self)
        ensures
            r == (Config { yaxis, ..self }),
    {
        Config { yaxis, ..self }
    }

    /// Sets the x and y axes to the same axis properties.
    pub fn axes(self, axis: Axis) -> (r: Self)
        ensures
            r == (Config { xaxis: axis, yaxis: axis, ..self }),
    {
        let xaxis = axis.clone();
        Config { xaxis, yaxis: axis, ..self }
    }

    /// Adds a colorbar with default properties to the graph, unless it has
    /// one already.
    pub fn with_colorbar(self) -> (r: Self)
        ensures
            r == (Config {
                colorbar: match self.colorbar {
                    Some(c) => Some(c),
                    None => Some(Colorbar { cmap: Gradient::Viridis, label: None, range: None }),
                },
                ..self
            }),
    {
        if self.colorbar.is_none() {
            Config { colorbar: Some(Colorbar::default()), ..self }
        } else {
            self
        }
    }

    /// Sets the ranges of both axes to what the data sets span together.
    ///
    /// It fails with `DegenerateAxisRange`, and changes nothing, when there is
    /// no data set or when in one of them the abscissae or the ordinates are
    /// all equal.
    pub fn auto_range(&mut self, datasets: &Vec<Vec<(i32, Vec<i32>)>>) -> (r: Result<
        (),
        MeshError,
    >)
        ensures
            r is Ok <==> datasets.len() > 0 && each_has_spread(datasets@),
            r matches Err(e) ==> e == MeshError::DegenerateAxisRange && *final(self) == *old(self),
            r is Ok ==> {
                &&& final(self).xaxis.range matches Some(x) && spans(
                    joint_xs(datasets@),
                    x.start,
                    x.end,
                )
                &&& final(self).yaxis.range matches Some(y) && spans(
                    joint_ys(datasets@),
                    y.start,
                    y.end,
                )
                &&& *final(self) == (Config {
                    xaxis: Axis { label: old(self).xaxis.label, range: final(self).xaxis.range },
                    yaxis: Axis { label: old(self).yaxis.label, range: final(self).yaxis.range },
                    ..*old(self)
                })
            },
    {
        if datasets.len() == 0 {
            return Err(MeshError::DegenerateAxisRange);
        }
        let (mut x, mut y) = match xy_range(&datasets[0]) {
            Ok(ranges) => ranges,
            Err(e) => {
                return Err(e);
            },
        };
        proof {
            assert(datasets@.take(1).drop_last() =~= Seq::<Vec<(i32, Vec<i32>)>>::empty());
            assert(datasets@.take(1).last() == datasets[0]);
            assert(joint_xs(datasets@.take(0)) =~= Seq::<i32>::empty());
            assert(joint_ys(datasets@.take(0)) =~= Seq::<i32>::empty());
            assert(datasets@.take(1).drop_last() =~= datasets@.take(0));
            assert(joint_xs(datasets@.take(1)) =~= row_xs(datasets[0]@));
            assert(joint_ys(datasets@.take(1)) =~= all_ys(datasets[0]@));
        }
        let mut i: usize = 1;
        while i < datasets.len()
            invariant
                1 <= i <= datasets.len(),
                spans(joint_xs(datasets@.take(i as int)), x.start, x.end),
                spans(joint_ys(datasets@.take(i as int)), y.start, y.end),
                forall|d: int|
                    0 <= d < i ==> has_spread(row_xs((#[trigger] datasets[d])@)) && has_spread(
                        all_ys(datasets[d]@),
                    ),
                *self == *old(self),
            decreases datasets.len() - i,
        {
            let (xi, yi) = match xy_range(&datasets[i]) {
                Ok(ranges) => ranges,
                Err(e) => {
                    return Err(e);
                },
            };
            proof {
                assert(datasets@.take(i + 1).drop_last() =~= datasets@.take(i as int));
                assert(datasets@.take(i + 1).last() == datasets[i as int]);
                lemma_spans_joined(
                    joint_xs(datasets@.take(i as int)),
                    row_xs(datasets[i as int]@),
                    x,
                    xi,
                );
                lemma_spans_joined(
                    joint_ys(datasets@.take(i as int)),
                    all_ys(datasets[i as int]@),
                    y,
                    yi,
                );
            }
            x = hull(x, xi);
            y = hull(y, yi);
            i += 1;
        }
        assert(datasets@.take(datasets.len() as int) =~= datasets@);
        self.xaxis = Axis { label: copy_text(&self.xaxis.label), range: Some(x) };
        self.yaxis = Axis { label: copy_text(&self.yaxis.label), range: Some(y) };
        Ok(())
    }
}

} // verus!
