//! From cells to drawing primitives.
//!
//! A mesh is drawn either as a wireframe, one closed polyline per cell in a
//! single stroke colour, or as a heatmap, one filled polygon per cell in the
//! colour of the cell's sample.  Both share the choice of the axis intervals.

use vstd::prelude::*;
use crate::axis::{bounding_box, choose_interval, spans, xs, ys, Interval};
use crate::color::{color_continuous, continuous_color, Gradient, Rgb};
use crate::error::MeshError;
use crate::geometry::Point;
use crate::cell::cell_means;
use crate::normalize::{effective_range, normalize, normalized_sample, ValueRange};
use crate::triangulation::{Triangle, Triangulation};

verus! {

/// A cell of a mesh: the polygon it covers and its sample.
#[derive(Debug, PartialEq, Eq)]
pub struct MeshCell {
    pub vertices: Vec<Point>,
    pub value: Option<i32>,
}

/// What is handed to the drawing backend.
#[derive(Debug, PartialEq, Eq)]
pub enum RenderPrimitive {
    /// A polygon filled with `color`.
    FilledPolygon { vertices: Vec<Point>, color: Rgb },
    /// A line through `vertices` in `color`.
    Polyline { vertices: Vec<Point>, color: Rgb },
}

/// A `RenderPrimitive` over sequences.
pub enum PrimitiveView {
    FilledPolygon { vertices: Seq<Point>, color: Rgb },
    Polyline { vertices: Seq<Point>, color: Rgb },
}

impl View for RenderPrimitive {
    type V = PrimitiveView;

    open spec fn view(&self) -> PrimitiveView {
        match *self {
            RenderPrimitive::FilledPolygon { vertices, color } => PrimitiveView::FilledPolygon {
                vertices: vertices@,
                color,
            },
            RenderPrimitive::Polyline { vertices, color } => PrimitiveView::Polyline {
                vertices: vertices@,
                color,
            },
        }
    }
}

/// How a mesh is drawn.
#[derive(Clone, Copy, Debug, PartialEq, Eq, Structural)]
pub enum RenderMode {
    /// Only the outlines of the cells, in `stroke`.
    Wireframe { stroke: Rgb },
    /// The cells filled by their samples, normalised against `value_range`
    /// where it is given and against the range of the present samples
    /// otherwise.
    Heatmap { gradient: Gradient, value_range: Option<ValueRange> },
}

/// A laid-out mesh.
#[derive(Debug, PartialEq, Eq)]
pub struct Scene {
    pub x_range: Interval,
    pub y_range: Interval,
    /// One primitive per cell, in the order of the cells.
    pub primitives: Vec<RenderPrimitive>,
    /// The range the samples were normalised against; none for a wireframe.
    pub value_range: Option<ValueRange>,
}

/// The vertices of all cells, cell after cell.
pub open spec fn all_vertices(cells: Seq<MeshCell>) -> Seq<Point>
    decreases cells.len(),
{
    if cells.len() == 0 {
        Seq::empty()
    } else {
        all_vertices(cells.drop_last()) + cells.last().vertices@
    }
}

/// The samples of the cells.
pub open spec fn cell_samples(cells: Seq<MeshCell>) -> Seq<Option<i32>> {
    Seq::new(cells.len(), |i: int| cells[i].value)
}

/// The outline of a cell as a polyline of four points that returns to the
/// first vertex of a triangle: the vertices, repeated cyclically.  A cell
/// without vertices has an empty outline.
pub open spec fn closed_outline(v: Seq<Point>) -> Seq<Point> {
    if v.len() == 0 {
        Seq::empty()
    } else {
        Seq::new(4, |i: int| v[i % v.len() as int])
    }
}

/// The cell of triangle `t` of the points `p`: its three vertices in the
/// order of their indices, and `value`.
pub open spec fn is_cell_of(cell: MeshCell, p: Seq<Point>, t: Triangle, value: Option<i32>)
    -> bool {
    &&& cell.vertices@ == seq![p[t.a as int], p[t.b as int], p[t.c as int]]
    &&& cell.value == value
}

/// Two elements of `s` differ.
pub open spec fn has_spread(s: Seq<i32>) -> bool {
    exists|i: int, j: int| 0 <= i < s.len() && 0 <= j < s.len() && #[trigger] s[i] < #[trigger] s[j]
}

/// No present sample: every sample of the cells is missing.
pub open spec fn all_missing(cells: Seq<MeshCell>) -> bool {
    forall|i: int| 0 <= i < cells.len() ==> (#[trigger] cells[i]).value is None
}

/// An axis can be given an interval: the caller gave one, or the coordinates
/// along it differ.
pub open spec fn axis_is_defined(given: Option<Interval>, coordinates: Seq<i32>) -> bool {
    given is Some || has_spread(coordinates)
}

/// The interval of an axis that can be given one.
pub open spec fn is_axis_of(interval: Interval, given: Option<Interval>, coordinates: Seq<i32>)
    -> bool {
    match given {
        Some(g) => interval == g,
        None => spans(coordinates, interval.start, interval.end) && interval.has_extent(),
    }
}

/// The primitive of cell `cell` under `mode`, with `range` the range its
/// sample is normalised against.
pub open spec fn primitive_of(cell: MeshCell, mode: RenderMode, range: ValueRange)
    -> PrimitiveView {
    match mode {
        RenderMode::Wireframe { stroke } => PrimitiveView::Polyline {
            vertices: closed_outline(cell.vertices@),
            color: stroke,
        },
        RenderMode::Heatmap { gradient, value_range } => PrimitiveView::FilledPolygon {
            vertices: cell.vertices@,
            color: continuous_color(gradient, normalized_sample(cell.value, range)),
        },
    }
}

/// The range the samples of a heatmap are normalised against, if there is one.
pub open spec fn heatmap_range(cells: Seq<MeshCell>, mode: RenderMode) -> Option<ValueRange> {
    match mode {
        RenderMode::Wireframe { stroke } => None,
        RenderMode::Heatmap { gradient, value_range } => effective_range(
            cell_samples(cells),
            value_range,
        ),
    }
}

/// The samples of the mesh can be coloured: it is a wireframe, or a range was
/// given, or a sample is present.
pub open spec fn values_are_defined(cells: Seq<MeshCell>, mode: RenderMode) -> bool {
    match mode {
        RenderMode::Wireframe { stroke } => true,
        RenderMode::Heatmap { gradient, value_range } => value_range is Some || !all_missing(cells),
    }
}

/// What spans a sequence has a positive length exactly when two of its
/// elements differ.
pub proof fn lemma_spread_of_spanned(s: Seq<i32>, lo: i32, hi: i32)
    requires
        spans(s, lo, hi),
    ensures
        lo < hi <==> has_spread(s),
{
    if lo < hi {
        let a = choose|i: int| 0 <= i < s.len() && s[i] == lo;
        let b = choose|i: int| 0 <= i < s.len() && s[i] == hi;
        assert(s[a] < s[b]);
    }
    if has_spread(s) {
        let (i, j) = choose|i: int, j: int|
            0 <= i < s.len() && 0 <= j < s.len() && #[trigger] s[i] < #[trigger] s[j];
        assert(lo <= s[i] && s[j] <= hi);
    }
}

/// A copy of `v`.
pub fn copy_points(v: &Vec<Point>) -> (r: Vec<Point>)
    ensures
        r@ == v@,
{
    let mut r: Vec<Point> = Vec::new();
    let mut i: usize = 0;
    while i < v.len()
        invariant
            i <= v.len(),
            r@ == v@.take(i as int),
        decreases v.len() - i,
    {
        r.push(v[i]);
        assert(v@.take(i + 1) =~= v@.take(i as int).push(v[i as int]));
        i += 1;
    }
    assert(v@.take(v.len() as int) =~= v@);
    r
}

/// The vertices of all cells, cell after cell.
pub fn flatten(cells: &Vec<MeshCell>) -> (flat: Vec<Point>)
    ensures
        flat@ == all_vertices(cells@),
{
    let mut flat: Vec<Point> = Vec::new();
    let mut i: usize = 0;
    while i < cells.len()
        invariant
            i <= cells.len(),
            flat@ == all_vertices(cells@.take(i as int)),
        decreases cells.len() - i,
    {
        let vertices = &cells[i].vertices;
        let ghost before = flat@;
        let mut j: usize = 0;
        while j < vertices.len()
            invariant
                j <= vertices.len(),
                flat@ == before + vertices@.take(j as int),
            decreases vertices.len() - j,
        {
            flat.push(vertices[j]);
            assert(vertices@.take(j + 1) =~= vertices@.take(j as int).push(vertices[j as int]));
            assert(flat@ =~= before + vertices@.take(j + 1));
            j += 1;
        }
        proof {
            assert(vertices@.take(vertices.len() as int) =~= vertices@);
            assert(cells@.take(i + 1).drop_last() =~= cells@.take(i as int));
            assert(cells@.take(i + 1).last() == cells[i as int]);
        }
        i += 1;
    }
    assert(cells@.take(cells.len() as int) =~= cells@);
    flat
}

/// The outline of one cell.
pub fn outline(vertices: &Vec<Point>) -> (r: Vec<Point>)
    ensures
        r@ == closed_outline(vertices@),
{
    let mut r: Vec<Point> = Vec::new();
    let n = vertices.len();
    if n == 0 {
        assert(r@ =~= closed_outline(vertices@));
        return r;
    }
    let mut i: usize = 0;
    while i < 4
        invariant
            i <= 4,
            n == vertices.len(),
            n > 0,
            r.len() == i,
            forall|k: int| 0 <= k < i ==> #[trigger] r[k] == vertices[k % n as int],
        decreases 4 - i,
    {
        r.push(vertices[i % n]);
        i += 1;
    }
    assert(r@ =~= closed_outline(vertices@));
    r
}

impl Triangulation {
    /// The cells of the triangulation, in the order of its triangles, each
    /// with the mean of the samples at its vertices.
    pub fn cells(&self, vertex_values: &Vec<Option<i32>>) -> (cells: Vec<MeshCell>)
        requires
            vertex_values.len() == self@.points.len(),
        ensures
            cells.len() == self@.triangles.len(),
            forall|i: int|
                0 <= i < cells.len() ==> is_cell_of(
                    #[trigger] cells[i],
                    self@.points,
                    self@.triangles[i],
                    cell_means(self@.triangles, vertex_values@)[i],
                ),
    {
        let values = self.cell_values(vertex_values);
        let n = self.triangles().len();
        let mut cells: Vec<MeshCell> = Vec::new();
        let mut i: usize = 0;
        while i < n
            invariant
                i <= n,
                n == self@.triangles.len(),
                values@ == cell_means(self@.triangles, vertex_values@),
                cells.len() == i,
                forall|k: int|
                    0 <= k < i ==> is_cell_of(
                        #[trigger] cells[k],
                        self@.points,
                        self@.triangles[k],
                        values[k],
                    ),
            decreases n - i,
        {
            let (a, b, c) = self.vertices(i);
            let mut vertices: Vec<Point> = Vec::new();
            vertices.push(a);
            vertices.push(b);
            vertices.push(c);
            assert(vertices@ =~= seq![a, b, c]);
            cells.push(MeshCell { vertices, value: values[i] });
            i += 1;
        }
        cells
    }

    /// The cells of the triangulation without samples, for a wireframe.
    pub fn outlines(&self) -> (cells: Vec<MeshCell>)
        ensures
            cells.len() == self@.triangles.len(),
            forall|i: int|
                0 <= i < cells.len() ==> is_cell_of(
                    #[trigger] cells[i],
                    self@.points,
                    self@.triangles[i],
                    None,
                ),
    {
        let n = self.triangles().len();
        let mut cells: Vec<MeshCell> = Vec::new();
        let mut i: usize = 0;
        while i < n
            invariant
                i <= n,
                n == self@.triangles.len(),
                cells.len() == i,
                forall|k: int|
                    0 <= k < i ==> is_cell_of(
                        #[trigger] cells[k],
                        self@.points,
                        self@.triangles[k],
                        None,
                    ),
            decreases n - i,
        {
            let (a, b, c) = self.vertices(i);
            let mut vertices: Vec<Point> = Vec::new();
            vertices.push(a);
            vertices.push(b);
            vertices.push(c);
            assert(vertices@ =~= seq![a, b, c]);
            cells.push(MeshCell { vertices, value: None });
            i += 1;
        }
        cells
    }
}

/// The intervals of the two axes of a mesh.
///
/// An interval given by the caller is taken as it is.  An interval that is not
/// given is the extent of the vertices of all cells along that axis; the call
/// fails with `DegenerateAxisRange` when that extent has no positive length,
/// as for a mesh without vertices or with all vertices on one line parallel to
/// the other axis.
pub fn axis_ranges(cells: &Vec<MeshCell>, x_range: Option<Interval>, y_range: Option<Interval>)
    -> (r: Result<(Interval, Interval), MeshError>)
    ensures
        r is Ok <==> axis_is_defined(x_range, xs(all_vertices(cells@))) && axis_is_defined(
            y_range,
            ys(all_vertices(cells@)),
        ),
        r matches Err(e) ==> e == MeshError::DegenerateAxisRange,
        r matches Ok((x, y)) ==> is_axis_of(x, x_range, xs(all_vertices(cells@))) && is_axis_of(
            y,
            y_range,
            ys(all_vertices(cells@)),
        ),
{
    let flat = flatten(cells);
    let (measured_x, measured_y) = match bounding_box(&flat) {
        Some((x, y)) => (Some(x), Some(y)),
        None => (None, None),
    };
    proof {
        match (measured_x, measured_y) {
            (Some(x), Some(y)) => {
                lemma_spread_of_spanned(xs(flat@), x.start, x.end);
                lemma_spread_of_spanned(ys(flat@), y.start, y.end);
            },
            _ => {},
        }
    }
    let x = match choose_interval(x_range, measured_x) {
        Ok(x) => x,
        Err(e) => {
            return Err(e);
        },
    };
    let y = match choose_interval(y_range, measured_y) {
        Ok(y) => y,
        Err(e) => {
            return Err(e);
        },
    };
    Ok((x, y))
}

/// Lays out a mesh.
///
/// The axes are chosen as by `axis_ranges`.  In heatmap mode the samples are
/// normalised as by `normalize`: against the given value range, or against the
/// range of the present samples, and the call fails with `EmptyRange` when no
/// range is given and no sample is present.  A failure of the axes is reported
/// before a failure of the samples.  Every cell yields one primitive.
pub fn render(
    cells: &Vec<MeshCell>,
    mode: RenderMode,
    x_range: Option<Interval>,
    y_range: Option<Interval>,
) -> (r: Result<Scene, MeshError>)
    ensures
        r is Ok <==> axis_is_defined(x_range, xs(all_vertices(cells@))) && axis_is_defined(
            y_range,
            ys(all_vertices(cells@)),
        ) && values_are_defined(cells@, mode),
        r matches Err(e) ==> e == (if axis_is_defined(x_range, xs(all_vertices(cells@)))
            && axis_is_defined(y_range, ys(all_vertices(cells@))) {
            MeshError::EmptyRange
        } else {
            MeshError::DegenerateAxisRange
        }),
        r matches Ok(scene) ==> {
            &&& is_axis_of(scene.x_range, x_range, xs(all_vertices(cells@)))
            &&& is_axis_of(scene.y_range, y_range, ys(all_vertices(cells@)))
            &&& scene.value_range == heatmap_range(cells@, mode)
            &&& scene.value_range is Some <==> mode is Heatmap
            &&& scene.primitives.len() == cells.len()
            &&& forall|i: int|
                0 <= i < cells.len() ==> (#[trigger] scene.primitives[i])@ == primitive_of(
                    cells[i],
                    mode,
                    match scene.value_range {
                        Some(range) => range,
                        None => ValueRange { min: 0, max: 0 },
                    },
                )
        },
{
    let (x, y) = match axis_ranges(cells, x_range, y_range) {
        Ok(axes) => axes,
        Err(e) => {
            return Err(e);
        },
    };
    let mut primitives: Vec<RenderPrimitive> = Vec::new();
    match mode {
        RenderMode::Wireframe { stroke } => {
            let mut i: usize = 0;
            while i < cells.len()
                invariant
                    i <= cells.len(),
                    primitives.len() == i,
                    mode == (RenderMode::Wireframe { stroke }),
                    forall|k: int|
                        0 <= k < i ==> (#[trigger] primitives[k])@ == primitive_of(
                            cells[k],
                            mode,
                            ValueRange { min: 0, max: 0 },
                        ),
                decreases cells.len() - i,
            {
                let vertices = outline(&cells[i].vertices);
                primitives.push(RenderPrimitive::Polyline { vertices, color: stroke });
                i += 1;
            }
            Ok(Scene { x_range: x, y_range: y, primitives, value_range: None })
        },
        RenderMode::Heatmap { gradient, value_range } => {
            let mut samples: Vec<Option<i32>> = Vec::new();
            let mut i: usize = 0;
            while i < cells.len()
                invariant
                    i <= cells.len(),
                    samples.len() == i,
                    forall|k: int| 0 <= k < i ==> #[trigger] samples[k] == cells[k].value,
                decreases cells.len() - i,
            {
                samples.push(cells[i].value);
                i += 1;
            }
            proof {
                assert(samples@ =~= cell_samples(cells@));
                assert(all_missing(cells@) <==> forall|k: int|
                    0 <= k < samples.len() ==> #[trigger] samples[k] is None) by {
                    if all_missing(cells@) {
                        assert forall|k: int| 0 <= k < samples.len() implies #[trigger] samples[k]
                            is None by {
                            assert(cells[k].value is None);
                        }
                    } else {
                        let w = choose|k: int|
                            0 <= k < cells.len() && !((#[trigger] cells[k]).value is None);
                        assert(samples[w] is Some);
                    }
                }
            }
            let normalized = match normalize(&samples, value_range) {
                Ok(n) => n,
                Err(e) => {
                    return Err(e);
                },
            };
            let range = normalized.range;
            let mut i: usize = 0;
            while i < cells.len()
                invariant
                    i <= cells.len(),
                    primitives.len() == i,
                    mode == (RenderMode::Heatmap { gradient, value_range }),
                    normalized.values.len() == cells.len(),
                    range == normalized.range,
                    forall|k: int|
                        0 <= k < cells.len() ==> #[trigger] normalized.values[k]
                            == normalized_sample(cells[k].value, range),
                    forall|k: int|
                        0 <= k < i ==> (#[trigger] primitives[k])@ == primitive_of(
                            cells[k],
                            mode,
                            range,
                        ),
                decreases cells.len() - i,
            {
                let color = color_continuous(gradient, normalized.values[i]);
                let vertices = copy_points(&cells[i].vertices);
                primitives.push(RenderPrimitive::FilledPolygon { vertices, color });
                i += 1;
            }
            Ok(Scene { x_range: x, y_range: y, primitives, value_range: Some(range) })
        },
    }
}

} // verus!
