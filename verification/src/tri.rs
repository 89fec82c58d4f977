//! Charts on a triangular mesh: the wireframe of the mesh and the heatmap of
//! a scalar field given per cell.

use vstd::prelude::*;
use crate::axis::{xs, ys, Interval};
use crate::color::{Gradient, Rgb};
use crate::colorbar::{strip, synthesize, Swatch};
use crate::config::{file_name, settings, Config};
use crate::error::MeshError;
use crate::normalize::ValueRange;
use crate::render::{
    all_vertices,
    axis_is_defined,
    heatmap_range,
    is_axis_of,
    primitive_of,
    render,
    values_are_defined,
    MeshCell,
    RenderMode,
    RenderPrimitive,
};

verus! {

/// The side of the square drawing area, in pixels; also the number of
/// swatches of the colorbar.
pub const CANVAS_SIDE: u32 = 768;

/// The height of the colorbar below the drawing area, in pixels.
pub const COLORBAR_HEIGHT: u32 = 80;

/// The stroke of a wireframe: black.
pub open spec fn wireframe_mode() -> RenderMode {
    RenderMode::Wireframe { stroke: Rgb { r: 0, g: 0, b: 0 } }
}

/// How the cells of a heatmap are coloured under `config`.
pub open spec fn heatmap_mode(config: Config) -> RenderMode {
    RenderMode::Heatmap { gradient: Gradient::Cividis, value_range: config.value_range() }
}

/// The wireframe of a Delaunay mesh, given the vertices of its triangles.
#[derive(Debug, PartialEq, Eq)]
pub struct Mesh {
    pub filename: String,
    pub width: u32,
    pub height: u32,
    pub x_range: Interval,
    pub y_range: Interval,
    pub x_label: Option<String>,
    pub y_label: Option<String>,
    /// One closed polyline per cell.
    pub outlines: Vec<RenderPrimitive>,
}

/// The heatmap of a scalar field on a Delaunay mesh, given the vertices and
/// the sample of each triangle, with its colorbar.
#[derive(Debug, PartialEq, Eq)]
pub struct Heatmap {
    pub filename: String,
    pub width: u32,
    /// The height of the whole canvas: drawing area and colorbar.
    pub height: u32,
    /// The height of the drawing area, below which the colorbar lies.
    pub split: u32,
    pub x_range: Interval,
    pub y_range: Interval,
    pub x_label: Option<String>,
    pub y_label: Option<String>,
    /// One filled polygon per cell.
    pub polygons: Vec<RenderPrimitive>,
    /// The range that the colours and the colorbar span.
    pub value_range: ValueRange,
    pub colorbar: Vec<Swatch>,
    pub colorbar_label: Option<String>,
}

impl Mesh {
    /// Lays out the wireframe of `cells`.
    ///
    /// The file name is that of `config`, or `complot-tri-mesh.png`.  Each
    /// axis has the range of `config`, or else the extent of all vertices
    /// along it; the call fails with `DegenerateAxisRange` when that extent
    /// has no positive length.  The samples of the cells are not looked at.
    pub fn layout(cells: &Vec<MeshCell>, config: Option<Config>) -> (r: Result<Mesh, MeshError>)
        ensures
            r is Ok <==> axis_is_defined(settings(config).xaxis.range, xs(all_vertices(cells@)))
                && axis_is_defined(settings(config).yaxis.range, ys(all_vertices(cells@))),
            r matches Err(e) ==> e == MeshError::DegenerateAxisRange,
            r matches Ok(mesh) ==> {
                &&& mesh.filename@ == file_name(settings(config), "complot-tri-mesh.png"@)
                &&& mesh.width == CANVAS_SIDE
                &&& mesh.height == CANVAS_SIDE
                &&& mesh.x_label == settings(config).xaxis.label
                &&& mesh.y_label == settings(config).yaxis.label
                &&& is_axis_of(
                    mesh.x_range,
                    settings(config).xaxis.range,
                    xs(all_vertices(cells@)),
                )
                &&& is_axis_of(
                    mesh.y_range,
                    settings(config).yaxis.range,
                    ys(all_vertices(cells@)),
                )
                &&& mesh.outlines.len() == cells.len()
                &&& forall|i: int|
                    0 <= i < cells.len() ==> (#[trigger] mesh.outlines[i])@ == primitive_of(
                        cells[i],
                        wireframe_mode(),
                        ValueRange { min: 0, max: 0 },
                    )
            },
    {
        let config = match config {
            Some(c) => c,
            None => Config::new(),
        };
        let stroke = Rgb { r: 0, g: 0, b: 0 };
        let scene = match render(
            cells,
            RenderMode::Wireframe { stroke },
            config.xaxis.range,
            config.yaxis.range,
        ) {
            Ok(scene) => scene,
            Err(e) => {
                return Err(e);
            },
        };
        let filename = match config.filename {
            Some(name) => name,
            None => "complot-tri-mesh.png".to_string(),
        };
        Ok(
            Mesh {
                filename,
                width: CANVAS_SIDE,
                height: CANVAS_SIDE,
                x_range: scene.x_range,
                y_range: scene.y_range,
                x_label: config.xaxis.label,
                y_label: config.yaxis.label,
                outlines: scene.primitives,
            },
        )
    }
}

impl Heatmap {
    /// Lays out the heatmap of `cells` and its colorbar.
    ///
    /// The file name is that of `config`, or `complot-tri-heatmap.png`.  The
    /// axes are chosen as for a wireframe.  The samples are normalised against
    /// the colormap bounds of `config`, or else against the range of the
    /// present samples, and coloured along the Cividis gradient; a cell whose
    /// sample is missing is black.  The colorbar spans the same range with one
    /// swatch per pixel of the canvas side.  The call fails with
    /// `DegenerateAxisRange` for an axis without extent, else with
    /// `EmptyRange` when no bounds are given and no sample is present.
    pub fn layout(cells: &Vec<MeshCell>, config: Option<Config>) -> (r: Result<Heatmap, MeshError>)
        ensures
            r is Ok <==> axis_is_defined(settings(config).xaxis.range, xs(all_vertices(cells@)))
                && axis_is_defined(settings(config).yaxis.range, ys(all_vertices(cells@)))
                && values_are_defined(cells@, heatmap_mode(settings(config))),
            r matches Err(e) ==> e == (if axis_is_defined(
                settings(config).xaxis.range,
                xs(all_vertices(cells@)),
            ) && axis_is_defined(settings(config).yaxis.range, ys(all_vertices(cells@))) {
                MeshError::EmptyRange
            } else {
                MeshError::DegenerateAxisRange
            }),
            r matches Ok(map) ==> {
                &&& map.filename@ == file_name(settings(config), "complot-tri-heatmap.png"@)
                &&& map.width == CANVAS_SIDE
                &&& map.height == CANVAS_SIDE + COLORBAR_HEIGHT
                &&& map.split == CANVAS_SIDE
                &&& map.x_label == settings(config).xaxis.label
                &&& map.y_label == settings(config).yaxis.label
                &&& map.colorbar_label == (match settings(config).colorbar {
                    Some(bar) => bar.label,
                    None => None,
                })
                &&& is_axis_of(
                    map.x_range,
                    settings(config).xaxis.range,
                    xs(all_vertices(cells@)),
                )
                &&& is_axis_of(
                    map.y_range,
                    settings(config).yaxis.range,
                    ys(all_vertices(cells@)),
                )
                &&& Some(map.value_range) == heatmap_range(cells@, heatmap_mode(settings(config)))
                &&& map.polygons.len() == cells.len()
                &&& forall|i: int|
                    0 <= i < cells.len() ==> (#[trigger] map.polygons[i])@ == primitive_of(
                        cells[i],
                        heatmap_mode(settings(config)),
                        map.value_range,
                    )
                &&& map.colorbar@ == strip(map.value_range, Gradient::Cividis, CANVAS_SIDE as int)
            },
    {
        let config = match config {
            Some(c) => c,
            None => Config::new(),
        };
        let config = config.with_colorbar();
        let gradient = Gradient::Cividis;
        let scene = match render(
            cells,
            RenderMode::Heatmap { gradient, value_range: config.colormap_range() },
            config.xaxis.range,
            config.yaxis.range,
        ) {
            Ok(scene) => scene,
            Err(e) => {
                return Err(e);
            },
        };
        let value_range = match scene.value_range {
            Some(range) => range,
            None => ValueRange { min: 0, max: 0 },
        };
        let colorbar = synthesize(value_range, gradient, CANVAS_SIDE as usize);
        let filename = match config.filename {
            Some(name) => name,
            None => "complot-tri-heatmap.png".to_string(),
        };
        let colorbar_label = match config.colorbar {
            Some(bar) => bar.label,
            None => None,
        };
        Ok(
            Heatmap {
                filename,
                width: CANVAS_SIDE,
                height: CANVAS_SIDE + COLORBAR_HEIGHT,
                split: CANVAS_SIDE,
                x_range: scene.x_range,
                y_range: scene.y_range,
                x_label: config.xaxis.label,
                y_label: config.yaxis.label,
                polygons: scene.primitives,
                value_range,
                colorbar,
                colorbar_label,
            },
        )
    }
}

} // verus!
