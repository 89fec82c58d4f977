//! Exact layout of charts: line and scatter plots, heatmaps of gridded data,
//! and wireframes and heatmaps of triangular meshes.
//!
//! Coordinates and samples are fixed-point integers, so every geometric
//! predicate, mean, range and normalisation in this crate is exact.  A sample
//! that is missing is `None`; it is kept out of every range and drawn black.
//!
//! The heart of the crate is the colour-coded mesh:
//!
//! - `triangulation` builds the Delaunay triangulation of lattice points;
//!   `hull` states, and `tiling`, `lifting`, `perturb` and `sums` prove,
//!   that its triangles cover the convex hull;
//! - `cell` reduces one sample per vertex to one sample per triangle;
//! - `normalize` finds the range of the samples and maps them to the unit
//!   interval;
//! - `color` maps the unit interval to the colours of a gradient;
//! - `render` turns cells into drawing primitives and chooses the axes;
//! - `colorbar` lays out the legend strip of a gradient.
//!
//! `tri`, `heatmap`, `line`, `scatter` and `combo` lay out whole charts from
//! the properties in `config`.  The crate produces backend-agnostic layouts;
//! drawing them is left to the caller.

pub mod arith;
pub mod axis;
pub mod cell;
pub mod color;
pub mod colorbar;
pub mod combo;
pub mod config;
pub mod error;
pub mod geometry;
pub mod heatmap;
pub mod hull;
pub mod lifting;
pub mod line;
pub mod normalize;
pub mod perturb;
pub mod ratio;
pub mod render;
pub mod scatter;
pub mod series;
pub mod sums;
pub mod tiling;
pub mod tri;
pub mod triangulation;

pub use combo::{Combo, Kind};
pub use config::{Axis, Colorbar, Config};
pub use heatmap::Heatmap;
pub use line::{LinLog, LogLin, LogLog, Plot};
pub use scatter::Scatter;
