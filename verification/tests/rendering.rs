use complot::axis::{bounding_box, choose_interval, extent, hull, Interval};
use complot::color::{color_continuous, color_discrete, Gradient, Rgb};
use complot::colorbar::synthesize;
use complot::normalize::normalize;
use complot::config::{Axis, Config};
use complot::error::MeshError;
use complot::geometry::Point;
use complot::heatmap::{Heatmap, Tile};
use complot::normalize::ValueRange;
use complot::ratio::Ratio;
use complot::render::{
    axis_ranges, copy_points, flatten, outline, render, MeshCell, RenderMode, RenderPrimitive,
};
use complot::tri;
use complot::triangulation::Triangulation;

const BLACK: Rgb = Rgb { r: 0, g: 0, b: 0 };

fn pts(xy: &[(i32, i32)]) -> Vec<Point> {
    xy.iter().map(|&(x, y)| Point { x, y }).collect()
}

fn cell(xy: &[(i32, i32)], value: Option<i32>) -> MeshCell {
    MeshCell { vertices: pts(xy), value }
}

fn iv(start: i32, end: i32) -> Interval {
    Interval { start, end }
}

fn square_cells() -> Vec<MeshCell> {
    let t = Triangulation::build(pts(&[(0, 0), (1, 0), (0, 1), (1, 1)])).unwrap();
    t.cells(&vec![Some(0), Some(1000), Some(1000), Some(2000)])
}

#[test]
fn extent_of_values() {
    assert_eq!(extent(&vec![]), None);
    assert_eq!(extent(&vec![4]), Some(iv(4, 4)));
    assert_eq!(extent(&vec![4, -2, 9, 0]), Some(iv(-2, 9)));
    assert_eq!(hull(iv(0, 5), iv(-3, 2)), iv(-3, 5));
    assert_eq!(hull(iv(0, 5), iv(1, 7)), iv(0, 7));
}

#[test]
fn bounding_box_of_points() {
    assert_eq!(bounding_box(&pts(&[])), None);
    assert_eq!(bounding_box(&pts(&[(3, -4)])), Some((iv(3, 3), iv(-4, -4))));
    assert_eq!(
        bounding_box(&pts(&[(3, -4), (-1, 8), (7, 2), (0, 0)])),
        Some((iv(-1, 7), iv(-4, 8)))
    );
}

#[test]
fn given_interval_wins_over_the_measured_one() {
    assert_eq!(choose_interval(Some(iv(5, 1)), Some(iv(0, 9))), Ok(iv(5, 1)));
    assert_eq!(choose_interval(Some(iv(2, 2)), None), Ok(iv(2, 2)));
    assert_eq!(choose_interval(None, Some(iv(0, 9))), Ok(iv(0, 9)));
    assert_eq!(choose_interval(None, Some(iv(4, 4))), Err(MeshError::DegenerateAxisRange));
    assert_eq!(choose_interval(None, None), Err(MeshError::DegenerateAxisRange));
}

#[test]
fn cells_of_a_triangulation() {
    let cells = square_cells();
    assert_eq!(
        cells,
        vec![
            cell(&[(0, 0), (1, 0), (0, 1)], Some(667)),
            cell(&[(1, 0), (0, 1), (1, 1)], Some(1333)),
        ]
    );
    let t = Triangulation::build(pts(&[(0, 0), (1, 0), (0, 1), (1, 1)])).unwrap();
    assert_eq!(
        t.outlines(),
        vec![cell(&[(0, 0), (1, 0), (0, 1)], None), cell(&[(1, 0), (0, 1), (1, 1)], None)]
    );
}

#[test]
fn flatten_and_outline() {
    let cells = vec![cell(&[(0, 0), (1, 0), (0, 1)], None), cell(&[], None), cell(&[(5, 5)], None)];
    assert_eq!(flatten(&cells), pts(&[(0, 0), (1, 0), (0, 1), (5, 5)]));
    assert_eq!(outline(&pts(&[(0, 0), (1, 0), (0, 1)])), pts(&[(0, 0), (1, 0), (0, 1), (0, 0)]));
    assert_eq!(outline(&pts(&[])), pts(&[]));
    assert_eq!(outline(&pts(&[(1, 2), (3, 4)])), pts(&[(1, 2), (3, 4), (1, 2), (3, 4)]));
    assert_eq!(copy_points(&pts(&[(1, 2), (3, 4)])), pts(&[(1, 2), (3, 4)]));
}

#[test]
fn unit_square_from_points_to_colorbar() {
    // Samples 0, 1, 1, 2 in thousandths.
    let points = pts(&[(0, 0), (1, 0), (0, 1), (1, 1)]);
    let samples = vec![Some(0), Some(1000), Some(1000), Some(2000)];
    let t = Triangulation::build(points).unwrap();
    assert_eq!(t.triangles().len(), 2);
    let cells = t.cell_values(&samples);
    assert_eq!(cells, vec![Some(667), Some(1333)]);
    let normalized = normalize(&cells, None).unwrap();
    assert_eq!(normalized.range, ValueRange { min: 667, max: 1333 });
    let strip = synthesize(normalized.range, Gradient::Viridis, 5);
    assert_eq!(strip.len(), 5);
    assert_eq!(strip[0].x0, Ratio { num: 667 * 4, den: 4 });
    assert_eq!(strip[4].x0, Ratio { num: 1333 * 4, den: 4 });
    assert_eq!(strip[0].color, color_continuous(Gradient::Viridis, Some(Ratio { num: 0, den: 4 })));
    assert_eq!(strip[4].color, color_continuous(Gradient::Viridis, Some(Ratio { num: 4, den: 4 })));
    let scene = render(
        &t.cells(&samples),
        RenderMode::Heatmap { gradient: Gradient::Viridis, value_range: None },
        None,
        None,
    )
    .unwrap();
    assert_eq!(scene.value_range, Some(normalized.range));
    assert_eq!(
        scene.primitives,
        vec![
            RenderPrimitive::FilledPolygon {
                vertices: pts(&[(0, 0), (1, 0), (0, 1)]),
                color: strip[0].color
            },
            RenderPrimitive::FilledPolygon {
                vertices: pts(&[(1, 0), (0, 1), (1, 1)]),
                color: strip[4].color
            },
        ]
    );
}

#[test]
fn wireframe_of_the_unit_square() {
    let stroke = Rgb { r: 9, g: 8, b: 7 };
    let scene = render(&square_cells(), RenderMode::Wireframe { stroke }, None, None).unwrap();
    assert_eq!(scene.x_range, iv(0, 1));
    assert_eq!(scene.y_range, iv(0, 1));
    assert_eq!(scene.value_range, None);
    assert_eq!(
        scene.primitives,
        vec![
            RenderPrimitive::Polyline {
                vertices: pts(&[(0, 0), (1, 0), (0, 1), (0, 0)]),
                color: stroke
            },
            RenderPrimitive::Polyline {
                vertices: pts(&[(1, 0), (0, 1), (1, 1), (1, 0)]),
                color: stroke
            },
        ]
    );
}

#[test]
fn heatmap_of_the_unit_square() {
    let mode = RenderMode::Heatmap { gradient: Gradient::Cividis, value_range: None };
    let scene = render(&square_cells(), mode, None, None).unwrap();
    assert_eq!(scene.value_range, Some(ValueRange { min: 667, max: 1333 }));
    assert_eq!(
        scene.primitives,
        vec![
            RenderPrimitive::FilledPolygon {
                vertices: pts(&[(0, 0), (1, 0), (0, 1)]),
                color: Rgb { r: 0, g: 32, b: 81 }
            },
            RenderPrimitive::FilledPolygon {
                vertices: pts(&[(1, 0), (0, 1), (1, 1)]),
                color: Rgb { r: 253, g: 233, b: 69 }
            },
        ]
    );
}

#[test]
fn heatmap_with_a_given_value_range() {
    let range = ValueRange { min: 0, max: 2000 };
    let mode = RenderMode::Heatmap { gradient: Gradient::Viridis, value_range: Some(range) };
    let scene = render(&square_cells(), mode, Some(iv(-5, 5)), Some(iv(7, 3))).unwrap();
    assert_eq!(scene.x_range, iv(-5, 5));
    assert_eq!(scene.y_range, iv(7, 3));
    assert_eq!(scene.value_range, Some(range));
    let colors: Vec<Rgb> = scene
        .primitives
        .iter()
        .map(|p| match p {
            RenderPrimitive::FilledPolygon { color, .. } => *color,
            RenderPrimitive::Polyline { .. } => panic!("a heatmap has no polylines"),
        })
        .collect();
    assert_eq!(
        colors,
        vec![
            color_continuous(Gradient::Viridis, Some(Ratio { num: 667, den: 2000 })),
            color_continuous(Gradient::Viridis, Some(Ratio { num: 1333, den: 2000 })),
        ]
    );
}

#[test]
fn cell_with_a_missing_sample_is_black() {
    let t = Triangulation::build(pts(&[(0, 0), (1, 0), (0, 1), (1, 1)])).unwrap();
    let cells = t.cells(&vec![None, Some(30), Some(60), Some(90)]);
    assert_eq!(cells[0].value, None);
    assert_eq!(cells[1].value, Some(60));
    let mode = RenderMode::Heatmap { gradient: Gradient::Cividis, value_range: None };
    let scene = render(&cells, mode, None, None).unwrap();
    assert_eq!(scene.value_range, Some(ValueRange { min: 60, max: 60 }));
    assert_eq!(
        scene.primitives,
        vec![
            RenderPrimitive::FilledPolygon { vertices: pts(&[(0, 0), (1, 0), (0, 1)]), color: BLACK },
            RenderPrimitive::FilledPolygon {
                vertices: pts(&[(1, 0), (0, 1), (1, 1)]),
                color: color_continuous(Gradient::Cividis, Some(Ratio { num: 1, den: 2 }))
            },
        ]
    );
}

#[test]
fn mesh_without_extent_has_no_axes() {
    let stroke = BLACK;
    let wire = RenderMode::Wireframe { stroke };
    assert_eq!(render(&vec![], wire, None, None).unwrap_err(), MeshError::DegenerateAxisRange);
    let point = vec![cell(&[(2, 2), (2, 2), (2, 2)], Some(1))];
    assert_eq!(render(&point, wire, None, None).unwrap_err(), MeshError::DegenerateAxisRange);
    let flat = vec![cell(&[(0, 2), (1, 2), (5, 2)], Some(1))];
    assert_eq!(render(&flat, wire, None, None).unwrap_err(), MeshError::DegenerateAxisRange);
    assert_eq!(
        render(&flat, wire, Some(iv(0, 1)), None).unwrap_err(),
        MeshError::DegenerateAxisRange
    );
    let scene = render(&flat, wire, None, Some(iv(0, 4))).unwrap();
    assert_eq!((scene.x_range, scene.y_range), (iv(0, 5), iv(0, 4)));
    let scene = render(&vec![], wire, Some(iv(0, 1)), Some(iv(0, 1))).unwrap();
    assert!(scene.primitives.is_empty());
    assert_eq!(axis_ranges(&flat, None, Some(iv(1, 0))), Ok((iv(0, 5), iv(1, 0))));
    assert_eq!(axis_ranges(&flat, None, None), Err(MeshError::DegenerateAxisRange));
}

#[test]
fn heatmap_without_present_samples_has_no_range() {
    let cells = vec![cell(&[(0, 0), (1, 0), (0, 1)], None)];
    let auto = RenderMode::Heatmap { gradient: Gradient::Viridis, value_range: None };
    assert_eq!(render(&cells, auto, None, None).unwrap_err(), MeshError::EmptyRange);
    // A failure of the axes is reported first.
    let flat = vec![cell(&[(0, 0), (1, 0)], None)];
    assert_eq!(render(&flat, auto, None, None).unwrap_err(), MeshError::DegenerateAxisRange);
    let given = RenderMode::Heatmap {
        gradient: Gradient::Viridis,
        value_range: Some(ValueRange { min: 0, max: 1 }),
    };
    let scene = render(&cells, given, None, None).unwrap();
    assert_eq!(
        scene.primitives,
        vec![RenderPrimitive::FilledPolygon {
            vertices: pts(&[(0, 0), (1, 0), (0, 1)]),
            color: BLACK
        }]
    );
}

#[test]
fn mesh_layout() {
    let cells = square_cells();
    let mesh = tri::Mesh::layout(&cells, None).unwrap();
    assert_eq!(mesh.filename, "complot-tri-mesh.png");
    assert_eq!((mesh.width, mesh.height), (768, 768));
    assert_eq!((mesh.x_range, mesh.y_range), (iv(0, 1), iv(0, 1)));
    assert_eq!((mesh.x_label.clone(), mesh.y_label.clone()), (None, None));
    assert_eq!(
        mesh.outlines,
        vec![
            RenderPrimitive::Polyline { vertices: pts(&[(0, 0), (1, 0), (0, 1), (0, 0)]), color: BLACK },
            RenderPrimitive::Polyline { vertices: pts(&[(1, 0), (0, 1), (1, 1), (1, 0)]), color: BLACK },
        ]
    );
    let config = Config::new()
        .filename("mesh.svg".to_string())
        .xaxis(Axis::new().label("x".to_string()).range(iv(-1, 2)))
        .yaxis(Axis::new().label("y".to_string()));
    let mesh = tri::Mesh::layout(&cells, Some(config)).unwrap();
    assert_eq!(mesh.filename, "mesh.svg");
    assert_eq!((mesh.x_range, mesh.y_range), (iv(-1, 2), iv(0, 1)));
    assert_eq!(mesh.x_label, Some("x".to_string()));
    assert_eq!(mesh.y_label, Some("y".to_string()));
    assert_eq!(
        tri::Mesh::layout(&vec![], None).unwrap_err(),
        MeshError::DegenerateAxisRange
    );
}

#[test]
fn triangular_heatmap_layout() {
    let cells = square_cells();
    let map = tri::Heatmap::layout(&cells, None).unwrap();
    assert_eq!(map.filename, "complot-tri-heatmap.png");
    assert_eq!((map.width, map.height, map.split), (768, 848, 768));
    assert_eq!((map.x_range, map.y_range), (iv(0, 1), iv(0, 1)));
    assert_eq!(map.value_range, ValueRange { min: 667, max: 1333 });
    assert_eq!(map.colorbar_label, None);
    assert_eq!(map.polygons.len(), 2);
    assert_eq!(
        map.polygons[0],
        RenderPrimitive::FilledPolygon {
            vertices: pts(&[(0, 0), (1, 0), (0, 1)]),
            color: Rgb { r: 0, g: 32, b: 81 }
        }
    );
    assert_eq!(map.colorbar.len(), 768);
    assert_eq!(map.colorbar[0].x0, Ratio { num: 667 * 767, den: 767 });
    assert_eq!(map.colorbar[767].x0, Ratio { num: 1333 * 767, den: 767 });
    assert_eq!(map.colorbar[100].color, color_discrete(Gradient::Cividis, 100, 768));
}

#[test]
fn triangular_heatmap_uses_the_colormap_bounds() {
    let cells = square_cells();
    let config = Config::new().cmap_minmax((0, 2000)).filename("field.png".to_string());
    let map = tri::Heatmap::layout(&cells, Some(config)).unwrap();
    assert_eq!(map.filename, "field.png");
    assert_eq!(map.value_range, ValueRange { min: 0, max: 2000 });
    assert_eq!(
        map.polygons[1],
        RenderPrimitive::FilledPolygon {
            vertices: pts(&[(1, 0), (0, 1), (1, 1)]),
            color: color_continuous(Gradient::Cividis, Some(Ratio { num: 1333, den: 2000 }))
        }
    );
    assert_eq!(map.colorbar[767].x0, Ratio { num: 2000 * 767, den: 767 });
}

#[test]
fn triangular_heatmap_failures() {
    let blank = vec![cell(&[(0, 0), (1, 0), (0, 1)], None)];
    assert_eq!(tri::Heatmap::layout(&blank, None).unwrap_err(), MeshError::EmptyRange);
    let flat = vec![cell(&[(0, 0), (1, 0)], Some(4))];
    assert_eq!(tri::Heatmap::layout(&flat, None).unwrap_err(), MeshError::DegenerateAxisRange);
}

#[test]
fn grid_heatmap_layout() {
    let map = vec![Some(0), Some(10), None, Some(20)];
    let chart = Heatmap::layout(&map, 2, 2, None).unwrap();
    assert_eq!(chart.filename, "complot-heatmap.png");
    assert_eq!(chart.title, None);
    assert_eq!((chart.width, chart.height, chart.split, chart.axis_end), (44, 94, 34, 3));
    assert_eq!(chart.value_range, ValueRange { min: 0, max: 20 });
    assert_eq!(
        chart.tiles,
        vec![
            Tile { x0: 0, y0: 0, x1: 2, y1: 2, color: Rgb { r: 68, g: 1, b: 84 } },
            Tile { x0: 2, y0: 0, x1: 4, y1: 2, color: Rgb { r: 32, g: 144, b: 140 } },
            Tile { x0: 0, y0: 2, x1: 2, y1: 4, color: BLACK },
            Tile { x0: 2, y0: 2, x1: 4, y1: 4, color: Rgb { r: 253, g: 231, b: 37 } },
        ]
    );
    assert_eq!(chart.colorbar.len(), 4);
    assert_eq!(chart.colorbar[1].x0, Ratio { num: 20, den: 3 });
    assert_eq!(chart.colorbar[3].color, Rgb { r: 253, g: 231, b: 37 });
    assert_eq!(chart.colorbar_label, None);
}

#[test]
fn grid_heatmap_with_properties() {
    let map: Vec<Option<i32>> = (0..9).map(Some).collect();
    let config = Config::new()
        .over_sampling_factor(5)
        .cmap_minmax((0, 16))
        .title("field".to_string())
        .xaxis(Axis::new().label("height".to_string()))
        .filename("grid.png".to_string());
    let chart = Heatmap::layout(&map, 3, 3, Some(config)).unwrap();
    assert_eq!(chart.filename, "grid.png");
    assert_eq!(chart.title, Some("field".to_string()));
    assert_eq!(chart.colorbar_label, Some("height".to_string()));
    assert_eq!((chart.width, chart.height, chart.split, chart.axis_end), (55, 105, 45, 14));
    assert_eq!(chart.value_range, ValueRange { min: 0, max: 16 });
    assert_eq!(chart.tiles.len(), 9);
    let t = chart.tiles[5];
    assert_eq!((t.x0, t.y0, t.x1, t.y1), (10, 5, 15, 10));
    assert_eq!(t.color, color_continuous(Gradient::Viridis, Some(Ratio { num: 5, den: 16 })));
    assert_eq!(chart.tiles[8].color, color_continuous(Gradient::Viridis, Some(Ratio { num: 1, den: 2 })));
    assert_eq!(chart.colorbar.len(), 15);
}

#[test]
fn grid_heatmap_without_present_samples_fails() {
    let map = vec![None, None, None, None];
    assert_eq!(Heatmap::layout(&map, 2, 2, None).unwrap_err(), MeshError::EmptyRange);
    let config = Config::new().cmap_minmax((1, 2));
    let chart = Heatmap::layout(&map, 2, 2, Some(config)).unwrap();
    assert!(chart.tiles.iter().all(|t| t.color == BLACK));
}
