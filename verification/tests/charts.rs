use complot::axis::Interval;
use complot::color::{series_color, Gradient};
use complot::combo::{append_series, Chart, Combo, Kind, Series};
use complot::config::{copy_text, Axis, Colorbar, Config};
use complot::error::MeshError;
use complot::geometry::Point;
use complot::line::{log10_of, LinLog, LogLin, LogLog, Plot};
use complot::normalize::ValueRange;
use complot::scatter::Scatter;
use complot::series::{
    abscissae, ordinates, points_of, split_series, take_every_nth, xy_max, xy_min, xy_range,
};

fn iv(start: i32, end: i32) -> Interval {
    Interval { start, end }
}

fn pts(xy: &[(i32, i32)]) -> Vec<Point> {
    xy.iter().map(|&(x, y)| Point { x, y }).collect()
}

fn rows() -> Vec<(i32, Vec<i32>)> {
    vec![(0, vec![10, -1]), (1, vec![20, -2]), (2, vec![30, -3])]
}

fn text(s: &str) -> Option<String> {
    Some(s.to_string())
}

#[test]
fn new_axis_and_its_builders() {
    assert_eq!(Axis::new(), Axis { label: None, range: None });
    assert_eq!(Axis::default(), Axis::new());
    let axis = Axis::new().label("x".to_string()).range(iv(0, 9));
    assert_eq!(axis, Axis { label: text("x"), range: Some(iv(0, 9)) });
    assert_eq!(axis.clone(), axis);
    let axis = axis.label("t".to_string());
    assert_eq!(axis, Axis { label: text("t"), range: Some(iv(0, 9)) });
    assert_eq!(copy_text(&text("a")), text("a"));
    assert_eq!(copy_text(&None), None);
}

#[test]
fn new_config_has_the_defaults() {
    let config = Config::new();
    assert_eq!(config, Config::default());
    assert_eq!(config.filename, None);
    assert_eq!(config.title, None);
    assert_eq!(config.xaxis, Axis::new());
    assert_eq!(config.yaxis, Axis::new());
    assert_eq!(config.cmap, Gradient::Viridis);
    assert_eq!(config.cmap_minmax, None);
    assert_eq!(config.colorbar, None);
    assert_eq!(config.osf, 2);
    assert_eq!(config.colormap_range(), None);
    assert_eq!(
        Colorbar::default(),
        Colorbar { cmap: Gradient::Viridis, label: None, range: None }
    );
}

#[test]
fn config_builders_set_one_property_each() {
    let config = Config::new()
        .filename("a.svg".to_string())
        .title("A".to_string())
        .over_sampling_factor(7)
        .cmap_minmax((-1, 1))
        .xaxis(Axis::new().label("x".to_string()))
        .yaxis(Axis::new().range(iv(0, 1)));
    assert_eq!(config.filename, text("a.svg"));
    assert_eq!(config.title, text("A"));
    assert_eq!(config.osf, 7);
    assert_eq!(config.cmap_minmax, Some((-1, 1)));
    assert_eq!(config.colormap_range(), Some(ValueRange { min: -1, max: 1 }));
    assert_eq!(config.xaxis, Axis { label: text("x"), range: None });
    assert_eq!(config.yaxis, Axis { label: None, range: Some(iv(0, 1)) });
    assert_eq!(config.clone(), config);
    let both = config.axes(Axis::new().label("u".to_string()));
    assert_eq!(both.xaxis, Axis { label: text("u"), range: None });
    assert_eq!(both.yaxis, both.xaxis);
    assert_eq!(both.title, text("A"));
}

#[test]
fn with_colorbar_keeps_a_colorbar_that_is_there() {
    let config = Config::new().with_colorbar();
    assert_eq!(config.colorbar, Some(Colorbar::default()));
    let mut labelled = Config::new();
    labelled.colorbar =
        Some(Colorbar { cmap: Gradient::Cividis, label: text("K"), range: Some(iv(0, 3)) });
    let kept = labelled.clone().with_colorbar();
    assert_eq!(kept, labelled);
}

#[test]
fn extremes_of_rows() {
    assert_eq!(xy_max(&rows()), (Some(2), Some(30)));
    assert_eq!(xy_min(&rows()), (Some(0), Some(-3)));
    assert_eq!(xy_max(&vec![]), (None, None));
    assert_eq!(xy_min(&vec![]), (None, None));
    let bare = vec![(4, vec![]), (9, vec![])];
    assert_eq!(xy_max(&bare), (Some(9), None));
    assert_eq!(xy_min(&bare), (Some(4), None));
    assert_eq!(abscissae(&rows()), vec![0, 1, 2]);
    assert_eq!(ordinates(&rows()), vec![10, -1, 20, -2, 30, -3]);
}

#[test]
fn range_of_rows() {
    assert_eq!(xy_range(&rows()), Ok((iv(0, 2), iv(-3, 30))));
    assert_eq!(xy_range(&vec![]), Err(MeshError::DegenerateAxisRange));
    assert_eq!(xy_range(&vec![(1, vec![5, 6])]), Err(MeshError::DegenerateAxisRange));
    assert_eq!(
        xy_range(&vec![(1, vec![5]), (2, vec![5])]),
        Err(MeshError::DegenerateAxisRange)
    );
    assert_eq!(xy_range(&vec![(1, vec![]), (2, vec![])]), Err(MeshError::DegenerateAxisRange));
    assert_eq!(xy_range(&vec![(1, vec![5]), (2, vec![6])]), Ok((iv(1, 2), iv(5, 6))));
}

#[test]
fn auto_range_spans_all_data_sets() {
    let mut config = Config::new()
        .xaxis(Axis::new().label("x".to_string()).range(iv(100, 200)))
        .title("T".to_string());
    let more = vec![(-5, vec![0]), (1, vec![100])];
    assert_eq!(config.auto_range(&vec![rows(), more]), Ok(()));
    assert_eq!(config.xaxis, Axis { label: text("x"), range: Some(iv(-5, 2)) });
    assert_eq!(config.yaxis, Axis { label: None, range: Some(iv(-3, 100)) });
    assert_eq!(config.title, text("T"));
}

#[test]
fn auto_range_fails_without_extent() {
    let before = Config::new().yaxis(Axis::new().range(iv(1, 2)));
    let mut config = before.clone();
    assert_eq!(config.auto_range(&vec![]), Err(MeshError::DegenerateAxisRange));
    assert_eq!(config, before);
    let flat = vec![(0, vec![1]), (1, vec![1])];
    assert_eq!(config.auto_range(&vec![rows(), flat]), Err(MeshError::DegenerateAxisRange));
    assert_eq!(config, before);
}

#[test]
fn data_points_and_series() {
    assert_eq!(
        points_of(&rows()),
        pts(&[(0, 10), (0, -1), (1, 20), (1, -2), (2, 30), (2, -3)])
    );
    assert_eq!(
        split_series(&rows()),
        vec![pts(&[(0, 10), (1, 20), (2, 30)]), pts(&[(0, -1), (1, -2), (2, -3)])]
    );
    assert_eq!(split_series(&vec![]), Vec::<Vec<Point>>::new());
    assert_eq!(split_series(&vec![(1, vec![]), (2, vec![3])]), Vec::<Vec<Point>>::new());
}

#[test]
fn series_of_ragged_rows_follow_the_stride() {
    // Two ordinates in the first row set the stride; the data points are
    // (0,1) (0,2) (1,3) (2,4) (2,5) (2,6).
    let ragged = vec![(0, vec![1, 2]), (1, vec![3]), (2, vec![4, 5, 6])];
    assert_eq!(
        split_series(&ragged),
        vec![pts(&[(0, 1), (1, 3), (2, 5)]), pts(&[(0, 2), (2, 4), (2, 6)])]
    );
}

#[test]
fn every_nth_point() {
    let flat = pts(&[(0, 0), (1, 1), (2, 2), (3, 3), (4, 4), (5, 5), (6, 6)]);
    assert_eq!(take_every_nth(&flat, 0, 3), pts(&[(0, 0), (3, 3), (6, 6)]));
    assert_eq!(take_every_nth(&flat, 1, 3), pts(&[(1, 1), (4, 4)]));
    assert_eq!(take_every_nth(&flat, 2, 3), pts(&[(2, 2), (5, 5)]));
    assert_eq!(take_every_nth(&flat, 6, 1), pts(&[(6, 6)]));
    assert_eq!(take_every_nth(&flat, 7, 1), pts(&[]));
    assert_eq!(take_every_nth(&flat, 0, 1), flat);
    assert_eq!(take_every_nth(&flat, 0, 100), pts(&[(0, 0)]));
    assert_eq!(take_every_nth(&flat, 3, usize::MAX), pts(&[(3, 3)]));
    assert_eq!(take_every_nth(&pts(&[]), 0, 2), pts(&[]));
}

#[test]
fn line_plot_layout() {
    let chart = Plot::layout(&rows(), None).unwrap();
    assert_eq!(
        chart,
        Chart {
            filename: "complot-plot.svg".to_string(),
            width: 768,
            height: 512,
            x_range: iv(0, 2),
            y_range: iv(-3, 30),
            x_label: None,
            y_label: None,
            series: vec![
                Series {
                    kind: Kind::Plot(None),
                    color: series_color(0),
                    points: pts(&[(0, 10), (1, 20), (2, 30)])
                },
                Series {
                    kind: Kind::Plot(None),
                    color: series_color(1),
                    points: pts(&[(0, -1), (1, -2), (2, -3)])
                },
            ],
            legend: false,
        }
    );
}

#[test]
fn line_plot_takes_name_and_labels_but_no_range() {
    let config = Config::new()
        .filename("lines.svg".to_string())
        .xaxis(Axis::new().label("t".to_string()).range(iv(-100, 100)))
        .yaxis(Axis::new().label("v".to_string()));
    let chart = Plot::layout(&rows(), Some(config)).unwrap();
    assert_eq!(chart.filename, "lines.svg");
    assert_eq!(chart.x_label, text("t"));
    assert_eq!(chart.y_label, text("v"));
    assert_eq!((chart.x_range, chart.y_range), (iv(0, 2), iv(-3, 30)));
}

#[test]
fn line_plot_without_extent_fails() {
    assert_eq!(Plot::layout(&vec![], None).unwrap_err(), MeshError::DegenerateAxisRange);
    assert_eq!(
        Plot::layout(&vec![(0, vec![1]), (0, vec![2])], None).unwrap_err(),
        MeshError::DegenerateAxisRange
    );
}

#[test]
fn many_series_run_through_the_palette() {
    let wide = vec![(0, (0..12).collect::<Vec<i32>>()), (1, (0..12).collect())];
    let chart = Plot::layout(&wide, None).unwrap();
    assert_eq!(chart.series.len(), 12);
    for (k, s) in chart.series.iter().enumerate() {
        assert_eq!(s.color, series_color(k % 10));
        assert_eq!(s.points, pts(&[(0, k as i32), (1, k as i32)]));
    }
}

#[test]
fn scatter_layout() {
    let chart = Scatter::layout(&rows(), None).unwrap();
    assert_eq!(chart.filename, "complot-plot.svg");
    assert_eq!((chart.width, chart.height), (768, 768));
    assert_eq!((chart.x_range, chart.y_range), (iv(0, 2), iv(-3, 30)));
    assert_eq!(chart.series.len(), 2);
    assert_eq!(chart.series[1].kind, Kind::Scatter(None));
    assert_eq!(chart.series[1].color, series_color(1));
    assert_eq!(chart.series[1].points, pts(&[(0, -1), (1, -2), (2, -3)]));
    assert!(!chart.legend);
    let config = Config::new()
        .filename("dots.svg".to_string())
        .axes(Axis::new().label("u".to_string()).range(iv(5, -5)));
    let chart = Scatter::layout(&vec![], Some(config)).unwrap();
    assert_eq!(chart.filename, "dots.svg");
    assert_eq!((chart.x_range, chart.y_range), (iv(5, -5), iv(5, -5)));
    assert_eq!((chart.x_label.clone(), chart.y_label.clone()), (text("u"), text("u")));
    assert!(chart.series.is_empty());
    assert_eq!(Scatter::layout(&vec![], None).unwrap_err(), MeshError::DegenerateAxisRange);
    let half = Config::new().xaxis(Axis::new().range(iv(0, 1)));
    assert_eq!(
        Scatter::layout(&vec![(3, vec![1]), (4, vec![1])], Some(half)).unwrap_err(),
        MeshError::DegenerateAxisRange
    );
}

#[test]
fn collected_scatter_layout() {
    let chart = Scatter::collect(&rows()).unwrap();
    assert_eq!(chart.filename, "scatter.svg");
    assert_eq!((chart.width, chart.height), (768, 512));
    assert_eq!((chart.x_range, chart.y_range), (iv(0, 2), iv(-3, 30)));
    assert_eq!((chart.x_label.clone(), chart.y_label.clone()), (None, None));
    assert_eq!(chart.series.len(), 2);
    assert_eq!(Scatter::collect(&vec![(1, vec![1])]).unwrap_err(), MeshError::DegenerateAxisRange);
}

#[test]
fn append_series_continues_the_palette() {
    let mut out = Vec::new();
    append_series(&mut out, &rows(), &Kind::Plot(text("a")));
    append_series(&mut out, &vec![(7, vec![8])], &Kind::Scatter(None));
    assert_eq!(out.len(), 3);
    assert_eq!(
        out[2],
        Series { kind: Kind::Scatter(None), color: series_color(2), points: pts(&[(7, 8)]) }
    );
    assert_eq!(out[0].kind, Kind::Plot(text("a")));
    assert!(out[0].kind.has_label());
    assert!(!out[2].kind.has_label());
    assert_eq!(out[0].kind.clone(), Kind::Plot(text("a")));
}

#[test]
fn combo_layout() {
    let config = Config::new()
        .xaxis(Axis::new().range(iv(0, 10)).label("x".to_string()))
        .yaxis(Axis::new().range(iv(-5, 40)));
    let datasets = vec![rows(), vec![(3, vec![4]), (5, vec![6])], vec![(9, vec![9])]];
    let draws = vec![Kind::Plot(None), Kind::Scatter(text("dots"))];
    let chart = Combo::layout(&datasets, &draws, Some(config)).unwrap();
    assert_eq!(chart.filename, "complot-plot.svg");
    assert_eq!((chart.width, chart.height), (768, 512));
    assert_eq!((chart.x_range, chart.y_range), (iv(0, 10), iv(-5, 40)));
    assert_eq!(chart.x_label, text("x"));
    assert!(chart.legend);
    assert_eq!(
        chart.series,
        vec![
            Series {
                kind: Kind::Plot(None),
                color: series_color(0),
                points: pts(&[(0, 10), (1, 20), (2, 30)])
            },
            Series {
                kind: Kind::Plot(None),
                color: series_color(1),
                points: pts(&[(0, -1), (1, -2), (2, -3)])
            },
            Series {
                kind: Kind::Scatter(text("dots")),
                color: series_color(2),
                points: pts(&[(3, 4), (5, 6)])
            },
        ]
    );
}

#[test]
fn combo_without_names_has_no_legend() {
    let config = Config::new().axes(Axis::new().range(iv(0, 1)));
    let chart =
        Combo::layout(&vec![rows()], &vec![Kind::Scatter(None), Kind::Plot(text("x"))], Some(config))
            .unwrap();
    assert!(!chart.legend);
    assert_eq!(chart.series.len(), 2);
    assert_eq!(chart.series[0].kind, Kind::Scatter(None));
}

#[test]
fn combo_needs_both_axis_ranges() {
    let only_x = Config::new().xaxis(Axis::new().range(iv(0, 1)));
    assert_eq!(
        Combo::layout(&vec![rows()], &vec![Kind::Plot(None)], Some(only_x)).unwrap_err(),
        MeshError::DegenerateAxisRange
    );
    assert_eq!(
        Combo::layout(&vec![rows()], &vec![Kind::Plot(None)], None).unwrap_err(),
        MeshError::DegenerateAxisRange
    );
}

#[test]
fn logarithmic_label() {
    assert_eq!(log10_of(&"flux".to_string()), "log10( flux )");
    assert_eq!(log10_of(&String::new()), "log10(  )");
}

#[test]
fn log_log_properties() {
    let plain = LogLog::config(None);
    assert_eq!(plain, Config::new().filename("complot-linlog.svg".to_string()));
    let config = Config::new()
        .title("T".to_string())
        .xaxis(Axis::new().label("f".to_string()).range(iv(0, 5)))
        .yaxis(Axis::new().range(iv(1, 2)));
    let r = LogLog::config(Some(config));
    assert_eq!(r.filename, text("complot-linlog.svg"));
    assert_eq!(r.title, text("T"));
    assert_eq!(r.xaxis, Axis { label: text("log10( f )"), range: None });
    assert_eq!(r.yaxis, Axis { label: None, range: Some(iv(1, 2)) });
    let named = Config::new()
        .filename("ll.svg".to_string())
        .xaxis(Axis::new().label("f".to_string()))
        .yaxis(Axis::new().label("p".to_string()));
    let r = LogLog::config(Some(named));
    assert_eq!(r.filename, text("ll.svg"));
    assert_eq!(r.xaxis.label, text("log10( f )"));
    assert_eq!(r.yaxis.label, text("log10( p )"));
}

#[test]
fn log_lin_properties() {
    assert_eq!(
        LogLin::config(None),
        Config::new().filename("complot-linlog.svg".to_string())
    );
    let config = Config::new()
        .xaxis(Axis::new().label("f".to_string()).range(iv(0, 5)))
        .yaxis(Axis::new().label("p".to_string()).range(iv(1, 2)));
    let r = LogLin::config(Some(config));
    assert_eq!(r.filename, text("complot-linlog.svg"));
    assert_eq!(r.xaxis, Axis { label: text("f"), range: Some(iv(0, 5)) });
    assert_eq!(r.yaxis, Axis { label: text("log10( f )"), range: None });
    let unnamed = Config::new().filename("a.svg".to_string()).yaxis(Axis::new().label("p".to_string()));
    assert_eq!(LogLin::config(Some(unnamed.clone())), unnamed);
}

#[test]
fn lin_log_properties() {
    assert_eq!(
        LinLog::config(None),
        Config::new().filename("complot-linlog.svg".to_string())
    );
    let config = Config::new()
        .filename("a.svg".to_string())
        .xaxis(Axis::new().label("f".to_string()).range(iv(0, 5)))
        .yaxis(Axis::new().label("p".to_string()).range(iv(1, 2)));
    let r = LinLog::config(Some(config));
    assert_eq!(r.filename, text("a.svg"));
    assert_eq!(r.xaxis, Axis { label: text("f"), range: Some(iv(0, 5)) });
    assert_eq!(r.yaxis, Axis { label: text("log10( p )"), range: None });
    let unnamed = Config::new().filename("a.svg".to_string()).xaxis(Axis::new().label("f".to_string()));
    assert_eq!(LinLog::config(Some(unnamed.clone())), unnamed);
}

#[test]
fn error_messages() {
    assert_eq!(
        MeshError::DegenerateInput.message(),
        "degenerate input: the points span no triangle"
    );
    assert_eq!(MeshError::EmptyRange.message(), "empty range: no present sample");
    assert_eq!(
        MeshError::DegenerateAxisRange.message(),
        "degenerate axis range: no positive extent"
    );
}
