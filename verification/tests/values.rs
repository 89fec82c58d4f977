use complot::cell::reduce;
use complot::error::MeshError;
use complot::geometry::Point;
use complot::normalize::{normalize, normalize_sample, value_range, ValueRange};
use complot::ratio::Ratio;
use complot::triangulation::{Triangle, Triangulation};

fn ratio(num: i128, den: i128) -> Ratio {
    Ratio { num, den }
}

#[test]
fn mean_of_three_samples() {
    let t = Triangle { a: 0, b: 1, c: 2 };
    assert_eq!(reduce(&t, &vec![Some(0), Some(1000), Some(1000)]), Some(667));
    assert_eq!(reduce(&t, &vec![Some(1000), Some(1000), Some(2000)]), Some(1333));
    assert_eq!(reduce(&t, &vec![Some(3), Some(3), Some(3)]), Some(3));
    assert_eq!(reduce(&t, &vec![Some(0), Some(0), Some(1)]), Some(0));
    assert_eq!(reduce(&t, &vec![Some(0), Some(1), Some(1)]), Some(1));
}

#[test]
fn mean_of_negative_samples_rounds_to_the_nearest() {
    let t = Triangle { a: 2, b: 0, c: 1 };
    assert_eq!(reduce(&t, &vec![Some(-1), Some(-1), Some(0)]), Some(-1));
    assert_eq!(reduce(&t, &vec![Some(-1), Some(0), Some(0)]), Some(0));
    assert_eq!(reduce(&t, &vec![Some(-1000), Some(-1000), Some(-2000)]), Some(-1333));
    assert_eq!(reduce(&t, &vec![Some(-5), Some(2), Some(2)]), Some(0));
    assert_eq!(reduce(&t, &vec![Some(-5), Some(2), Some(1)]), Some(-1));
}

#[test]
fn mean_at_the_ends_of_the_sample_range() {
    let t = Triangle { a: 0, b: 1, c: 2 };
    assert_eq!(reduce(&t, &vec![Some(i32::MAX), Some(i32::MAX), Some(i32::MAX)]), Some(i32::MAX));
    assert_eq!(reduce(&t, &vec![Some(i32::MIN), Some(i32::MIN), Some(i32::MIN)]), Some(i32::MIN));
    assert_eq!(reduce(&t, &vec![Some(i32::MIN), Some(i32::MAX), Some(0)]), Some(0));
    assert_eq!(
        reduce(&t, &vec![Some(i32::MAX), Some(i32::MAX), Some(i32::MAX - 1)]),
        Some(i32::MAX)
    );
    assert_eq!(
        reduce(&t, &vec![Some(i32::MAX), Some(i32::MAX - 1), Some(i32::MAX - 1)]),
        Some(i32::MAX - 1)
    );
}

#[test]
fn missing_vertex_sample_gives_missing_cell_sample() {
    let t = Triangle { a: 0, b: 1, c: 2 };
    assert_eq!(reduce(&t, &vec![None, Some(1), Some(2)]), None);
    assert_eq!(reduce(&t, &vec![Some(1), None, Some(2)]), None);
    assert_eq!(reduce(&t, &vec![Some(1), Some(2), None]), None);
    assert_eq!(reduce(&t, &vec![None, None, None]), None);
}

#[test]
fn reduce_reads_the_samples_at_the_vertices() {
    let t = Triangle { a: 1, b: 3, c: 4 };
    let samples = vec![Some(900), Some(10), None, Some(20), Some(60)];
    assert_eq!(reduce(&t, &samples), Some(30));
}

#[test]
fn cell_values_of_the_unit_square() {
    let points = vec![
        Point { x: 0, y: 0 },
        Point { x: 1, y: 0 },
        Point { x: 0, y: 1 },
        Point { x: 1, y: 1 },
    ];
    let t = Triangulation::build(points).unwrap();
    assert_eq!(t.triangles().len(), 2);
    let cells = t.cell_values(&vec![Some(0), Some(1000), Some(1000), Some(2000)]);
    assert_eq!(cells, vec![Some(667), Some(1333)]);
    let n = normalize(&cells, None).unwrap();
    assert_eq!(n.range, ValueRange { min: 667, max: 1333 });
    assert_eq!(n.values, vec![Some(ratio(0, 666)), Some(ratio(666, 666))]);
    // In whole units both means round to one, and the range is a single value.
    let coarse = t.cell_values(&vec![Some(0), Some(1), Some(1), Some(2)]);
    assert_eq!(coarse, vec![Some(1), Some(1)]);
}

#[test]
fn missing_sample_is_kept_out_of_the_range() {
    let points = vec![
        Point { x: 0, y: 0 },
        Point { x: 1, y: 0 },
        Point { x: 0, y: 1 },
        Point { x: 1, y: 1 },
    ];
    let t = Triangulation::build(points).unwrap();
    let cells = t.cell_values(&vec![None, Some(30), Some(60), Some(90)]);
    assert_eq!(cells, vec![None, Some(60)]);
    let n = normalize(&cells, None).unwrap();
    assert_eq!(n.range, ValueRange { min: 60, max: 60 });
    assert_eq!(n.values, vec![None, Some(ratio(1, 2))]);
}

#[test]
fn range_of_present_samples() {
    assert_eq!(
        value_range(&vec![Some(5), None, Some(-7), Some(12), None]),
        Ok(ValueRange { min: -7, max: 12 })
    );
    assert_eq!(value_range(&vec![None, Some(3)]), Ok(ValueRange { min: 3, max: 3 }));
    assert_eq!(value_range(&vec![]), Err(MeshError::EmptyRange));
    assert_eq!(value_range(&vec![None, None]), Err(MeshError::EmptyRange));
}

#[test]
fn normalize_maps_the_range_to_the_unit_interval() {
    let n = normalize(&vec![Some(10), Some(20), None, Some(15), Some(30)], None).unwrap();
    assert_eq!(n.range, ValueRange { min: 10, max: 30 });
    assert_eq!(
        n.values,
        vec![Some(ratio(0, 20)), Some(ratio(10, 20)), None, Some(ratio(5, 20)), Some(ratio(20, 20))]
    );
}

#[test]
fn normalize_uses_an_explicit_range_as_given() {
    let range = ValueRange { min: 0, max: 100 };
    let n = normalize(&vec![Some(-50), Some(25), Some(150), None], Some(range)).unwrap();
    assert_eq!(n.range, range);
    assert_eq!(
        n.values,
        vec![Some(ratio(-50, 100)), Some(ratio(25, 100)), Some(ratio(150, 100)), None]
    );
}

#[test]
fn normalize_against_a_reversed_range() {
    let range = ValueRange { min: 100, max: 0 };
    let n = normalize(&vec![Some(25), Some(100)], Some(range)).unwrap();
    assert_eq!(n.values, vec![Some(ratio(75, 100)), Some(ratio(0, 100))]);
}

#[test]
fn constant_population_maps_to_one_half() {
    let n = normalize(&vec![Some(42), None, Some(42), Some(42)], None).unwrap();
    assert_eq!(n.range, ValueRange { min: 42, max: 42 });
    assert_eq!(n.values, vec![Some(ratio(1, 2)), None, Some(ratio(1, 2)), Some(ratio(1, 2))]);
    let n = normalize(&vec![Some(1), Some(9)], Some(ValueRange { min: 5, max: 5 })).unwrap();
    assert_eq!(n.values, vec![Some(ratio(1, 2)), Some(ratio(1, 2))]);
}

#[test]
fn normalize_without_present_samples_fails() {
    assert_eq!(normalize(&vec![], None).unwrap_err(), MeshError::EmptyRange);
    assert_eq!(normalize(&vec![None, None], None).unwrap_err(), MeshError::EmptyRange);
}

#[test]
fn explicit_range_needs_no_present_sample() {
    let range = ValueRange { min: 1, max: 2 };
    let n = normalize(&vec![None], Some(range)).unwrap();
    assert_eq!(n.values, vec![None]);
    assert_eq!(n.range, range);
    let n = normalize(&vec![], Some(range)).unwrap();
    assert!(n.values.is_empty());
}

#[test]
fn explicit_range_equal_to_the_measured_one_changes_nothing() {
    let samples = vec![Some(7), None, Some(-3), Some(4), Some(-3)];
    let auto = normalize(&samples, None).unwrap();
    let again = normalize(&samples, Some(auto.range)).unwrap();
    assert_eq!(auto, again);
}

#[test]
fn normalizing_normalized_values_changes_nothing() {
    let samples = vec![Some(7), None, Some(-3), Some(4), Some(-3)];
    let first = normalize(&samples, None).unwrap();
    let den = first.values[0].unwrap().den;
    let numerators: Vec<Option<i32>> =
        first.values.iter().map(|u| u.map(|r| r.num as i32)).collect();
    let unit = ValueRange { min: 0, max: den as i32 };
    let second = normalize(&numerators, Some(unit)).unwrap();
    assert_eq!(second.values, first.values);
}

#[test]
fn normalize_over_the_whole_sample_range() {
    let n = normalize(&vec![Some(i32::MIN), Some(0), Some(i32::MAX)], None).unwrap();
    let width = (1i128 << 32) - 1;
    assert_eq!(
        n.values,
        vec![Some(ratio(0, width)), Some(ratio(1 << 31, width)), Some(ratio(width, width))]
    );
    let u = normalize_sample(i32::MAX, ValueRange { min: i32::MAX, max: i32::MIN });
    assert_eq!(u, ratio(0, width));
    let u = normalize_sample(i32::MIN, ValueRange { min: i32::MAX, max: i32::MIN });
    assert_eq!(u, ratio(width, width));
}
