use chartistry_core::bounds::Bounds;
use chartistry_core::pos::{Pos, Timestamp};
use chartistry_core::series::{LineDef, Record, Series};
use chartistry_core::use_data::{data_range, extend_range, UseData};

fn def(name: &str, column: usize) -> LineDef {
    LineDef { name: name.to_string(), column }
}

fn rec(x: i64, ys: &[Pos]) -> Record<Pos> {
    Record { x: Pos::Finite(x), ys: ys.to_vec() }
}

fn fin(v: i64) -> Pos {
    Pos::Finite(v)
}

#[test]
fn build_derives_everything_from_records() {
    let series: Series<Pos> = Series::new().line(def("a", 0));
    let data = vec![
        rec(0, &[fin(5)]),
        rec(10, &[fin(1)]),
        rec(20, &[fin(9)]),
    ];
    let u = UseData::new(&series, &data);
    assert_eq!(u.data_x, vec![fin(0), fin(10), fin(20)]);
    assert_eq!(u.positions_x, vec![fin(0), fin(10), fin(20)]);
    assert_eq!(u.data_y, vec![vec![fin(5)], vec![fin(1)], vec![fin(9)]]);
    assert_eq!(u.positions_y, vec![vec![fin(5)], vec![fin(1)], vec![fin(9)]]);
    assert_eq!(u.range_x, Some((fin(0), fin(20))));
    assert_eq!(u.range_y, Some((fin(1), fin(9))));
    assert_eq!(
        u.position_range,
        Bounds::from_points(fin(0), fin(1), fin(20), fin(9))
    );
}

#[test]
fn range_y_spans_cumulative_values_of_all_lines() {
    let series: Series<Pos> = Series::new().stack(vec![def("a", 0), def("b", 1)]);
    let data = vec![rec(0, &[fin(2), fin(3)]), rec(1, &[fin(-1), fin(4)])];
    let u = UseData::new(&series, &data);
    // Cumulative values are 2, 5 and -1, 3: the Y range spans them all.
    assert_eq!(u.range_y, Some((fin(-1), fin(5))));
    assert_eq!(u.positions_y, vec![vec![fin(2), fin(5)], vec![fin(-1), fin(3)]]);
}

#[test]
fn override_extends_lower_bound() {
    let series: Series<Pos> = Series::new()
        .line(def("a", 0))
        .with_min_x(Some(fin(-10)));
    let data = vec![rec(0, &[fin(1)]), rec(20, &[fin(2)])];
    let u = UseData::new(&series, &data);
    // Observed [0, 20], override lo = -10: the range becomes [-10, 20].
    assert_eq!(u.range_x, Some((fin(-10), fin(20))));
}

#[test]
fn override_extends_upper_bound() {
    let series: Series<Pos> = Series::new()
        .line(def("a", 0))
        .with_max_x(Some(fin(25)));
    let data = vec![rec(0, &[fin(1)]), rec(20, &[fin(2)])];
    let u = UseData::new(&series, &data);
    // Observed [0, 20], override hi = 25: the range becomes [0, 25].
    assert_eq!(u.range_x, Some((fin(0), fin(25))));
}

#[test]
fn override_inside_observed_range_changes_nothing() {
    let series: Series<Pos> = Series::new()
        .line(def("a", 0))
        .with_x_range(Some(fin(5)), Some(fin(15)));
    let data = vec![rec(0, &[fin(1)]), rec(20, &[fin(2)])];
    let u = UseData::new(&series, &data);
    assert_eq!(u.range_x, Some((fin(0), fin(20))));
}

#[test]
fn override_alone_defines_range_without_data() {
    let series: Series<Pos> = Series::new().line(def("a", 0)).with_min_y(Some(fin(7)));
    let data: Vec<Record<Pos>> = Vec::new();
    let u = UseData::new(&series, &data);
    // One set side collapses the override pair to a single value.
    assert_eq!(u.range_y, Some((fin(7), fin(7))));
    assert_eq!(u.range_x, None);
    assert_eq!(u.position_range, Bounds::zero());
}

#[test]
fn empty_dataset_is_a_steady_state() {
    let series: Series<Pos> = Series::new().line(def("a", 0));
    let data: Vec<Record<Pos>> = Vec::new();
    let u = UseData::new(&series, &data);
    assert!(u.positions_x.is_empty());
    assert_eq!(u.range_x, None);
    assert_eq!(u.range_y, None);
    assert_eq!(u.position_range, Bounds::zero());
    assert_eq!(u.nearest_index(fin(3)), None);
    assert_eq!(u.nearest_data_x(fin(3)), None);
    assert_eq!(u.nearest_position_x(fin(3)), Pos::Nan);
}

#[test]
fn rebuild_is_idempotent() {
    let series: Series<Pos> = Series::new()
        .line(def("b", 0))
        .stack(vec![def("a", 1), def("c", 2)])
        .with_min_x(Some(fin(-1)));
    let data = vec![
        rec(0, &[fin(5), fin(1), fin(2)]),
        rec(10, &[Pos::Nan, fin(3), fin(4)]),
    ];
    let u1 = UseData::new(&series, &data);
    let u2 = UseData::new(&series, &data);
    assert_eq!(u1, u2);
}

#[test]
fn missing_y_is_excluded_from_range_but_keeps_its_slot() {
    let series: Series<Pos> = Series::new().line(def("a", 0)).line(def("b", 1));
    let data = vec![
        rec(0, &[fin(5), fin(100)]),
        rec(10, &[Pos::Nan, fin(200)]),
        rec(20, &[fin(1), fin(300)]),
    ];
    let u = UseData::new(&series, &data);
    // The missing value never becomes an extremum, and line b's range
    // contribution is untouched by line a's gap.
    assert_eq!(u.range_y, Some((fin(1), fin(300))));
    // The record keeps its index and id slot.
    assert_eq!(u.data_y.len(), 3);
    assert_eq!(u.data_y[1], vec![Pos::Nan, fin(200)]);
}

#[test]
fn all_missing_y_leaves_range_undefined_and_zero_box() {
    let series: Series<Pos> = Series::new().line(def("a", 0));
    let data = vec![rec(0, &[Pos::Nan]), rec(10, &[Pos::Nan])];
    let u = UseData::new(&series, &data);
    assert_eq!(u.range_x, Some((fin(0), fin(10))));
    assert_eq!(u.range_y, None);
    // Either range undefined: the box degenerates to zero at the origin.
    assert_eq!(u.position_range, Bounds::zero());
}

#[test]
fn non_finite_x_positions_are_skipped() {
    let series: Series<Pos> = Series::new().line(def("a", 0));
    let data = vec![
        Record { x: Pos::Nan, ys: vec![fin(1)] },
        rec(5, &[fin(2)]),
        Record { x: Pos::PosInf, ys: vec![fin(3)] },
        rec(7, &[fin(4)]),
    ];
    let u = UseData::new(&series, &data);
    assert_eq!(u.range_x, Some((fin(5), fin(7))));
    // The skipped records keep their index slots.
    assert_eq!(u.positions_x, vec![Pos::Nan, fin(5), Pos::PosInf, fin(7)]);
}

#[test]
fn ranges_compare_by_position_for_timestamps() {
    let series: Series<Timestamp> = Series::new().line(def("a", 0));
    let t0 = Timestamp::new(100, 500_000_000);
    let t1 = Timestamp::new(100, 400_000_000);
    let t2 = Timestamp::new(99, 900_000_000);
    let data = vec![
        Record { x: t0, ys: vec![fin(1)] },
        Record { x: t1, ys: vec![fin(2)] },
        Record { x: t2, ys: vec![fin(3)] },
    ];
    let u = UseData::new(&series, &data);
    assert_eq!(u.range_x, Some((t2, t0)));
    assert_eq!(u.positions_x[0], fin(100_500_000_000));
}

#[test]
fn legend_is_sorted_by_name_and_stable() {
    let series: Series<Pos> = Series::new()
        .line(def("banana", 0))
        .line(def("apple", 1))
        .line(def("apple", 2))
        .line(def("cherry", 3));
    let data = vec![rec(0, &[fin(1), fin(2), fin(3), fin(4)])];
    let u = UseData::new(&series, &data);
    let names: Vec<&str> = u.series.iter().map(|h| h.name.as_str()).collect();
    assert_eq!(names, vec!["apple", "apple", "banana", "cherry"]);
    // Equal names keep registration order: id 1 before id 2.
    assert_eq!(u.series[0].id, 1);
    assert_eq!(u.series[1].id, 2);
    assert_eq!(u.series[2].id, 0);
    assert_eq!(u.series[3].id, 3);
}

#[test]
fn first_occurrence_wins_on_equal_positions() {
    // Two distinct values sharing a position: the scan keeps the value
    // seen first, for the minimum and for the maximum.
    let positions = vec![fin(3), fin(3), fin(9), fin(9)];
    let values: Vec<i32> = vec![10, 20, 30, 40];
    assert_eq!(data_range(&positions, &values), Some((10, 30)));
}

#[test]
fn data_range_skips_non_finite_positions() {
    let positions = vec![Pos::Nan, fin(4), Pos::NegInf, fin(2), Pos::PosInf];
    let values: Vec<i32> = vec![1, 2, 3, 4, 5];
    assert_eq!(data_range(&positions, &values), Some((4, 2)));
    let all_bad = vec![Pos::Nan, Pos::PosInf];
    let vals: Vec<i32> = vec![1, 2];
    assert_eq!(data_range(&all_bad, &vals), None);
}

#[test]
fn extend_range_collapses_single_override() {
    assert_eq!(
        extend_range(None, Some(fin(5)), None),
        Some((fin(5), fin(5)))
    );
    assert_eq!(
        extend_range(Some((fin(0), fin(2))), None, None),
        Some((fin(0), fin(2)))
    );
    let none: Option<(Pos, Pos)> = extend_range(None, None, None);
    assert_eq!(none, None);
}

#[test]
fn line_points_pairs_positions_by_record() {
    let series: Series<Pos> = Series::new().stack(vec![def("a", 0), def("b", 1)]);
    let data = vec![rec(0, &[fin(1), fin(2)]), rec(10, &[fin(3), fin(4)])];
    let u = UseData::new(&series, &data);
    assert_eq!(u.line_points(0), vec![(fin(0), fin(1)), (fin(10), fin(3))]);
    assert_eq!(u.line_points(1), vec![(fin(0), fin(3)), (fin(10), fin(7))]);
}
