use chartistry_core::pos::Pos;
use chartistry_core::series::{Colour, LineDef, Record, Series};

fn def(name: &str, column: usize) -> LineDef {
    LineDef { name: name.to_string(), column }
}

fn rec(x: i64, ys: &[Pos]) -> Record<Pos> {
    Record { x: Pos::Finite(x), ys: ys.to_vec() }
}

#[test]
fn new_series_is_empty_with_default_palette() {
    let s: Series<Pos> = Series::new();
    assert_eq!(s.len(), 0);
    assert!(s.is_empty());
    assert_eq!(s.colours.len(), 10);
    assert_eq!(s.colours[0], Colour::new(0x12, 0xA5, 0xED));
    assert!(s.min_x.is_none() && s.max_x.is_none());
    assert!(s.min_y.is_none() && s.max_y.is_none());
}

#[test]
fn builder_sets_overrides() {
    let s: Series<Pos> = Series::new()
        .with_min_x(Some(Pos::Finite(-5)))
        .with_max_x(Some(Pos::Finite(50)))
        .with_y_range(Some(Pos::Finite(0)), None);
    assert_eq!(s.min_x, Some(Pos::Finite(-5)));
    assert_eq!(s.max_x, Some(Pos::Finite(50)));
    assert_eq!(s.min_y, Some(Pos::Finite(0)));
    assert_eq!(s.max_y, None);
}

#[test]
fn registration_assigns_dense_ids_in_order() {
    let s: Series<Pos> = Series::new()
        .line(def("alpha", 0))
        .stack(vec![def("beta", 1), def("gamma", 2)])
        .line(def("delta", 3));
    assert_eq!(s.len(), 3);
    let lines = s.to_use_lines();
    assert_eq!(lines.len(), 4);
    for (i, (handle, _)) in lines.iter().enumerate() {
        assert_eq!(handle.id, i);
    }
    assert_eq!(lines[0].0.name, "alpha");
    assert_eq!(lines[1].0.name, "beta");
    assert_eq!(lines[2].0.name, "gamma");
    assert_eq!(lines[3].0.name, "delta");
}

#[test]
fn lines_adds_each_definition() {
    let s: Series<Pos> = Series::new().lines(vec![def("a", 0), def("b", 1)]);
    assert_eq!(s.len(), 2);
    let lines = s.to_use_lines();
    assert_eq!(lines[0].0.name, "a");
    assert_eq!(lines[1].0.name, "b");
}

#[test]
fn colours_cycle_when_palette_is_smaller() {
    let defs: Vec<LineDef> = (0..12).map(|i| def(&format!("l{i:02}"), i)).collect();
    let s: Series<Pos> = Series::new().lines(defs);
    let lines = s.to_use_lines();
    assert_eq!(lines.len(), 12);
    for (i, (handle, _)) in lines.iter().enumerate() {
        assert_eq!(handle.colour, s.colours[i % 10]);
    }
    // Two lines whose ids agree modulo the palette size render identically.
    assert_eq!(lines[10].0.colour, lines[0].0.colour);
    assert_eq!(lines[11].0.colour, lines[1].0.colour);
    assert_ne!(lines[1].0.colour, lines[0].0.colour);
}

#[test]
fn custom_palette_cycles_too() {
    let palette = vec![Colour::new(1, 1, 1), Colour::new(2, 2, 2), Colour::new(3, 3, 3)];
    let s: Series<Pos> = Series::new()
        .with_colours(palette.clone())
        .lines((0..5).map(|i| def(&format!("l{i}"), i)).collect());
    let lines = s.to_use_lines();
    assert_eq!(lines[0].0.colour, palette[0]);
    assert_eq!(lines[3].0.colour, palette[0]);
    assert_eq!(lines[4].0.colour, palette[1]);
}

#[test]
fn stack_accumulates_siblings_in_order() {
    let s: Series<Pos> = Series::new().stack(vec![def("a", 0), def("b", 1), def("c", 2)]);
    let lines = s.to_use_lines();
    let r = rec(0, &[Pos::Finite(1), Pos::Finite(2), Pos::Finite(3)]);
    // Raw values are unmodified.
    assert_eq!(lines[0].1.value(&r), Pos::Finite(1));
    assert_eq!(lines[1].1.value(&r), Pos::Finite(2));
    assert_eq!(lines[2].1.value(&r), Pos::Finite(3));
    // Cumulative values are y0, y0+y1, y0+y1+y2.
    assert_eq!(lines[0].1.cumulative_value(&r), Pos::Finite(1));
    assert_eq!(lines[1].1.cumulative_value(&r), Pos::Finite(3));
    assert_eq!(lines[2].1.cumulative_value(&r), Pos::Finite(6));
}

#[test]
fn standalone_line_cumulative_equals_raw() {
    let s: Series<Pos> = Series::new().line(def("a", 0));
    let lines = s.to_use_lines();
    let r = rec(0, &[Pos::Finite(7)]);
    assert_eq!(lines[0].1.value(&r), Pos::Finite(7));
    assert_eq!(lines[0].1.cumulative_value(&r), Pos::Finite(7));
}

#[test]
fn missing_value_poisons_later_stack_siblings_only() {
    let s: Series<Pos> = Series::new().stack(vec![def("a", 0), def("b", 1), def("c", 2)]);
    let lines = s.to_use_lines();
    let r = rec(0, &[Pos::Finite(1), Pos::Nan, Pos::Finite(3)]);
    assert_eq!(lines[0].1.cumulative_value(&r), Pos::Finite(1));
    assert_eq!(lines[1].1.cumulative_value(&r), Pos::Nan);
    assert_eq!(lines[2].1.cumulative_value(&r), Pos::Nan);
    // Raw reads keep the missing marker in place and the others alone.
    assert_eq!(lines[1].1.value(&r), Pos::Nan);
    assert_eq!(lines[2].1.value(&r), Pos::Finite(3));
}

#[test]
fn cumulative_sum_saturates() {
    let s: Series<Pos> = Series::new().stack(vec![def("a", 0), def("b", 1)]);
    let lines = s.to_use_lines();
    let r = rec(0, &[Pos::Finite(i64::MAX), Pos::Finite(1)]);
    assert_eq!(lines[1].1.cumulative_value(&r), Pos::PosInf);
}

#[test]
fn column_beyond_record_reads_as_missing() {
    let s: Series<Pos> = Series::new().line(def("a", 5));
    let lines = s.to_use_lines();
    let r = rec(0, &[Pos::Finite(1)]);
    assert_eq!(lines[0].1.value(&r), Pos::Nan);
    assert_eq!(lines[0].1.cumulative_value(&r), Pos::Nan);
}
