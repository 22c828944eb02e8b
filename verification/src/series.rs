//! Series registration and accumulation.
//!
//! A [`Series`] is built once, before data flows: an ordered list of line
//! and stack definitions plus optional axis-range overrides and a colour
//! scheme. Accumulation walks the definitions in order and hands every
//! leaf line a dense sequential id, the cycled colour for that id, and an
//! accessor that reads its raw and cumulative Y values out of a record.

use vstd::prelude::*;
use crate::pos::Pos;

verus! {

/// An RGB colour of the chart palette.
#[derive(Clone, Copy, Debug, PartialEq, Eq, Structural)]
pub struct Colour {
    /// Red channel.
    pub red: u8,
    /// Green channel.
    pub green: u8,
    /// Blue channel.
    pub blue: u8,
}

impl Colour {
    /// Build a colour from its channels.
    pub fn new(red: u8, green: u8, blue: u8) -> (c: Colour)
        ensures
            c == (Colour { red, green, blue }),
    {
        Colour { red, green, blue }
    }
}

/// The colour a scheme gives the line with this id: schemes cycle when
/// there are more lines than colours.
pub open spec fn scheme_colour_spec(scheme: Seq<Colour>, id: int) -> Colour
    recommends
        scheme.len() > 0,
{
    scheme[id % scheme.len() as int]
}

/// Look up the cycled colour for a line id; a pure function of the id
/// and the scheme.
pub fn scheme_colour(scheme: &Vec<Colour>, id: usize) -> (c: Colour)
    requires
        scheme.len() > 0,
    ensures
        c == scheme_colour_spec(scheme@, id as int),
{
    scheme[id % scheme.len()]
}

/// The colour scheme a new [`Series`] starts with.
pub open spec fn default_palette() -> Seq<Colour> {
    seq![
        Colour { red: 0x12, green: 0xA5, blue: 0xED },
        Colour { red: 0xF5, green: 0x32, blue: 0x5B },
        Colour { red: 0x71, green: 0xC6, blue: 0x14 },
        Colour { red: 0xFF, green: 0x84, blue: 0x00 },
        Colour { red: 0x7B, green: 0x4D, blue: 0xFF },
        Colour { red: 0xDB, green: 0x4C, blue: 0xB2 },
        Colour { red: 0x92, green: 0xB4, blue: 0x2C },
        Colour { red: 0xFF, green: 0xCA, blue: 0x00 },
        Colour { red: 0x22, green: 0xD2, blue: 0xBA },
        Colour { red: 0xEA, green: 0x60, blue: 0xDF },
    ]
}

/// The definition of one line: its legend name and the index of the data
/// column its raw Y values are read from.
#[derive(Clone, Debug, PartialEq)]
pub struct LineDef {
    /// Legend name; also the legend sort key.
    pub name: String,
    /// Index of the data column holding this line's raw Y values.
    pub column: usize,
}

/// One node of a series definition: a standalone line, or a stack whose
/// sibling lines accumulate onto one another.
#[derive(Clone, Debug, PartialEq)]
pub enum SeriesNode {
    /// A standalone line; its cumulative Y equals its raw Y.
    Line(LineDef),
    /// A stack: the k-th sibling's cumulative Y sums the raw Y of
    /// siblings 0 through k.
    Stack(Vec<LineDef>),
}

/// One row of chart data: its X value and the raw Y values of the data
/// columns, in a fixed column order. `Pos::Nan` marks a missing Y.
#[derive(Clone, Debug, PartialEq)]
pub struct Record<X> {
    /// The domain X value of this row.
    pub x: X,
    /// Raw Y values by column index.
    pub ys: Vec<Pos>,
}

/// Describes how to render a series of data: the registered line and
/// stack definitions, optional axis-range overrides, and the colour
/// scheme. Built once via the `with_*`, [`Series::line`] and
/// [`Series::stack`] steps before any data flows.
#[derive(Clone, Debug, PartialEq)]
pub struct Series<X> {
    /// The registered nodes, in registration order.
    pub lines: Vec<SeriesNode>,
    /// Optional minimum X value. Extends the lower bound of the X axis if set.
    pub min_x: Option<X>,
    /// Optional maximum X value. Extends the upper bound of the X axis if set.
    pub max_x: Option<X>,
    /// Optional minimum Y value. Extends the lower bound of the Y axis if set.
    pub min_y: Option<Pos>,
    /// Optional maximum Y value. Extends the upper bound of the Y axis if set.
    pub max_y: Option<Pos>,
    /// Colour scheme for the series. If there are more lines than
    /// colours, the colours repeat.
    pub colours: Vec<Colour>,
}

/// The stable identity of a registered line: a dense zero-based id
/// assigned at registration, the legend name, and the colour derived
/// from the id and the active colour scheme.
#[derive(Clone, Debug, PartialEq)]
pub struct LineHandle {
    /// Dense zero-based id, assigned in registration order.
    pub id: usize,
    /// Legend name.
    pub name: String,
    /// The cycled colour for this id.
    pub colour: Colour,
}

/// Reads a line's Y values out of a record: `column` yields the raw
/// value; the cumulative value sums the raw values of `sum_cols`, the
/// columns of the line itself and of its earlier stack siblings.
#[derive(Clone, Debug, PartialEq)]
pub struct Accessor {
    /// The column of this line's raw Y.
    pub column: usize,
    /// The columns summed for the cumulative Y, in sibling order; for a
    /// standalone line this is just `column`.
    pub sum_cols: Vec<usize>,
}

/// The raw Y of column `col` in a row of Y values; a column beyond the
/// row reads as missing.
pub open spec fn raw_y_spec(ys: Seq<Pos>, col: int) -> Pos {
    if 0 <= col < ys.len() {
        ys[col]
    } else {
        Pos::Nan
    }
}

/// Left-to-right saturating sum of the raw Y values of `cols`.
pub open spec fn cum_y_spec(ys: Seq<Pos>, cols: Seq<usize>) -> Pos
    decreases cols.len(),
{
    if cols.len() == 0 {
        Pos::Finite(0)
    } else {
        cum_y_spec(ys, cols.drop_last()).spec_plus(raw_y_spec(ys, cols.last() as int))
    }
}

impl Accessor {
    /// The raw Y this accessor reads from a record.
    pub fn value<X>(&self, r: &Record<X>) -> (y: Pos)
        ensures
            y == raw_y_spec(r.ys@, self.column as int),
    {
        if self.column < r.ys.len() {
            r.ys[self.column]
        } else {
            Pos::Nan
        }
    }

    /// The cumulative Y this accessor reads from a record: the
    /// saturating sum over its summed columns, in sibling order.
    pub fn cumulative_value<X>(&self, r: &Record<X>) -> (y: Pos)
        ensures
            y == cum_y_spec(r.ys@, self.sum_cols@),
    {
        let mut acc = Pos::Finite(0);
        let mut k: usize = 0;
        while k < self.sum_cols.len()
            invariant
                k <= self.sum_cols.len(),
                acc == cum_y_spec(r.ys@, self.sum_cols@.take(k as int)),
            decreases self.sum_cols.len() - k,
        {
            let col = self.sum_cols[k];
            let v = if col < r.ys.len() {
                r.ys[col]
            } else {
                Pos::Nan
            };
            acc = acc.plus(v);
            k = k + 1;
            proof {
                assert(self.sum_cols@.take(k as int).drop_last() =~= self.sum_cols@.take(
                    k as int - 1,
                ));
            }
        }
        proof {
            assert(self.sum_cols@.take(self.sum_cols@.len() as int) =~= self.sum_cols@);
        }
        acc
    }
}

/// The leaf lines a stack contributes, each paired with the columns its
/// cumulative value sums: sibling k sums the columns of siblings 0
/// through k.
pub open spec fn stack_leaves_prefix(ds: Seq<LineDef>, k: int) -> Seq<(LineDef, Seq<usize>)> {
    Seq::new(k as nat, |t: int| (ds[t], Seq::new((t + 1) as nat, |j: int| ds[j].column)))
}

/// The leaf lines of one definition node with their summed columns: a
/// standalone line sums only its own column.
pub open spec fn node_leaves(node: SeriesNode) -> Seq<(LineDef, Seq<usize>)> {
    match node {
        SeriesNode::Line(d) => seq![(d, seq![d.column])],
        SeriesNode::Stack(ds) => stack_leaves_prefix(ds@, ds@.len() as int),
    }
}

/// All leaf lines of a definition sequence, in registration order.
pub open spec fn series_leaves(nodes: Seq<SeriesNode>) -> Seq<(LineDef, Seq<usize>)>
    decreases nodes.len(),
{
    if nodes.len() == 0 {
        Seq::empty()
    } else {
        series_leaves(nodes.drop_last()) + node_leaves(nodes.last())
    }
}

/// What accumulation produces for a list of leaves: the i-th entry
/// carries the i-th leaf's name, the dense id i, the cycled colour for
/// i, and an accessor over the leaf's column and summed columns.
pub open spec fn handles_for(
    lines: Seq<(LineHandle, Accessor)>,
    leaves: Seq<(LineDef, Seq<usize>)>,
    scheme: Seq<Colour>,
) -> bool {
    &&& lines.len() == leaves.len()
    &&& forall|i: int|
        0 <= i < lines.len() ==> {
            &&& (#[trigger] lines[i]).0.id == i
            &&& lines[i].0.name == leaves[i].0.name
            &&& lines[i].0.colour == scheme_colour_spec(scheme, i)
            &&& lines[i].1.column == leaves[i].0.column
            &&& lines[i].1.sum_cols@ == leaves[i].1
        }
}

/// What accumulating a whole definition sequence produces.
pub open spec fn accumulated(
    lines: Seq<(LineHandle, Accessor)>,
    nodes: Seq<SeriesNode>,
    scheme: Seq<Colour>,
) -> bool {
    handles_for(lines, series_leaves(nodes), scheme)
}

/// Adding to a missing-free zero leaves any value unchanged: the base
/// case of cumulative stacking.
pub proof fn lemma_plus_zero_left(y: Pos)
    ensures
        Pos::Finite(0).spec_plus(y) == y,
{
}

/// Stacking: the first sibling's cumulative Y is its own raw Y, and
/// each later sibling's cumulative Y extends the previous sibling's by
/// its own raw Y — so sibling k sums the raw values of siblings 0
/// through k, in order.
pub proof fn lemma_stack_cumulative(ys: Seq<Pos>, ds: Seq<LineDef>, k: int)
    requires
        0 <= k < ds.len(),
    ensures
        ({
            let leaves = stack_leaves_prefix(ds, ds.len() as int);
            if k == 0 {
                cum_y_spec(ys, leaves[0].1) == raw_y_spec(ys, ds[0].column as int)
            } else {
                cum_y_spec(ys, leaves[k].1) == cum_y_spec(ys, leaves[k - 1].1).spec_plus(
                    raw_y_spec(ys, ds[k].column as int),
                )
            }
        }),
{
    let leaves = stack_leaves_prefix(ds, ds.len() as int);
    let cols = leaves[k].1;
    assert(cols.len() == k + 1);
    assert(cols.last() == ds[k].column);
    assert(cum_y_spec(ys, cols) == cum_y_spec(ys, cols.drop_last()).spec_plus(
        raw_y_spec(ys, cols.last() as int),
    ));
    if k == 0 {
        assert(cols.drop_last() =~= Seq::<usize>::empty());
        assert(cum_y_spec(ys, Seq::<usize>::empty()) == Pos::Finite(0));
        lemma_plus_zero_left(raw_y_spec(ys, ds[0].column as int));
    } else {
        assert(cols.drop_last() =~= leaves[k - 1].1);
    }
}

/// Colour cycling: two lines whose ids agree modulo the scheme size
/// render identically.
pub proof fn lemma_colour_cycling(scheme: Seq<Colour>, i: int, j: int)
    requires
        scheme.len() > 0,
        0 <= i,
        0 <= j,
        i % scheme.len() as int == j % scheme.len() as int,
    ensures
        scheme_colour_spec(scheme, i) == scheme_colour_spec(scheme, j),
{
}

/// A value in a column a line does not sum never perturbs that line: a
/// cumulative Y depends only on the raw values of its summed columns.
/// In particular a record whose raw Y is missing for one standalone
/// line leaves every other line's values, and so their range, alone.
pub proof fn lemma_cum_depends_only_on_cols(ys1: Seq<Pos>, ys2: Seq<Pos>, cols: Seq<usize>)
    requires
        forall|j: int|
            0 <= j < cols.len() ==> raw_y_spec(ys1, (#[trigger] cols[j]) as int) == raw_y_spec(
                ys2,
                cols[j] as int,
            ),
    ensures
        cum_y_spec(ys1, cols) == cum_y_spec(ys2, cols),
    decreases cols.len(),
{
    if cols.len() > 0 {
        assert(forall|j: int| 0 <= j < cols.len() - 1 ==> cols.drop_last()[j] == cols[j]);
        lemma_cum_depends_only_on_cols(ys1, ys2, cols.drop_last());
    }
}

/// Accumulates registered lines: each pushed leaf gets the next dense
/// sequential id.
pub struct SeriesAcc {
    /// The accumulated lines so far, in registration order; a line's id
    /// equals its index here.
    pub lines: Vec<(LineHandle, Accessor)>,
}

impl SeriesAcc {
    /// An empty accumulator.
    pub fn new() -> (r: SeriesAcc)
        ensures
            r.lines@ == Seq::<(LineHandle, Accessor)>::empty(),
    {
        SeriesAcc { lines: Vec::new() }
    }

    /// Register one leaf line: it gets the next dense id, the given
    /// colour, and an accessor over its column and summed columns.
    pub fn push(&mut self, colour: Colour, name: String, column: usize, sum_cols: Vec<usize>)
        ensures
            final(self).lines@ == old(self).lines@.push(
                (
                    LineHandle { id: old(self).lines@.len() as usize, name, colour },
                    Accessor { column, sum_cols },
                ),
            ),
    {
        let id = self.lines.len();
        self.lines.push((LineHandle { id, name, colour }, Accessor { column, sum_cols }));
    }
}

impl<X> Series<X> {
    /// Create a new, empty series with the default colour scheme and no
    /// range overrides.
    ///
    /// Next: add lines or stacks with [`Series::line`] or
    /// [`Series::stack`].
    pub fn new() -> (r: Series<X>)
        ensures
            r.lines@ == Seq::<SeriesNode>::empty(),
            r.min_x is None,
            r.max_x is None,
            r.min_y is None,
            r.max_y is None,
            r.colours@ == default_palette(),
    {
        let colours = vec![
            Colour::new(0x12, 0xA5, 0xED),
            Colour::new(0xF5, 0x32, 0x5B),
            Colour::new(0x71, 0xC6, 0x14),
            Colour::new(0xFF, 0x84, 0x00),
            Colour::new(0x7B, 0x4D, 0xFF),
            Colour::new(0xDB, 0x4C, 0xB2),
            Colour::new(0x92, 0xB4, 0x2C),
            Colour::new(0xFF, 0xCA, 0x00),
            Colour::new(0x22, 0xD2, 0xBA),
            Colour::new(0xEA, 0x60, 0xDF),
        ];
        proof {
            assert(colours@ =~= default_palette());
        }
        Series {
            lines: Vec::new(),
            min_x: None,
            max_x: None,
            min_y: None,
            max_y: None,
            colours,
        }
    }

    /// Set the colour scheme. If there are more lines than colours, the
    /// colours repeat; a scheme must hold at least one colour.
    pub fn with_colours(self, colours: Vec<Colour>) -> (r: Series<X>)
        requires
            colours.len() > 0,
        ensures
            r == (Series { colours, ..self }),
    {
        Series { colours, ..self }
    }

    /// Set the minimum X value. Extends the lower bound of the X axis if set.
    pub fn with_min_x(self, min_x: Option<X>) -> (r: Series<X>)
        ensures
            r == (Series { min_x, ..self }),
    {
        Series { min_x, ..self }
    }

    /// Set the maximum X value. Extends the upper bound of the X axis if set.
    pub fn with_max_x(self, max_x: Option<X>) -> (r: Series<X>)
        ensures
            r == (Series { max_x, ..self }),
    {
        Series { max_x, ..self }
    }

    /// Set the minimum Y value. Extends the lower bound of the Y axis if set.
    pub fn with_min_y(self, min_y: Option<Pos>) -> (r: Series<X>)
        ensures
            r == (Series { min_y, ..self }),
    {
        Series { min_y, ..self }
    }

    /// Set the maximum Y value. Extends the upper bound of the Y axis if set.
    pub fn with_max_y(self, max_y: Option<Pos>) -> (r: Series<X>)
        ensures
            r == (Series { max_y, ..self }),
    {
        Series { max_y, ..self }
    }

    /// Set the X range. Extends the lower and upper bounds of the X axis if set.
    pub fn with_x_range(self, min_x: Option<X>, max_x: Option<X>) -> (r: Series<X>)
        ensures
            r == (Series { min_x, max_x, ..self }),
    {
        self.with_min_x(min_x).with_max_x(max_x)
    }

    /// Set the Y range. Extends the lower and upper bounds of the Y axis if set.
    pub fn with_y_range(self, min_y: Option<Pos>, max_y: Option<Pos>) -> (r: Series<X>)
        ensures
            r == (Series { min_y, max_y, ..self }),
    {
        self.with_min_y(min_y).with_max_y(max_y)
    }

    /// Adds a standalone line to the series.
    pub fn line(self, line: LineDef) -> (r: Series<X>)
        ensures
            r.lines@ == self.lines@.push(SeriesNode::Line(line)),
            r.min_x == self.min_x,
            r.max_x == self.max_x,
            r.min_y == self.min_y,
            r.max_y == self.max_y,
            r.colours == self.colours,
    {
        let Series { mut lines, min_x, max_x, min_y, max_y, colours } = self;
        lines.push(SeriesNode::Line(line));
        Series { lines, min_x, max_x, min_y, max_y, colours }
    }

    /// Adds multiple standalone lines at once; equivalent to calling
    /// [`Series::line`] for each in order.
    pub fn lines(self, defs: Vec<LineDef>) -> (r: Series<X>)
        ensures
            r.lines@ == self.lines@ + defs@.map_values(|d: LineDef| SeriesNode::Line(d)),
            r.min_x == self.min_x,
            r.max_x == self.max_x,
            r.min_y == self.min_y,
            r.max_y == self.max_y,
            r.colours == self.colours,
    {
        let Series { mut lines, min_x, max_x, min_y, max_y, colours } = self;
        let ghost lines0 = lines@;
        let mut i: usize = 0;
        while i < defs.len()
            invariant
                i <= defs.len(),
                lines@ =~= lines0 + defs@.take(i as int).map_values(
                    |d: LineDef| SeriesNode::Line(d),
                ),
            decreases defs.len() - i,
        {
            let d = LineDef { name: defs[i].name.clone(), column: defs[i].column };
            lines.push(SeriesNode::Line(d));
            i = i + 1;
            proof {
                assert(defs@.take(i as int).map_values(|d: LineDef| SeriesNode::Line(d)) =~= defs@
                    .take(i as int - 1).map_values(|d: LineDef| SeriesNode::Line(d)).push(
                    SeriesNode::Line(defs@[i as int - 1]),
                ));
            }
        }
        proof {
            assert(defs@.take(defs@.len() as int) =~= defs@);
        }
        Series { lines, min_x, max_x, min_y, max_y, colours }
    }

    /// Adds a stack to the series: its sibling lines accumulate in
    /// order.
    pub fn stack(self, stack: Vec<LineDef>) -> (r: Series<X>)
        ensures
            r.lines@ == self.lines@.push(SeriesNode::Stack(stack)),
            r.min_x == self.min_x,
            r.max_x == self.max_x,
            r.min_y == self.min_y,
            r.max_y == self.max_y,
            r.colours == self.colours,
    {
        let Series { mut lines, min_x, max_x, min_y, max_y, colours } = self;
        lines.push(SeriesNode::Stack(stack));
        Series { lines, min_x, max_x, min_y, max_y, colours }
    }

    /// The current number of registered nodes (lines and stacks).
    pub fn len(&self) -> (n: usize)
        ensures
            n == self.lines@.len(),
    {
        self.lines.len()
    }

    /// True if no node has been registered.
    pub fn is_empty(&self) -> (r: bool)
        ensures
            r == (self.lines@.len() == 0),
    {
        self.lines.is_empty()
    }

    /// Walk the registered definitions in order and hand every leaf line
    /// its dense id, its cycled colour, and its value accessors.
    pub fn to_use_lines(&self) -> (r: Vec<(LineHandle, Accessor)>)
        requires
            self.colours.len() > 0,
        ensures
            accumulated(r@, self.lines@, self.colours@),
    {
        let mut acc = SeriesAcc::new();
        let mut i: usize = 0;
        while i < self.lines.len()
            invariant
                i <= self.lines.len(),
                self.colours.len() > 0,
                handles_for(acc.lines@, series_leaves(self.lines@.take(i as int)), self.colours@),
            decreases self.lines.len() - i,
        {
            let ghost leaves_before = series_leaves(self.lines@.take(i as int));
            match &self.lines[i] {
                SeriesNode::Line(d) => {
                    let colour = scheme_colour(&self.colours, acc.lines.len());
                    let mut cols: Vec<usize> = Vec::new();
                    cols.push(d.column);
                    acc.push(colour, d.name.clone(), d.column, cols);
                    proof {
                        assert(cols@ =~= seq![d.column]);
                    }
                },
                SeriesNode::Stack(ds) => {
                    let mut k: usize = 0;
                    while k < ds.len()
                        invariant
                            k <= ds.len(),
                            self.colours.len() > 0,
                            self.lines@[i as int] == SeriesNode::Stack(*ds),
                            handles_for(
                                acc.lines@,
                                leaves_before + stack_leaves_prefix(ds@, k as int),
                                self.colours@,
                            ),
                        decreases ds.len() - k,
                    {
                        let colour = scheme_colour(&self.colours, acc.lines.len());
                        let mut cols: Vec<usize> = Vec::new();
                        let mut j: usize = 0;
                        while j < k + 1
                            invariant
                                j <= k + 1,
                                k < ds.len(),
                                cols@ =~= Seq::new(j as nat, |t: int| ds@[t].column),
                            decreases k + 1 - j,
                        {
                            cols.push(ds[j].column);
                            j = j + 1;
                            proof {
                                assert(Seq::new(j as nat, |t: int| ds@[t].column) =~= Seq::new(
                                    (j - 1) as nat,
                                    |t: int| ds@[t].column,
                                ).push(ds@[j as int - 1].column));
                            }
                        }
                        acc.push(colour, ds[k].name.clone(), ds[k].column, cols);
                        k = k + 1;
                        proof {
                            assert(leaves_before + stack_leaves_prefix(ds@, k as int) =~= (
                            leaves_before + stack_leaves_prefix(ds@, k as int - 1)).push(
                                (ds@[k as int - 1], Seq::new(k as nat, |j2: int| ds@[j2].column)),
                            ));
                        }
                    }
                    proof {
                        assert(node_leaves(self.lines@[i as int]) == stack_leaves_prefix(
                            ds@,
                            ds@.len() as int,
                        ));
                    }
                },
            }
            i = i + 1;
            proof {
                assert(self.lines@.take(i as int).drop_last() =~= self.lines@.take(i as int - 1));
                assert(series_leaves(self.lines@.take(i as int)) =~= leaves_before + node_leaves(
                    self.lines@[i as int - 1],
                ));
            }
        }
        proof {
            assert(self.lines@.take(self.lines@.len() as int) =~= self.lines@);
        }
        acc.lines
    }
}

} // verus!
