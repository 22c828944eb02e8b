//! The data-mapping engine.
//!
//! Consumes the accumulated lines and the record sequence and derives,
//! in one full rebuild, everything the chart draws from: extracted X
//! values, per-record raw and cumulative Y rows, axis ranges (observed
//! data extended by overrides), normalized positions, and the aggregate
//! bounding box. Every derived value is a pure function of the inputs;
//! nothing survives between rebuilds.

use vstd::prelude::*;
use vstd::string::StrSliceExecFns;
use crate::pos::{Pos, Position};
use crate::series::{
    Colour, LineDef, LineHandle, Record, Series, accumulated, cum_y_spec, raw_y_spec,
    scheme_colour_spec, series_leaves,
};
use crate::bounds::Bounds;

verus! {

// ---------------------------------------------------------------------
// Range derivation: scan observed positions, extend by overrides.
// ---------------------------------------------------------------------

/// The indexes of the minimum and maximum finite position in a
/// left-to-right scan with strict comparisons, so that the first
/// occurrence of each extremum wins; `None` when no finite position
/// exists.
pub open spec fn scan_extrema(ps: Seq<Pos>) -> Option<(int, int)>
    decreases ps.len(),
{
    if ps.len() == 0 {
        None::<(int, int)>
    } else {
        let prev = scan_extrema(ps.drop_last());
        let i = ps.len() - 1;
        let p = ps.last();
        if !p.spec_is_finite() {
            prev
        } else {
            match prev {
                None => Some((i as int, i as int)),
                Some((m, mx)) => Some(
                    (
                        if p.spec_lt(ps[m]) {
                            i as int
                        } else {
                            m
                        },
                        if ps[mx].spec_lt(p) {
                            i as int
                        } else {
                            mx
                        },
                    ),
                ),
            }
        }
    }
}

/// The observed range of a value sequence: the values sitting at the
/// minimum and maximum finite position; `None` when no finite position
/// exists.
pub open spec fn scan_range<V>(ps: Seq<Pos>, data: Seq<V>) -> Option<(V, V)> {
    match scan_extrema(ps) {
        None => None::<(V, V)>,
        Some((m, mx)) => Some((data[m], data[mx])),
    }
}

/// The extrema indexes point at finite positions that bound every
/// finite position in the sequence; when `None`, no position is finite.
pub proof fn lemma_scan_extrema_bounds(ps: Seq<Pos>)
    ensures
        match scan_extrema(ps) {
            None => forall|i: int| 0 <= i < ps.len() ==> !(#[trigger] ps[i]).spec_is_finite(),
            Some((m, mx)) => {
                &&& 0 <= m < ps.len() && ps[m].spec_is_finite()
                &&& 0 <= mx < ps.len() && ps[mx].spec_is_finite()
                &&& forall|i: int|
                    0 <= i < ps.len() && (#[trigger] ps[i]).spec_is_finite() ==> ps[m].spec_le(
                        ps[i],
                    ) && ps[i].spec_le(ps[mx])
            },
        },
    decreases ps.len(),
{
    if ps.len() > 0 {
        lemma_scan_extrema_bounds(ps.drop_last());
        assert(forall|i: int| 0 <= i < ps.len() - 1 ==> ps.drop_last()[i] == ps[i]);
    }
}

/// Given a list of positions, finds the min / max indexes, skipping
/// non-finite positions, and returns the data values at those indexes.
/// Returns `None` if no finite position exists.
pub fn data_range<V: Copy>(positions: &Vec<Pos>, data: &Vec<V>) -> (r: Option<(V, V)>)
    requires
        positions@.len() == data@.len(),
    ensures
        r == scan_range(positions@, data@),
{
    let mut acc: Option<(usize, usize)> = None;
    let mut i: usize = 0;
    while i < positions.len()
        invariant
            i <= positions@.len(),
            positions@.len() == data@.len(),
            match acc {
                None => scan_extrema(positions@.take(i as int)) is None,
                Some((m, mx)) => m < i && mx < i && scan_extrema(positions@.take(i as int))
                    == Some((m as int, mx as int)),
            },
        decreases positions@.len() - i,
    {
        let p = positions[i];
        if p.is_finite() {
            acc = match acc {
                None => Some((i, i)),
                Some((m, mx)) => Some(
                    (
                        if p.lt(positions[m]) {
                            i
                        } else {
                            m
                        },
                        if positions[mx].lt(p) {
                            i
                        } else {
                            mx
                        },
                    ),
                ),
            };
        }
        i = i + 1;
        proof {
            assert(positions@.take(i as int).drop_last() =~= positions@.take(i as int - 1));
        }
    }
    proof {
        assert(positions@.take(positions@.len() as int) =~= positions@);
    }
    match acc {
        None => None,
        Some((m, mx)) => Some((data[m], data[mx])),
    }
}

/// The override pair of one axis: both ends collapse to the single set
/// bound when only one side is set; `None` when neither is.
pub open spec fn specified_range_spec<V>(min: Option<V>, max: Option<V>) -> Option<(V, V)> {
    match (min, max) {
        (Some(a), Some(b)) => Some((a, b)),
        (Some(a), None) => Some((a, a)),
        (None, Some(b)) => Some((b, b)),
        (None, None) => None::<(V, V)>,
    }
}

/// Extend an observed range by an override pair, comparing positions,
/// never raw values: the lower bound is whichever lower end has the
/// strictly smaller position (on a tie, or when the positions do not
/// compare, the override wins), and dually for the upper bound. A
/// missing side passes the other through; two missing sides leave the
/// range undefined.
pub open spec fn combine_range_spec<V: Position>(
    observed: Option<(V, V)>,
    specified: Option<(V, V)>,
) -> Option<(V, V)> {
    match (observed, specified) {
        (None, None) => None::<(V, V)>,
        (Some(r), None) => Some(r),
        (None, Some(s)) => Some(s),
        (Some((min_r, max_r)), Some((min_s, max_s))) => Some(
            (
                if min_r.pos_spec().spec_lt(min_s.pos_spec()) {
                    min_r
                } else {
                    min_s
                },
                if max_s.pos_spec().spec_lt(max_r.pos_spec()) {
                    max_r
                } else {
                    max_s
                },
            ),
        ),
    }
}

/// Extend an observed range outward by the optional per-side overrides;
/// see [`combine_range_spec`].
pub fn extend_range<V: Position + Copy>(
    observed: Option<(V, V)>,
    min_s: Option<V>,
    max_s: Option<V>,
) -> (r: Option<(V, V)>)
    ensures
        r == combine_range_spec(observed, specified_range_spec(min_s, max_s)),
{
    let specified = match (min_s, max_s) {
        (Some(a), Some(b)) => Some((a, b)),
        (Some(a), None) => Some((a, a)),
        (None, Some(b)) => Some((b, b)),
        (None, None) => None,
    };
    match (observed, specified) {
        (None, None) => None,
        (Some(r0), None) => Some(r0),
        (None, Some(s)) => Some(s),
        (Some((min_r, max_r)), Some((min_sv, max_sv))) => Some(
            (
                if min_r.position().lt(min_sv.position()) {
                    min_r
                } else {
                    min_sv
                },
                if max_sv.position().lt(max_r.position()) {
                    max_r
                } else {
                    max_sv
                },
            ),
        ),
    }
}

// ---------------------------------------------------------------------
// Legend order: a stable sort of the line handles by name.
// ---------------------------------------------------------------------

/// Lexicographic order on character sequences, by code point; the order
/// legend names sort in.
pub open spec fn lex_le(a: Seq<char>, b: Seq<char>) -> bool
    decreases a.len(),
{
    if a.len() == 0 {
        true
    } else if b.len() == 0 {
        false
    } else if (a.first() as u32) == (b.first() as u32) {
        lex_le(a.drop_first(), b.drop_first())
    } else {
        (a.first() as u32) < (b.first() as u32)
    }
}

/// Compare two names lexicographically by code point.
pub fn str_le(a: &str, b: &str) -> (r: bool)
    ensures
        r == lex_le(a@, b@),
{
    let alen = a.unicode_len();
    let blen = b.unicode_len();
    let mut i: usize = 0;
    proof {
        assert(a@.skip(0) =~= a@);
        assert(b@.skip(0) =~= b@);
    }
    while i < alen && i < blen
        invariant
            i <= alen,
            i <= blen,
            alen == a@.len(),
            blen == b@.len(),
            lex_le(a@, b@) == lex_le(a@.skip(i as int), b@.skip(i as int)),
        decreases alen - i,
    {
        let ca = a.get_char(i);
        let cb = b.get_char(i);
        if ca as u32 != cb as u32 {
            proof {
                assert(a@.skip(i as int).first() == ca);
                assert(b@.skip(i as int).first() == cb);
            }
            return (ca as u32) < (cb as u32);
        }
        i = i + 1;
        proof {
            assert(a@.skip(i as int - 1).drop_first() =~= a@.skip(i as int));
            assert(b@.skip(i as int - 1).drop_first() =~= b@.skip(i as int));
        }
    }
    i == alen
}

/// Insert a handle into a name-sorted sequence, after every handle whose
/// name does not exceed its own: what one step of the stable sort does.
pub open spec fn insert_by_name_spec(s: Seq<LineHandle>, x: LineHandle) -> Seq<LineHandle>
    decreases s.len(),
{
    if s.len() == 0 {
        seq![x]
    } else if lex_le(s.last().name@, x.name@) {
        s.push(x)
    } else {
        insert_by_name_spec(s.drop_last(), x).push(s.last())
    }
}

/// Stable sort by name: handles registered earlier stay ahead of later
/// ones with an equal name.
pub open spec fn sort_by_name_spec(s: Seq<LineHandle>) -> Seq<LineHandle>
    decreases s.len(),
{
    if s.len() == 0 {
        Seq::<LineHandle>::empty()
    } else {
        insert_by_name_spec(sort_by_name_spec(s.drop_last()), s.last())
    }
}

proof fn lemma_insert_by_name_splice(s: Seq<LineHandle>, x: LineHandle, idx: int)
    requires
        0 <= idx <= s.len(),
        forall|j: int| idx <= j < s.len() ==> !lex_le((#[trigger] s[j]).name@, x.name@),
        idx == 0 || lex_le(s[idx - 1].name@, x.name@),
    ensures
        insert_by_name_spec(s, x) == s.subrange(0, idx).push(x) + s.subrange(
            idx,
            s.len() as int,
        ),
    decreases s.len(),
{
    if idx == s.len() {
        assert(s.subrange(0, idx) =~= s);
        assert(s.subrange(0, idx).push(x) + s.subrange(idx, s.len() as int) =~= s.push(x));
        if s.len() == 0 {
            assert(insert_by_name_spec(s, x) =~= s.push(x));
        }
    } else {
        assert(!lex_le(s.last().name@, x.name@));
        lemma_insert_by_name_splice(s.drop_last(), x, idx);
        assert(s.drop_last().subrange(0, idx) =~= s.subrange(0, idx));
        assert(s.drop_last().subrange(idx, s.len() - 1) =~= s.subrange(idx, s.len() - 1));
        assert((s.subrange(0, idx).push(x) + s.subrange(idx, s.len() - 1)).push(s.last()) =~= s
            .subrange(0, idx).push(x) + s.subrange(idx, s.len() as int));
    }
}

/// Insert a handle into a name-sorted vector at its stable position.
fn sorted_insert(v: &mut Vec<LineHandle>, x: LineHandle)
    ensures
        final(v)@ == insert_by_name_spec(old(v)@, x),
{
    let mut idx: usize = v.len();
    loop
        invariant
            idx <= v@.len(),
            v@ == old(v)@,
            forall|j: int| idx <= j < v@.len() ==> !lex_le((#[trigger] v@[j]).name@, x.name@),
        ensures
            idx <= v@.len(),
            v@ == old(v)@,
            forall|j: int| idx <= j < v@.len() ==> !lex_le((#[trigger] v@[j]).name@, x.name@),
            idx == 0 || lex_le(v@[idx - 1].name@, x.name@),
        decreases idx,
    {
        if idx == 0 {
            break ;
        }
        if str_le(v[idx - 1].name.as_str(), x.name.as_str()) {
            break ;
        }
        idx = idx - 1;
    }
    proof {
        lemma_insert_by_name_splice(v@, x, idx as int);
        assert(v@.insert(idx as int, x) =~= v@.subrange(0, idx as int).push(x) + v@.subrange(
            idx as int,
            v@.len() as int,
        ));
    }
    v.insert(idx, x);
}

/// Stable sort of the line handles by legend name.
pub fn sort_lines_by_name(handles: &Vec<LineHandle>) -> (r: Vec<LineHandle>)
    ensures
        r@ == sort_by_name_spec(handles@),
{
    let mut out: Vec<LineHandle> = Vec::new();
    let mut i: usize = 0;
    while i < handles.len()
        invariant
            i <= handles@.len(),
            out@ == sort_by_name_spec(handles@.take(i as int)),
        decreases handles@.len() - i,
    {
        let h = LineHandle {
            id: handles[i].id,
            name: handles[i].name.clone(),
            colour: handles[i].colour,
        };
        proof {
            assert(h == handles@[i as int]);
        }
        sorted_insert(&mut out, h);
        i = i + 1;
        proof {
            assert(handles@.take(i as int).drop_last() =~= handles@.take(i as int - 1));
        }
    }
    proof {
        assert(handles@.take(handles@.len() as int) =~= handles@);
    }
    out
}

// ---------------------------------------------------------------------
// The derived data of one full rebuild.
// ---------------------------------------------------------------------

/// The X value of every record, in record order.
pub open spec fn data_x_spec<X>(data: Seq<Record<X>>) -> Seq<X> {
    Seq::new(data.len(), |i: int| data[i].x)
}

/// The position of every record's X value, in record order.
pub open spec fn positions_x_spec<X: Position>(data: Seq<Record<X>>) -> Seq<Pos> {
    Seq::new(data.len(), |i: int| data[i].x.pos_spec())
}

/// One record's raw Y values by line id.
pub open spec fn row_raw_spec<X>(leaves: Seq<(LineDef, Seq<usize>)>, r: Record<X>) -> Seq<Pos> {
    Seq::new(leaves.len(), |k: int| raw_y_spec(r.ys@, leaves[k].0.column as int))
}

/// One record's cumulative Y values by line id.
pub open spec fn row_cum_spec<X>(leaves: Seq<(LineDef, Seq<usize>)>, r: Record<X>) -> Seq<Pos> {
    Seq::new(leaves.len(), |k: int| cum_y_spec(r.ys@, leaves[k].1))
}

/// Every cumulative Y value of every record, record-major: the sequence
/// the Y range is scanned over.
pub open spec fn flat_cum_spec<X>(leaves: Seq<(LineDef, Seq<usize>)>, data: Seq<Record<X>>) -> Seq<
    Pos,
>
    decreases data.len(),
{
    if data.len() == 0 {
        Seq::<Pos>::empty()
    } else {
        flat_cum_spec(leaves, data.drop_last()) + row_cum_spec(leaves, data.last())
    }
}

/// The handle every leaf line gets: its index as dense id, its name,
/// and the cycled colour for that id.
pub open spec fn handles_of(leaves: Seq<(LineDef, Seq<usize>)>, scheme: Seq<Colour>) -> Seq<
    LineHandle,
> {
    Seq::new(
        leaves.len(),
        |i: int|
            LineHandle { id: i as usize, name: leaves[i].0.name, colour: scheme_colour_spec(scheme, i) },
    )
}

/// The X range one rebuild derives: observed data extended by the
/// overrides.
pub open spec fn range_x_spec<X: Position>(series: Series<X>, data: Seq<Record<X>>) -> Option<
    (X, X),
> {
    combine_range_spec(
        scan_range(positions_x_spec(data), data_x_spec(data)),
        specified_range_spec(series.min_x, series.max_x),
    )
}

/// The Y range one rebuild derives: observed cumulative values extended
/// by the overrides.
pub open spec fn range_y_spec<X: Position>(series: Series<X>, data: Seq<Record<X>>) -> Option<
    (Pos, Pos),
> {
    let flat = flat_cum_spec(series_leaves(series.lines@), data);
    combine_range_spec(scan_range(flat, flat), specified_range_spec(series.min_y, series.max_y))
}

/// The box the two ranges span in position space; the zero box at the
/// origin when either range is undefined.
pub open spec fn position_range_spec<X: Position>(
    range_x: Option<(X, X)>,
    range_y: Option<(Pos, Pos)>,
) -> Bounds {
    match (range_x, range_y) {
        (Some((min_x, max_x)), Some((min_y, max_y))) => Bounds {
            min_x: min_x.pos_spec(),
            min_y: min_y.pos_spec(),
            max_x: max_x.pos_spec(),
            max_y: max_y.pos_spec(),
        },
        _ => Bounds::zero_spec(),
    }
}

/// Everything the chart draws from, derived in one full rebuild from a
/// series definition and a record sequence.
#[derive(Clone, Debug, PartialEq)]
pub struct UseData<X> {
    /// The registered line handles sorted by name: legend order.
    pub series: Vec<LineHandle>,
    /// The X value of each record.
    pub data_x: Vec<X>,
    /// Each record's raw Y values by line id.
    pub data_y: Vec<Vec<Pos>>,
    /// The X range: observed data extended by overrides; `None` when
    /// neither data nor an override exists.
    pub range_x: Option<(X, X)>,
    /// The Y range over cumulative values, extended by overrides.
    pub range_y: Option<(Pos, Pos)>,
    /// The position of each record's X value.
    pub positions_x: Vec<Pos>,
    /// Each record's cumulative Y positions by line id.
    pub positions_y: Vec<Vec<Pos>>,
    /// The box the two ranges span in position space.
    pub position_range: Bounds,
}

impl<X: Position + Copy> UseData<X> {
    /// Ties every derived field to its defining function of the series
    /// definition and the record sequence: what one full rebuild
    /// produces, and all a rebuild may produce.
    pub open spec fn is_build_of(self, series: Series<X>, data: Seq<Record<X>>) -> bool {
        let leaves = series_leaves(series.lines@);
        &&& self.series@ == sort_by_name_spec(handles_of(leaves, series.colours@))
        &&& self.data_x@ == data_x_spec(data)
        &&& self.data_y@.len() == data.len()
        &&& (forall|i: int|
            0 <= i < data.len() ==> (#[trigger] self.data_y@[i])@ == row_raw_spec(
                leaves,
                data[i],
            ))
        &&& self.positions_x@ == positions_x_spec(data)
        &&& self.positions_y@.len() == data.len()
        &&& (forall|i: int|
            0 <= i < data.len() ==> (#[trigger] self.positions_y@[i])@ == row_cum_spec(
                leaves,
                data[i],
            ))
        &&& self.range_x == range_x_spec(series, data)
        &&& self.range_y == range_y_spec(series, data)
        &&& self.position_range == position_range_spec(self.range_x, self.range_y)
    }

    /// Consume the accumulated lines and the record sequence; derive
    /// all ranges, positions and Y rows in one pass. Fully recomputed on
    /// every call: the outputs are a pure function of the inputs.
    pub fn new(series: &Series<X>, data: &Vec<Record<X>>) -> (u: UseData<X>)
        requires
            series.colours@.len() > 0,
        ensures
            u.is_build_of(*series, data@),
    {
        let ghost leaves = series_leaves(series.lines@);
        let lines = series.to_use_lines();

        // Line handles, sorted by name for the legend.
        let mut handles: Vec<LineHandle> = Vec::new();
        let mut t: usize = 0;
        while t < lines.len()
            invariant
                t <= lines@.len(),
                accumulated(lines@, series.lines@, series.colours@),
                leaves == series_leaves(series.lines@),
                handles@.len() == t,
                forall|j: int|
                    0 <= j < t ==> handles@[j] == handles_of(leaves, series.colours@)[j],
            decreases lines@.len() - t,
        {
            let h = LineHandle {
                id: lines[t].0.id,
                name: lines[t].0.name.clone(),
                colour: lines[t].0.colour,
            };
            handles.push(h);
            t = t + 1;
        }
        proof {
            assert(handles@ =~= handles_of(leaves, series.colours@));
        }
        let series_sorted = sort_lines_by_name(&handles);

        // X values and their positions.
        let mut data_x: Vec<X> = Vec::new();
        let mut positions_x: Vec<Pos> = Vec::new();
        let mut i: usize = 0;
        while i < data.len()
            invariant
                i <= data@.len(),
                data_x@.len() == i,
                positions_x@.len() == i,
                forall|j: int| 0 <= j < i ==> data_x@[j] == data@[j].x,
                forall|j: int| 0 <= j < i ==> positions_x@[j] == data@[j].x.pos_spec(),
            decreases data@.len() - i,
        {
            let xv: X = data[i].x;
            data_x.push(xv);
            positions_x.push(xv.position());
            i = i + 1;
        }
        proof {
            assert(data_x@ =~= data_x_spec(data@));
            assert(positions_x@ =~= positions_x_spec(data@));
        }

        // Raw and cumulative Y rows, and the flattened cumulative
        // values the Y range is scanned over.
        let mut data_y: Vec<Vec<Pos>> = Vec::new();
        let mut positions_y: Vec<Vec<Pos>> = Vec::new();
        let mut flat: Vec<Pos> = Vec::new();
        let mut i2: usize = 0;
        while i2 < data.len()
            invariant
                i2 <= data@.len(),
                accumulated(lines@, series.lines@, series.colours@),
                leaves == series_leaves(series.lines@),
                data_y@.len() == i2,
                positions_y@.len() == i2,
                forall|j: int|
                    0 <= j < i2 ==> (#[trigger] data_y@[j])@ == row_raw_spec(leaves, data@[j]),
                forall|j: int|
                    0 <= j < i2 ==> (#[trigger] positions_y@[j])@ == row_cum_spec(
                        leaves,
                        data@[j],
                    ),
                flat@ == flat_cum_spec(leaves, data@.take(i2 as int)),
            decreases data@.len() - i2,
        {
            let record = &data[i2];
            let mut row_raw: Vec<Pos> = Vec::new();
            let mut row_cum: Vec<Pos> = Vec::new();
            let ghost flat0 = flat@;
            let mut k: usize = 0;
            while k < lines.len()
                invariant
                    k <= lines@.len(),
                    i2 < data@.len(),
                    accumulated(lines@, series.lines@, series.colours@),
                    leaves == series_leaves(series.lines@),
                    record == &data@[i2 as int],
                    row_raw@.len() == k,
                    row_cum@.len() == k,
                    forall|j: int|
                        0 <= j < k ==> row_raw@[j] == row_raw_spec(leaves, data@[i2 as int])[j],
                    forall|j: int|
                        0 <= j < k ==> row_cum@[j] == row_cum_spec(leaves, data@[i2 as int])[j],
                    flat@ == flat0 + row_cum@,
                decreases lines@.len() - k,
            {
                let rv = lines[k].1.value(record);
                let cv = lines[k].1.cumulative_value(record);
                row_raw.push(rv);
                row_cum.push(cv);
                flat.push(cv);
                k = k + 1;
                proof {
                    assert(flat@ =~= flat0 + row_cum@);
                }
            }
            proof {
                assert(row_raw@ =~= row_raw_spec(leaves, data@[i2 as int]));
                assert(row_cum@ =~= row_cum_spec(leaves, data@[i2 as int]));
            }
            data_y.push(row_raw);
            positions_y.push(row_cum);
            i2 = i2 + 1;
            proof {
                assert(data@.take(i2 as int).drop_last() =~= data@.take(i2 as int - 1));
                assert(data@.take(i2 as int).last() == data@[i2 as int - 1]);
                assert(flat@ =~= flat_cum_spec(leaves, data@.take(i2 as int)));
            }
        }
        proof {
            assert(data@.take(data@.len() as int) =~= data@);
        }

        // Ranges: observed data extended outward by the overrides.
        let observed_x = data_range(&positions_x, &data_x);
        let range_x = extend_range(observed_x, series.min_x, series.max_x);
        let observed_y = data_range(&flat, &flat);
        let range_y = extend_range(observed_y, series.min_y, series.max_y);

        // The box the two ranges span; a zero box when either axis has
        // no range.
        let position_range = match (range_x, range_y) {
            (Some((min_x, max_x)), Some((min_y, max_y))) => Bounds::from_points(
                min_x.position(),
                min_y.position(),
                max_x.position(),
                max_y.position(),
            ),
            _ => Bounds::zero(),
        };

        UseData {
            series: series_sorted,
            data_x,
            data_y,
            range_x,
            range_y,
            positions_x,
            positions_y,
            position_range,
        }
    }
}

// ---------------------------------------------------------------------
// Nearest-point lookup along X.
// ---------------------------------------------------------------------

/// All positions finite and non-decreasing: the documented precondition
/// of the nearest-index queries (records pre-sorted by X). A violation
/// is out of contract and is never silently corrected.
pub open spec fn positions_sorted(ps: Seq<Pos>) -> bool {
    &&& (forall|i: int| 0 <= i < ps.len() ==> (#[trigger] ps[i]).spec_is_finite())
    &&& (forall|i: int, j: int|
        0 <= i <= j < ps.len() ==> (#[trigger] ps[i]).val() <= (#[trigger] ps[j]).val())
}

/// The number of leading positions strictly below the query; for a
/// sorted sequence, the partition point of the query.
pub open spec fn partition_point_spec(ps: Seq<Pos>, q: Pos) -> int
    decreases ps.len(),
{
    if ps.len() == 0 {
        0
    } else if ps.first().spec_lt(q) {
        1 + partition_point_spec(ps.drop_first(), q)
    } else {
        0
    }
}

/// The record index nearest to a query position, as the lookup defines
/// it: `None` when there are no records; otherwise the first index at
/// or past the query, pulled back by one when the position before it is
/// strictly closer or exactly as close — on an exact tie the earlier
/// index wins.
pub open spec fn nearest_index_spec(ps: Seq<Pos>, q: Pos) -> Option<int> {
    if ps.len() == 0 {
        None::<int>
    } else {
        let i = partition_point_spec(ps, q);
        if i == 0 {
            Some(0)
        } else if i == ps.len() {
            Some(ps.len() - 1)
        } else {
            let ahead = ps[i].val() - q.val();
            let before = q.val() - ps[i - 1].val();
            if ahead < before {
                Some(i)
            } else {
                Some(i - 1)
            }
        }
    }
}

/// A point that splits the sequence into a strictly-below prefix and an
/// at-or-above suffix is the partition point.
proof fn lemma_partition_point_from_bounds(ps: Seq<Pos>, q: Pos, p: int)
    requires
        0 <= p <= ps.len(),
        forall|i: int| 0 <= i < p ==> (#[trigger] ps[i]).spec_lt(q),
        forall|i: int| p <= i < ps.len() ==> !(#[trigger] ps[i]).spec_lt(q),
    ensures
        partition_point_spec(ps, q) == p,
    decreases ps.len(),
{
    if ps.len() > 0 {
        assert(forall|i: int| 0 <= i < ps.len() - 1 ==> ps.drop_first()[i] == ps[i + 1]);
        if ps.first().spec_lt(q) {
            assert(p > 0);
            lemma_partition_point_from_bounds(ps.drop_first(), q, p - 1);
        } else {
            assert(p == 0);
        }
    }
}

/// Finite positions whose every adjacent pair is ordered are sorted
/// throughout.
proof fn lemma_adjacent_sorted(ps: Seq<Pos>)
    requires
        forall|k: int| 0 <= k < ps.len() ==> (#[trigger] ps[k]).spec_is_finite(),
        forall|k: int| 0 <= k < ps.len() - 1 ==> (#[trigger] ps[k]).val() <= ps[k + 1].val(),
    ensures
        positions_sorted(ps),
{
    assert forall|i: int, j: int| 0 <= i <= j < ps.len() implies (#[trigger] ps[i]).val() <= (
    #[trigger] ps[j]).val() by {
        lemma_val_chain(ps, i, j);
    };
}

proof fn lemma_val_chain(ps: Seq<Pos>, i: int, j: int)
    requires
        forall|k: int| 0 <= k < ps.len() - 1 ==> (#[trigger] ps[k]).val() <= ps[k + 1].val(),
        0 <= i <= j < ps.len(),
    ensures
        ps[i].val() <= ps[j].val(),
    decreases j - i,
{
    if i < j {
        lemma_val_chain(ps, i, j - 1);
        assert(ps[j - 1].val() <= ps[j].val());
    }
}

/// Binary search for the nearest index in a finite, non-decreasing
/// position sequence.
fn nearest_index_in(ps: &Vec<Pos>, q: Pos) -> (r: Option<usize>)
    requires
        positions_sorted(ps@),
    ensures
        r is Some <==> nearest_index_spec(ps@, q) is Some,
        r is Some ==> r->Some_0 as int == nearest_index_spec(ps@, q)->Some_0,
        r is Some ==> r->Some_0 < ps@.len(),
{
    let n = ps.len();
    if n == 0 {
        return None;
    }
    let mut lo: usize = 0;
    let mut hi: usize = n;
    while lo < hi
        invariant
            lo <= hi <= n,
            n == ps@.len(),
            positions_sorted(ps@),
            forall|i: int| 0 <= i < lo ==> (#[trigger] ps@[i]).spec_lt(q),
            forall|i: int| hi <= i < n ==> !(#[trigger] ps@[i]).spec_lt(q),
        decreases hi - lo,
    {
        let mid = lo + (hi - lo) / 2;
        if ps[mid].lt(q) {
            lo = mid + 1;
        } else {
            hi = mid;
        }
    }
    proof {
        lemma_partition_point_from_bounds(ps@, q, lo as int);
    }
    if lo == 0 {
        return Some(0);
    }
    if lo == n {
        return Some(n - 1);
    }
    proof {
        assert(ps@[lo as int - 1].spec_lt(q));
        assert(!ps@[lo as int].spec_lt(q));
        assert(q is Finite);
    }
    let qv: i64 = match q {
        Pos::Finite(v) => v,
        _ => 0,
    };
    let av: i64 = match ps[lo] {
        Pos::Finite(v) => v,
        _ => 0,
    };
    let bv: i64 = match ps[lo - 1] {
        Pos::Finite(v) => v,
        _ => 0,
    };
    let ahead: i128 = av as i128 - qv as i128;
    let before: i128 = qv as i128 - bv as i128;
    if ahead < before {
        Some(lo)
    } else {
        Some(lo - 1)
    }
}

impl<X: Position + Copy> UseData<X> {
    /// The shape every rebuild establishes: one X value, one X position
    /// and one Y row per record, Y rows as wide as the line list, and
    /// every registered id a valid index into a row.
    pub open spec fn wf(self) -> bool {
        &&& self.data_x@.len() == self.positions_x@.len()
        &&& self.data_y@.len() == self.positions_x@.len()
        &&& self.positions_y@.len() == self.positions_x@.len()
        &&& (forall|i: int|
            0 <= i < self.data_y@.len() ==> (#[trigger] self.data_y@[i])@.len()
                == self.series@.len())
        &&& (forall|i: int|
            0 <= i < self.positions_y@.len() ==> (#[trigger] self.positions_y@[i])@.len()
                == self.series@.len())
        &&& (forall|j: int|
            0 <= j < self.series@.len() ==> (#[trigger] self.series@[j]).id
                < self.series@.len())
    }

    /// Whether the X positions meet the nearest-lookup precondition:
    /// finite and non-decreasing by index. That precondition is
    /// documented, never silently enforced; this test lets a caller
    /// check it before querying.
    pub fn positions_are_sorted(&self) -> (r: bool)
        ensures
            r == positions_sorted(self.positions_x@),
    {
        let n = self.positions_x.len();
        let mut i: usize = 0;
        while i < n
            invariant
                i <= n,
                n == self.positions_x@.len(),
                forall|k: int| 0 <= k < i ==> (#[trigger] self.positions_x@[k]).spec_is_finite(),
            decreases n - i,
        {
            if !self.positions_x[i].is_finite() {
                proof {
                    let ghost ii = i as int;
                    assert(!positions_sorted(self.positions_x@)) by {
                        assert(0 <= ii < self.positions_x@.len());
                        assert(!self.positions_x@[ii].spec_is_finite());
                    };
                }
                return false;
            }
            i = i + 1;
        }
        if n == 0 {
            return true;
        }
        let mut j: usize = 1;
        while j < n
            invariant
                1 <= j <= n,
                n == self.positions_x@.len(),
                forall|k: int| 0 <= k < n ==> (#[trigger] self.positions_x@[k]).spec_is_finite(),
                forall|k: int|
                    0 <= k < j - 1 ==> (#[trigger] self.positions_x@[k]).val()
                        <= self.positions_x@[k + 1].val(),
            decreases n - j,
        {
            let a: i64 = match self.positions_x[j - 1] {
                Pos::Finite(v) => v,
                _ => 0,
            };
            let b: i64 = match self.positions_x[j] {
                Pos::Finite(v) => v,
                _ => 0,
            };
            if a > b {
                proof {
                    let ghost jj = j as int;
                    assert(!positions_sorted(self.positions_x@)) by {
                        assert(self.positions_x@[jj - 1].val() == a as int);
                        assert(self.positions_x@[jj].val() == b as int);
                        assert(0 <= jj - 1 <= jj < self.positions_x@.len());
                    };
                }
                return false;
            }
            j = j + 1;
        }
        proof {
            lemma_adjacent_sorted(self.positions_x@);
        }
        true
    }

    /// The record index nearest to the query position along X; `None`
    /// when there are no records. Requires the documented precondition
    /// that X positions are finite and non-decreasing.
    pub fn nearest_index(&self, pos_x: Pos) -> (r: Option<usize>)
        requires
            positions_sorted(self.positions_x@),
        ensures
            r is Some <==> nearest_index_spec(self.positions_x@, pos_x) is Some,
            r is Some ==> r->Some_0 as int == nearest_index_spec(self.positions_x@, pos_x)->Some_0,
            r is Some ==> r->Some_0 < self.positions_x@.len(),
    {
        nearest_index_in(&self.positions_x, pos_x)
    }

    /// The X value of the record nearest to the query position; `None`
    /// when there are no records.
    pub fn nearest_data_x(&self, pos_x: Pos) -> (r: Option<X>)
        requires
            positions_sorted(self.positions_x@),
            self.wf(),
        ensures
            r == match nearest_index_spec(self.positions_x@, pos_x) {
                None => None::<X>,
                Some(i) => Some(self.data_x@[i]),
            },
    {
        match self.nearest_index(pos_x) {
            None => None,
            Some(index) => Some(self.data_x[index]),
        }
    }

    /// Given an arbitrary (unaligned to data) X position, find the
    /// nearest X position aligned to data. Returns `Pos::Nan` when
    /// there are no records.
    pub fn nearest_position_x(&self, pos_x: Pos) -> (r: Pos)
        requires
            positions_sorted(self.positions_x@),
        ensures
            r == match nearest_index_spec(self.positions_x@, pos_x) {
                None => Pos::Nan,
                Some(i) => self.positions_x@[i],
            },
    {
        match self.nearest_index(pos_x) {
            None => Pos::Nan,
            Some(index) => self.positions_x[index],
        }
    }

    /// Every line in legend order paired with its raw Y at the record
    /// nearest to the query position; the Y is `None` when there are no
    /// records. All pairs come from the same single nearest-index
    /// computation, so a tooltip's index, X value and Y values agree.
    pub fn nearest_data_y(&self, pos_x: Pos) -> (r: Vec<(LineHandle, Option<Pos>)>)
        requires
            positions_sorted(self.positions_x@),
            self.wf(),
        ensures
            r@.len() == self.series@.len(),
            forall|j: int|
                0 <= j < r@.len() ==> (#[trigger] r@[j]).0 == self.series@[j] && r@[j].1
                    == match nearest_index_spec(self.positions_x@, pos_x) {
                    None => None::<Pos>,
                    Some(i) => Some(self.data_y@[i]@[self.series@[j].id as int]),
                },
    {
        let index_x = self.nearest_index(pos_x);
        let mut out: Vec<(LineHandle, Option<Pos>)> = Vec::new();
        let mut j: usize = 0;
        while j < self.series.len()
            invariant
                j <= self.series@.len(),
                positions_sorted(self.positions_x@),
                self.wf(),
                index_x is Some <==> nearest_index_spec(self.positions_x@, pos_x) is Some,
                index_x is Some ==> index_x->Some_0 as int == nearest_index_spec(
                    self.positions_x@,
                    pos_x,
                )->Some_0,
                index_x is Some ==> index_x->Some_0 < self.positions_x@.len(),
                out@.len() == j,
                forall|j2: int|
                    0 <= j2 < j ==> (#[trigger] out@[j2]).0 == self.series@[j2] && out@[j2].1
                        == match nearest_index_spec(self.positions_x@, pos_x) {
                        None => None::<Pos>,
                        Some(i) => Some(self.data_y@[i]@[self.series@[j2].id as int]),
                    },
            decreases self.series@.len() - j,
        {
            let line = LineHandle {
                id: self.series[j].id,
                name: self.series[j].name.clone(),
                colour: self.series[j].colour,
            };
            let y_value = match index_x {
                None => None,
                Some(index) => Some(self.data_y[index][line.id]),
            };
            out.push((line, y_value));
            j = j + 1;
        }
        out
    }

    /// The drawing coordinates of the line with this id: each record's
    /// X position paired with the line's cumulative Y position, in
    /// record order, ready for a caller-supplied projection to pixels.
    pub fn line_points(&self, id: usize) -> (r: Vec<(Pos, Pos)>)
        requires
            self.wf(),
            id < self.series@.len(),
        ensures
            r@.len() == self.positions_x@.len(),
            forall|i: int|
                0 <= i < r@.len() ==> #[trigger] r@[i] == (
                    self.positions_x@[i],
                    self.positions_y@[i]@[id as int],
                ),
    {
        let mut out: Vec<(Pos, Pos)> = Vec::new();
        let mut i: usize = 0;
        while i < self.positions_x.len()
            invariant
                i <= self.positions_x@.len(),
                self.wf(),
                id < self.series@.len(),
                out@.len() == i,
                forall|j: int|
                    0 <= j < i ==> #[trigger] out@[j] == (
                        self.positions_x@[j],
                        self.positions_y@[j]@[id as int],
                    ),
            decreases self.positions_x@.len() - i,
        {
            out.push((self.positions_x[i], self.positions_y[i][id]));
            i = i + 1;
        }
        out
    }
}

// ---------------------------------------------------------------------
// Laws of the engine.
// ---------------------------------------------------------------------

/// Lexicographic order is total: of any two names, one precedes the
/// other.
pub proof fn lemma_lex_le_total(a: Seq<char>, b: Seq<char>)
    ensures
        lex_le(a, b) || lex_le(b, a),
    decreases a.len(),
{
    if a.len() > 0 && b.len() > 0 && (a.first() as u32) == (b.first() as u32) {
        lemma_lex_le_total(a.drop_first(), b.drop_first());
    }
}

/// Lexicographic order is transitive.
pub proof fn lemma_lex_le_trans(a: Seq<char>, b: Seq<char>, c: Seq<char>)
    requires
        lex_le(a, b),
        lex_le(b, c),
    ensures
        lex_le(a, c),
    decreases a.len(),
{
    if a.len() > 0 && b.len() > 0 && c.len() > 0 && (a.first() as u32) == (b.first() as u32) && (
    b.first() as u32) == (c.first() as u32) {
        lemma_lex_le_trans(a.drop_first(), b.drop_first(), c.drop_first());
    }
}

/// Name order over a handle sequence: every earlier name precedes every
/// later one.
pub open spec fn sorted_by_name(s: Seq<LineHandle>) -> bool {
    forall|i: int, j: int|
        0 <= i <= j < s.len() ==> lex_le((#[trigger] s[i]).name@, (#[trigger] s[j]).name@)
}

proof fn lemma_insert_by_name_sorted(s: Seq<LineHandle>, x: LineHandle)
    requires
        sorted_by_name(s),
    ensures
        sorted_by_name(insert_by_name_spec(s, x)),
    decreases s.len(),
{
    broadcast use vstd::seq_lib::group_to_multiset_ensures;

    if s.len() == 0 {
        lemma_lex_le_total(x.name@, x.name@);
    } else if lex_le(s.last().name@, x.name@) {
        let r = s.push(x);
        assert forall|i: int, j: int| 0 <= i <= j < r.len() implies lex_le(
            (#[trigger] r[i]).name@,
            (#[trigger] r[j]).name@,
        ) by {
            if j == r.len() - 1 {
                if i < j {
                    lemma_lex_le_trans(r[i].name@, s.last().name@, x.name@);
                } else {
                    lemma_lex_le_total(x.name@, x.name@);
                }
            }
        };
    } else {
        lemma_insert_by_name_sorted(s.drop_last(), x);
        lemma_insert_by_name_multiset(s.drop_last(), x);
        let r0 = insert_by_name_spec(s.drop_last(), x);
        let r = r0.push(s.last());
        assert forall|i: int, j: int| 0 <= i <= j < r.len() implies lex_le(
            (#[trigger] r[i]).name@,
            (#[trigger] r[j]).name@,
        ) by {
            if j == r.len() - 1 {
                if i < j {
                    // Every element of the inserted prefix is either one
                    // of the dropped handles, all of which precede the
                    // last, or the inserted handle, which precedes it
                    // because the last did not precede it.
                    let e = r0[i];
                    assert(r0.to_multiset().count(e) > 0);
                    if e == x {
                        lemma_lex_le_total(s.last().name@, x.name@);
                    } else {
                        assert(s.drop_last().to_multiset().count(e) > 0);
                        assert(s.drop_last().contains(e));
                        let t = choose|t: int|
                            0 <= t < s.drop_last().len() && s.drop_last()[t] == e;
                        assert(s[t] == e);
                        assert(lex_le(e.name@, s.last().name@));
                    }
                } else {
                    lemma_lex_le_total(s.last().name@, s.last().name@);
                }
            }
        };
    }
}

/// The legend order is genuinely sorted: after the stable sort every
/// earlier handle's name precedes every later one's.
pub proof fn lemma_sort_by_name_sorted(s: Seq<LineHandle>)
    ensures
        sorted_by_name(sort_by_name_spec(s)),
    decreases s.len(),
{
    if s.len() > 0 {
        lemma_sort_by_name_sorted(s.drop_last());
        lemma_insert_by_name_sorted(sort_by_name_spec(s.drop_last()), s.last());
    }
}

/// Handles with equal names stand in ascending id order: what the
/// sort's stability preserves, ids being assigned in registration
/// order.
pub open spec fn stable_by_id(s: Seq<LineHandle>) -> bool {
    forall|i: int, j: int|
        0 <= i < j < s.len() && (#[trigger] s[i]).name@ == (#[trigger] s[j]).name@ ==> s[i].id
            < s[j].id
}

proof fn lemma_lex_le_refl(a: Seq<char>)
    ensures
        lex_le(a, a),
{
    lemma_lex_le_total(a, a);
}

proof fn lemma_insert_by_name_stable(s: Seq<LineHandle>, x: LineHandle)
    requires
        stable_by_id(s),
        forall|i: int| 0 <= i < s.len() ==> (#[trigger] s[i]).id < x.id,
    ensures
        stable_by_id(insert_by_name_spec(s, x)),
    decreases s.len(),
{
    broadcast use vstd::seq_lib::group_to_multiset_ensures;

    if s.len() == 0 {
    } else if lex_le(s.last().name@, x.name@) {
    } else {
        assert(forall|i: int| 0 <= i < s.len() - 1 ==> s.drop_last()[i] == s[i]);
        lemma_insert_by_name_stable(s.drop_last(), x);
        lemma_insert_by_name_multiset(s.drop_last(), x);
        let r0 = insert_by_name_spec(s.drop_last(), x);
        let r = r0.push(s.last());
        assert forall|i: int, j: int|
            0 <= i < j < r.len() && (#[trigger] r[i]).name@ == (#[trigger] r[j]).name@ implies r[i].id
            < r[j].id by {
            if j == r.len() - 1 {
                let e = r0[i];
                assert(r0.to_multiset().count(e) > 0);
                if e == x {
                    // The branch has the last handle's name after the
                    // inserted one's; equal names would precede it.
                    lemma_lex_le_refl(x.name@);
                    assert(false);
                } else {
                    assert(s.drop_last().to_multiset().count(e) > 0);
                    assert(s.drop_last().contains(e));
                    let t = choose|t: int| 0 <= t < s.drop_last().len() && s.drop_last()[t] == e;
                    assert(s[t] == e);
                    assert(s[t].id < s.last().id);
                }
            }
        };
    }
}

/// The legend sort is stable: when the input's ids ascend, as
/// registration ids do, handles with equal names keep their
/// registration order in the sorted sequence.
pub proof fn lemma_sort_by_name_stable(s: Seq<LineHandle>)
    requires
        forall|i: int, j: int|
            0 <= i < j < s.len() ==> (#[trigger] s[i]).id < (#[trigger] s[j]).id,
    ensures
        stable_by_id(sort_by_name_spec(s)),
    decreases s.len(),
{
    broadcast use vstd::seq_lib::group_to_multiset_ensures;

    if s.len() > 0 {
        assert(forall|i: int| 0 <= i < s.len() - 1 ==> s.drop_last()[i] == s[i]);
        lemma_sort_by_name_stable(s.drop_last());
        lemma_sort_by_name_multiset(s.drop_last());
        let r0 = sort_by_name_spec(s.drop_last());
        assert forall|i: int| 0 <= i < r0.len() implies (#[trigger] r0[i]).id < s.last().id by {
            let e = r0[i];
            assert(r0.to_multiset().count(e) > 0);
            assert(s.drop_last().to_multiset().count(e) > 0);
            assert(s.drop_last().contains(e));
            let t = choose|t: int| 0 <= t < s.drop_last().len() && s.drop_last()[t] == e;
            assert(s[t] == e);
        };
        lemma_insert_by_name_stable(r0, s.last());
    }
}

proof fn lemma_insert_by_name_multiset(s: Seq<LineHandle>, x: LineHandle)
    ensures
        insert_by_name_spec(s, x).to_multiset() =~= s.to_multiset().insert(x),
    decreases s.len(),
{
    broadcast use vstd::seq_lib::group_to_multiset_ensures;

    if s.len() == 0 {
        assert(seq![x] =~= Seq::<LineHandle>::empty().push(x));
    } else if lex_le(s.last().name@, x.name@) {
    } else {
        lemma_insert_by_name_multiset(s.drop_last(), x);
        assert(s =~= s.drop_last().push(s.last()));
        assert(s.drop_last().to_multiset().insert(x).insert(s.last()) =~= s.drop_last()
            .to_multiset().insert(s.last()).insert(x));
    }
}

/// Sorting the handles reorders them and nothing else: the sorted
/// sequence holds exactly the registered handles.
pub proof fn lemma_sort_by_name_multiset(s: Seq<LineHandle>)
    ensures
        sort_by_name_spec(s).to_multiset() =~= s.to_multiset(),
    decreases s.len(),
{
    broadcast use vstd::seq_lib::group_to_multiset_ensures;

    if s.len() > 0 {
        lemma_sort_by_name_multiset(s.drop_last());
        lemma_insert_by_name_multiset(sort_by_name_spec(s.drop_last()), s.last());
        assert(s =~= s.drop_last().push(s.last()));
    }
}

/// Every rebuild is well-formed: the derived structure of
/// [`UseData::is_build_of`] establishes the shape [`UseData::wf`]
/// promises — one row per record, rows as wide as the line list, and
/// every legend id a valid row index.
pub proof fn lemma_build_wf<X: Position + Copy>(
    u: UseData<X>,
    series: Series<X>,
    data: Seq<Record<X>>,
)
    requires
        u.is_build_of(series, data),
    ensures
        u.wf(),
{
    broadcast use vstd::seq_lib::group_to_multiset_ensures;

    let leaves = series_leaves(series.lines@);
    let handles = handles_of(leaves, series.colours@);
    lemma_sort_by_name_multiset(handles);
    assert(u.series@.to_multiset() == handles.to_multiset());
    assert(u.series@.to_multiset().len() == u.series@.len());
    assert(handles.to_multiset().len() == handles.len());
    assert(u.series@.len() == handles.len());
    assert forall|j: int| 0 <= j < u.series@.len() implies (#[trigger] u.series@[j]).id
        < u.series@.len() by {
        let h = u.series@[j];
        assert(u.series@.contains(h));
        assert(u.series@.to_multiset().count(h) > 0);
        assert(handles.to_multiset().count(h) > 0);
        assert(handles.contains(h));
        let t = choose|t: int| 0 <= t < handles.len() && handles[t] == h;
        assert(h.id == t as usize);
    };
}

/// Identical rebuilds are identical: two rebuilds from an unchanged
/// series definition and record sequence yield the same outputs, field
/// for field.
pub proof fn lemma_rebuild_idempotent<X: Position + Copy>(
    u1: UseData<X>,
    u2: UseData<X>,
    series: Series<X>,
    data: Seq<Record<X>>,
)
    requires
        u1.is_build_of(series, data),
        u2.is_build_of(series, data),
    ensures
        u1.series@ == u2.series@,
        u1.data_x@ == u2.data_x@,
        u1.data_y@.len() == u2.data_y@.len(),
        forall|i: int| 0 <= i < u1.data_y@.len() ==> (#[trigger] u1.data_y@[i])@ == u2.data_y@[i]@,
        u1.range_x == u2.range_x,
        u1.range_y == u2.range_y,
        u1.positions_x@ == u2.positions_x@,
        u1.positions_y@.len() == u2.positions_y@.len(),
        forall|i: int|
            0 <= i < u1.positions_y@.len() ==> (#[trigger] u1.positions_y@[i])@
                == u2.positions_y@[i]@,
        u1.position_range == u2.position_range,
{
}

/// A defined range bounds every finite position it was scanned over:
/// whenever some position is finite — and any override in play has a
/// finite position — the derived range is defined, and the positions of
/// its two ends enclose every finite position of the data.
pub proof fn lemma_range_bounds_positions<V: Position>(
    ps: Seq<Pos>,
    vals: Seq<V>,
    min_o: Option<V>,
    max_o: Option<V>,
    i: int,
)
    requires
        ps.len() == vals.len(),
        forall|j: int| 0 <= j < ps.len() ==> ps[j] == (#[trigger] vals[j]).pos_spec(),
        0 <= i < ps.len(),
        ps[i].spec_is_finite(),
        min_o is Some ==> min_o->0.pos_spec().spec_is_finite(),
        max_o is Some ==> max_o->0.pos_spec().spec_is_finite(),
    ensures
        ({
            let rng = combine_range_spec(scan_range(ps, vals), specified_range_spec(min_o, max_o));
            &&& rng is Some
            &&& rng->Some_0.0.pos_spec().spec_le(ps[i])
            &&& ps[i].spec_le(rng->Some_0.1.pos_spec())
        }),
{
    lemma_scan_extrema_bounds(ps);
}

/// A rebuild's defined X range bounds every finite X position: the
/// positions of its two ends enclose `positions_x[i]` whenever that
/// position is finite and any override in play has a finite position.
pub proof fn lemma_range_x_bounds<X: Position + Copy>(
    u: UseData<X>,
    series: Series<X>,
    data: Seq<Record<X>>,
    i: int,
)
    requires
        u.is_build_of(series, data),
        0 <= i < u.positions_x@.len(),
        u.positions_x@[i].spec_is_finite(),
        series.min_x is Some ==> series.min_x->0.pos_spec().spec_is_finite(),
        series.max_x is Some ==> series.max_x->0.pos_spec().spec_is_finite(),
    ensures
        u.range_x is Some,
        u.range_x->Some_0.0.pos_spec().spec_le(u.positions_x@[i]),
        u.positions_x@[i].spec_le(u.range_x->Some_0.1.pos_spec()),
{
    lemma_range_bounds_positions(
        positions_x_spec(data),
        data_x_spec(data),
        series.min_x,
        series.max_x,
        i,
    );
}

/// Where each cumulative value sits in the flattened scan sequence:
/// record i's value for line k is entry `i * lines + k`.
pub proof fn lemma_flat_cum_index<X>(
    leaves: Seq<(LineDef, Seq<usize>)>,
    data: Seq<Record<X>>,
    i: int,
    k: int,
)
    requires
        0 <= i < data.len(),
        0 <= k < leaves.len(),
    ensures
        flat_cum_spec(leaves, data).len() == data.len() * leaves.len(),
        flat_cum_spec(leaves, data)[i * leaves.len() + k] == row_cum_spec(leaves, data[i])[k],
    decreases data.len(),
{
    let n = data.len() as int;
    let l = leaves.len() as int;
    lemma_flat_cum_len(leaves, data);
    lemma_flat_cum_len(leaves, data.drop_last());
    if i == n - 1 {
        assert((n - 1) * l + k - (n - 1) * l == k);
        assert(flat_cum_spec(leaves, data)[i * l + k] == row_cum_spec(leaves, data.last())[k]);
    } else {
        lemma_flat_cum_index(leaves, data.drop_last(), i, k);
        assert(i * l + k < (n - 1) * l) by (nonlinear_arith)
            requires
                0 <= i < n - 1,
                0 <= k < l,
        ;
        assert(data.drop_last()[i] == data[i]);
    }
}

/// The flattened scan sequence holds one entry per record and line.
pub proof fn lemma_flat_cum_len<X>(leaves: Seq<(LineDef, Seq<usize>)>, data: Seq<Record<X>>)
    ensures
        flat_cum_spec(leaves, data).len() == data.len() * leaves.len(),
    decreases data.len(),
{
    if data.len() > 0 {
        lemma_flat_cum_len(leaves, data.drop_last());
        assert((data.len() - 1) * leaves.len() + leaves.len() == data.len() * leaves.len())
            by (nonlinear_arith);
    }
}

/// A rebuild's defined Y range bounds every finite cumulative position:
/// the positions of its two ends enclose `positions_y[i][k]` whenever
/// that value is finite and any Y override in play is finite. Range
/// derivation is thus one algorithm for both axes.
pub proof fn lemma_range_y_bounds<X: Position + Copy>(
    u: UseData<X>,
    series: Series<X>,
    data: Seq<Record<X>>,
    i: int,
    k: int,
)
    requires
        u.is_build_of(series, data),
        0 <= i < u.positions_y@.len(),
        0 <= k < u.positions_y@[i]@.len(),
        u.positions_y@[i]@[k].spec_is_finite(),
        series.min_y is Some ==> series.min_y->0.spec_is_finite(),
        series.max_y is Some ==> series.max_y->0.spec_is_finite(),
    ensures
        u.range_y is Some,
        u.range_y->Some_0.0.spec_le(u.positions_y@[i]@[k]),
        u.positions_y@[i]@[k].spec_le(u.range_y->Some_0.1),
{
    let leaves = series_leaves(series.lines@);
    let flat = flat_cum_spec(leaves, data);
    let l = leaves.len() as int;
    lemma_flat_cum_index(leaves, data, i, k);
    assert(0 <= i * l + k < data.len() * l) by (nonlinear_arith)
        requires
            0 <= i < data.len(),
            0 <= k < l,
    ;
    lemma_range_bounds_positions(flat, flat, series.min_y, series.max_y, i * l + k);
}

/// Overrides extend a range outward: a lower override strictly below an
/// observed range `[a, b]` replaces its lower end; an upper override
/// strictly above replaces its upper end; the untouched end stays.
pub proof fn lemma_override_extends(a: Pos, b: Pos, lo: Pos, hi: Pos)
    requires
        a.spec_le(b),
        lo.spec_lt(a),
        b.spec_lt(hi),
    ensures
        combine_range_spec::<Pos>(Some((a, b)), specified_range_spec(Some(lo), None::<Pos>))
            == Some((lo, b)),
        combine_range_spec::<Pos>(Some((a, b)), specified_range_spec(None::<Pos>, Some(hi)))
            == Some((a, hi)),
{
}

/// An empty dataset is a steady, representable state: with no records
/// and no overrides every range is undefined, the bounding box is the
/// zero box at the origin, and no query has a nearest index.
pub proof fn lemma_empty_dataset<X: Position + Copy>(u: UseData<X>, series: Series<X>, q: Pos)
    requires
        u.is_build_of(series, Seq::<Record<X>>::empty()),
        series.min_x is None,
        series.max_x is None,
        series.min_y is None,
        series.max_y is None,
    ensures
        u.positions_x@.len() == 0,
        nearest_index_spec(u.positions_x@, q) is None,
        u.range_x is None,
        u.range_y is None,
        u.position_range == Bounds::zero_spec(),
{
    let leaves = series_leaves(series.lines@);
    assert(flat_cum_spec(leaves, Seq::<Record<X>>::empty()) =~= Seq::<Pos>::empty());
}

/// For a sorted sequence the partition point splits it into a
/// strictly-below prefix and an at-or-above suffix.
proof fn lemma_partition_point_bounds(ps: Seq<Pos>, q: Pos)
    requires
        positions_sorted(ps),
    ensures
        ({
            let p = partition_point_spec(ps, q);
            &&& 0 <= p <= ps.len()
            &&& (forall|k: int| 0 <= k < p ==> (#[trigger] ps[k]).spec_lt(q))
            &&& (forall|k: int| p <= k < ps.len() ==> !(#[trigger] ps[k]).spec_lt(q))
        }),
    decreases ps.len(),
{
    if ps.len() > 0 {
        assert(forall|k: int| 0 <= k < ps.len() - 1 ==> ps.drop_first()[k] == ps[k + 1]);
        if ps.first().spec_lt(q) {
            assert(positions_sorted(ps.drop_first()));
            lemma_partition_point_bounds(ps.drop_first(), q);
            let p = partition_point_spec(ps, q);
            assert(p == 1 + partition_point_spec(ps.drop_first(), q));
            assert forall|k: int| 0 <= k < p implies (#[trigger] ps[k]).spec_lt(q) by {
                if k > 0 {
                    assert(ps.drop_first()[k - 1] == ps[k]);
                }
            };
            assert forall|k: int| p <= k < ps.len() implies !(#[trigger] ps[k]).spec_lt(q) by {
                assert(ps.drop_first()[k - 1] == ps[k]);
            };
        } else {
            assert forall|k: int| 0 <= k < ps.len() implies !(#[trigger] ps[k]).spec_lt(q) by {
                assert(ps[0].spec_is_finite());
                assert(ps[k].spec_is_finite());
                assert(ps[0].val() <= ps[k].val());
            };
        }
    }
}

/// The nearest index is genuinely nearest: for any finite query, no
/// record's position is strictly closer to the query than the returned
/// record's.
pub proof fn lemma_nearest_index_closest(ps: Seq<Pos>, q: Pos, j: int)
    requires
        positions_sorted(ps),
        q.spec_is_finite(),
        0 <= j < ps.len(),
    ensures
        ({
            let r = nearest_index_spec(ps, q);
            &&& r is Some
            &&& vstd::math::abs(ps[r->Some_0].val() - q.val()) <= vstd::math::abs(
                ps[j].val() - q.val(),
            )
        }),
{
    lemma_partition_point_bounds(ps, q);
    let i = partition_point_spec(ps, q);
    if i == 0 {
    } else if i == ps.len() {
    } else {
        assert(ps[i - 1].spec_lt(q));
        assert(!ps[i].spec_lt(q));
    }
}

/// A missing (non-finite) position is excluded from range derivation —
/// neither extremum of the scan ever sits at it — while the record
/// keeps its index slot in every derived sequence.
pub proof fn lemma_non_finite_excluded(ps: Seq<Pos>, i: int)
    requires
        0 <= i < ps.len(),
        !ps[i].spec_is_finite(),
    ensures
        match scan_extrema(ps) {
            None => true,
            Some((m, mx)) => m != i && mx != i,
        },
{
    lemma_scan_extrema_bounds(ps);
}

} // verus!

