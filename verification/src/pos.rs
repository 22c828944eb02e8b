//! The scalar position model.
//!
//! A *position* is the projection of a domain value (a number, a point in
//! time) onto an axis: a scalar used for ordering, range derivation and
//! distance comparisons. Positions carry the non-finite markers that flow
//! from missing or unbounded data; a non-finite position never
//! participates in range extrema.

use vstd::prelude::*;

verus! {

/// A scalar axis position: a finite magnitude, one of the two infinities,
/// or `Nan`, the "missing value" marker.
///
/// Comparisons mirror the usual partial order on such scalars: `Nan`
/// compares false against everything (itself included), `NegInf` sits
/// below and `PosInf` above every finite position.
#[derive(Clone, Copy, Debug, PartialEq, Eq, Structural)]
pub enum Pos {
    /// Missing or undefined; excluded from all extrema.
    Nan,
    /// Below every finite position.
    NegInf,
    /// A finite scalar magnitude.
    Finite(i64),
    /// Above every finite position.
    PosInf,
}

impl Pos {
    /// True of finite positions only.
    pub open spec fn spec_is_finite(self) -> bool {
        self is Finite
    }

    /// The magnitude of a finite position (zero elsewhere).
    pub open spec fn val(self) -> int {
        match self {
            Pos::Finite(v) => v as int,
            _ => 0,
        }
    }

    /// Strict order: false whenever either side is `Nan` or the sides are
    /// equal; otherwise `NegInf` is below and `PosInf` above everything.
    pub open spec fn spec_lt(self, other: Pos) -> bool {
        match (self, other) {
            (Pos::Nan, _) => false,
            (_, Pos::Nan) => false,
            (Pos::NegInf, Pos::NegInf) => false,
            (Pos::NegInf, _) => true,
            (_, Pos::NegInf) => false,
            (Pos::PosInf, _) => false,
            (Pos::Finite(_), Pos::PosInf) => true,
            (Pos::Finite(a), Pos::Finite(b)) => a < b,
        }
    }

    /// Non-strict order: false whenever either side is `Nan`.
    pub open spec fn spec_le(self, other: Pos) -> bool {
        !(self is Nan) && !(other is Nan) && (self == other || self.spec_lt(other))
    }

    /// Saturating addition: `Nan` absorbs, opposite infinities give `Nan`,
    /// an infinity absorbs finite addends, and a finite sum that leaves
    /// the representable span saturates to the matching infinity.
    pub open spec fn spec_plus(self, other: Pos) -> Pos {
        match (self, other) {
            (Pos::Nan, _) => Pos::Nan,
            (_, Pos::Nan) => Pos::Nan,
            (Pos::NegInf, Pos::PosInf) => Pos::Nan,
            (Pos::PosInf, Pos::NegInf) => Pos::Nan,
            (Pos::NegInf, _) => Pos::NegInf,
            (_, Pos::NegInf) => Pos::NegInf,
            (Pos::PosInf, _) => Pos::PosInf,
            (_, Pos::PosInf) => Pos::PosInf,
            (Pos::Finite(a), Pos::Finite(b)) => if a + b > i64::MAX {
                Pos::PosInf
            } else if a + b < i64::MIN {
                Pos::NegInf
            } else {
                Pos::Finite((a + b) as i64)
            },
        }
    }

    /// True of finite positions only.
    #[verifier::when_used_as_spec(spec_is_finite)]
    pub fn is_finite(self) -> (r: bool)
        ensures
            r == self.spec_is_finite(),
    {
        matches!(self, Pos::Finite(_))
    }

    /// Strict comparison; see [`Pos::spec_lt`].
    #[verifier::when_used_as_spec(spec_lt)]
    pub fn lt(self, other: Pos) -> (r: bool)
        ensures
            r == self.spec_lt(other),
    {
        match (self, other) {
            (Pos::Nan, _) => false,
            (_, Pos::Nan) => false,
            (Pos::NegInf, Pos::NegInf) => false,
            (Pos::NegInf, _) => true,
            (_, Pos::NegInf) => false,
            (Pos::PosInf, _) => false,
            (Pos::Finite(_), Pos::PosInf) => true,
            (Pos::Finite(a), Pos::Finite(b)) => a < b,
        }
    }

    /// Non-strict comparison; see [`Pos::spec_le`].
    #[verifier::when_used_as_spec(spec_le)]
    pub fn le(self, other: Pos) -> (r: bool)
        ensures
            r == self.spec_le(other),
    {
        match (self, other) {
            (Pos::Nan, _) => false,
            (_, Pos::Nan) => false,
            (Pos::NegInf, _) => true,
            (_, Pos::NegInf) => false,
            (_, Pos::PosInf) => true,
            (Pos::PosInf, _) => false,
            (Pos::Finite(a), Pos::Finite(b)) => a <= b,
        }
    }

    /// Saturating addition; see [`Pos::spec_plus`].
    #[verifier::when_used_as_spec(spec_plus)]
    pub fn plus(self, other: Pos) -> (r: Pos)
        ensures
            r == self.spec_plus(other),
    {
        match (self, other) {
            (Pos::Nan, _) => Pos::Nan,
            (_, Pos::Nan) => Pos::Nan,
            (Pos::NegInf, Pos::PosInf) => Pos::Nan,
            (Pos::PosInf, Pos::NegInf) => Pos::Nan,
            (Pos::NegInf, _) => Pos::NegInf,
            (_, Pos::NegInf) => Pos::NegInf,
            (Pos::PosInf, _) => Pos::PosInf,
            (_, Pos::PosInf) => Pos::PosInf,
            (Pos::Finite(a), Pos::Finite(b)) => {
                let s: i128 = a as i128 + b as i128;
                if s > i64::MAX as i128 {
                    Pos::PosInf
                } else if s < i64::MIN as i128 {
                    Pos::NegInf
                } else {
                    Pos::Finite(s as i64)
                }
            },
        }
    }
}

/// A domain value that projects onto an axis as a scalar position.
///
/// Implemented here for [`Pos`] itself (numbers are their own position)
/// and for [`Timestamp`]; chart users may implement it for their own
/// ordered domain types.
pub trait Position: Sized {
    /// The position of this value, as specification-level data.
    spec fn pos_spec(&self) -> Pos;

    /// Project the value to its scalar position.
    fn position(&self) -> (p: Pos)
        ensures
            p == self.pos_spec(),
    ;
}

impl Position for Pos {
    open spec fn pos_spec(&self) -> Pos {
        *self
    }

    fn position(&self) -> (p: Pos) {
        *self
    }
}

/// Earliest whole second a [`Timestamp`] may hold and still have a finite
/// position in nanoseconds.
pub const MIN_TS_SECS: i64 = -9_223_372_036;

/// Latest whole second a [`Timestamp`] may hold and still have a finite
/// position in nanoseconds.
pub const MAX_TS_SECS: i64 = 9_223_372_035;

/// A point in time: whole seconds since the Unix epoch plus a fractional
/// part in nanoseconds. Its position on an axis is the total count of
/// nanoseconds since the epoch.
///
/// A timestamp whose fields fall outside the representable span (seconds
/// out of `MIN_TS_SECS..=MAX_TS_SECS`, or a fractional part of a whole
/// second or more, as a leap second reads) has no finite position and
/// projects to `Pos::Nan`.
#[derive(Clone, Copy, Debug, PartialEq, Eq, Structural)]
pub struct Timestamp {
    /// Whole seconds since the Unix epoch.
    pub secs: i64,
    /// Nanoseconds past the whole second.
    pub nanos: u32,
}

impl Timestamp {
    /// True when the fields denote a point whose nanosecond count fits
    /// the finite position span.
    pub open spec fn representable(self) -> bool {
        self.nanos < 1_000_000_000 && MIN_TS_SECS <= self.secs <= MAX_TS_SECS
    }

    /// Build a timestamp from its parts.
    pub fn new(secs: i64, nanos: u32) -> (r: Timestamp)
        ensures
            r == (Timestamp { secs, nanos }),
    {
        Timestamp { secs, nanos }
    }
}

impl Position for Timestamp {
    open spec fn pos_spec(&self) -> Pos {
        if self.representable() {
            Pos::Finite((self.secs * 1_000_000_000 + self.nanos) as i64)
        } else {
            Pos::Nan
        }
    }

    fn position(&self) -> (p: Pos) {
        if self.nanos < 1_000_000_000 && MIN_TS_SECS <= self.secs && self.secs <= MAX_TS_SECS {
            let total: i64 = self.secs * 1_000_000_000 + self.nanos as i64;
            Pos::Finite(total)
        } else {
            Pos::Nan
        }
    }
}

} // verus!
