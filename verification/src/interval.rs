//! The interval value type, its validity invariant, its errors and its
//! constructors.

use vstd::prelude::*;
use crate::bound::{above, below, bound_eqv, bound_le, bound_wf, eqv, le, Bound};

verus! {

/// The reason a construction was rejected.
#[derive(Clone, Copy, Debug, PartialEq, Eq, Structural)]
pub enum IntervalErrorKind {
    PossiblyUndefinedOperation,
    UndefinedOperation,
}

/// Error returned by the validating constructors.
#[derive(Clone, Copy, Debug, PartialEq, Eq, Structural)]
pub struct IntervalError {
    pub kind: IntervalErrorKind,
}

impl IntervalError {
    /// Returns the type of the error.
    pub fn kind(&self) -> (r: IntervalErrorKind)
        ensures
            r == self.kind,
    {
        self.kind
    }
}

/// A closed set of real numbers: either empty, or all reals between two
/// extended-rational endpoints.
///
/// The `Bounded` variant is this crate's trusted, unchecked constructor:
/// code that builds it directly must itself guarantee `wf`, which asks
/// that both endpoints are well-formed, that `lo <= hi`, and that `lo` is
/// not plus infinity nor `hi` minus infinity.  The validating constructor
/// [`Interval::try_new`] checks all of that and is the entry point for
/// outside callers.
#[derive(Clone, Copy, Debug)]
pub enum Interval {
    Empty,
    Bounded { lo: Bound, hi: Bound },
}

/// Both endpoint pairs denote the same set of reals.
pub open spec fn spec_same(x: Interval, y: Interval) -> bool {
    match (x, y) {
        (Interval::Empty, Interval::Empty) => true,
        (Interval::Bounded { lo: a, hi: b }, Interval::Bounded { lo: c, hi: d }) => bound_eqv(a, c)
            && bound_eqv(b, d),
        _ => false,
    }
}

impl Interval {
    /// Validity of an interval value.
    pub open spec fn wf(self) -> bool {
        match self {
            Interval::Empty => true,
            Interval::Bounded { lo, hi } => {
                &&& bound_wf(lo)
                &&& bound_wf(hi)
                &&& bound_le(lo, hi)
                &&& !(lo is PosInf)
                &&& !(hi is NegInf)
            },
        }
    }

    /// The lower endpoint; the empty set reports the inverted pair
    /// `(+oo, -oo)`.
    pub open spec fn spec_lo(self) -> Bound {
        match self {
            Interval::Empty => Bound::PosInf,
            Interval::Bounded { lo, .. } => lo,
        }
    }

    /// The upper endpoint; the empty set reports the inverted pair
    /// `(+oo, -oo)`.
    pub open spec fn spec_hi(self) -> Bound {
        match self {
            Interval::Empty => Bound::NegInf,
            Interval::Bounded { hi, .. } => hi,
        }
    }

    /// The rational point `p / q` (with `q > 0`) is a member of the set.
    pub open spec fn spec_contains(self, p: int, q: int) -> bool {
        match self {
            Interval::Empty => false,
            Interval::Bounded { lo, hi } => below(lo, p, q) && above(hi, p, q),
        }
    }

    /// A valid endpoint pair: both endpoints well formed and ordered,
    /// with no endpoint at the wrong infinity.
    pub open spec fn spec_valid_pair(lo: Bound, hi: Bound) -> bool {
        &&& bound_wf(lo)
        &&& bound_wf(hi)
        &&& bound_le(lo, hi)
        &&& !(lo is PosInf)
        &&& !(hi is NegInf)
    }

    /// The empty set.
    pub fn empty() -> (r: Interval)
        ensures
            r == Interval::Empty,
            r.wf(),
    {
        Interval::Empty
    }

    /// The whole real line.
    pub fn entire() -> (r: Interval)
        ensures
            r == (Interval::Bounded { lo: Bound::NegInf, hi: Bound::PosInf }),
            r.wf(),
    {
        Interval::Bounded { lo: Bound::NegInf, hi: Bound::PosInf }
    }

    /// The single point zero.
    pub fn zero() -> (r: Interval)
        ensures
            r == (Interval::Bounded {
                lo: Bound::Rat { num: 0, den: 1 },
                hi: Bound::Rat { num: 0, den: 1 },
            }),
            r.wf(),
    {
        Interval::Bounded { lo: Bound::Rat { num: 0, den: 1 }, hi: Bound::Rat { num: 0, den: 1 } }
    }

    /// Tests that an endpoint may serve as a bound: for a rational, that
    /// the denominator is positive and the numerator is not `i64::MIN`.
    fn check_bound_wf(b: Bound) -> (r: bool)
        ensures
            r == bound_wf(b),
    {
        match b {
            Bound::Rat { num, den } => 1 <= den && -0x7fff_ffff_ffff_ffff <= num,
            _ => true,
        }
    }

    /// The validating constructor: builds `[lo, hi]`, rejecting with
    /// `UndefinedOperation` any pair that is malformed, unordered, or has
    /// an endpoint at the wrong infinity.
    pub fn try_new(lo: Bound, hi: Bound) -> (r: Result<Interval, IntervalError>)
        ensures
            Self::spec_valid_pair(lo, hi) ==> r == Ok::<Interval, IntervalError>(
                Interval::Bounded { lo, hi },
            ),
            !Self::spec_valid_pair(lo, hi) ==> r == Err::<Interval, IntervalError>(
                IntervalError { kind: IntervalErrorKind::UndefinedOperation },
            ),
            r is Ok ==> r.unwrap().wf(),
    {
        let ok = Self::check_bound_wf(lo) && Self::check_bound_wf(hi) && le(lo, hi) && !matches!(
            lo,
            Bound::PosInf,
        ) && !matches!(hi, Bound::NegInf);
        if ok {
            Ok(Interval::Bounded { lo, hi })
        } else {
            Err(IntervalError { kind: IntervalErrorKind::UndefinedOperation })
        }
    }

    /// Builds the singleton `[v, v]` from a rational `num / den`.
    pub fn point(num: i64, den: i64) -> (r: Result<Interval, IntervalError>)
        ensures
            Self::spec_valid_pair(Bound::Rat { num, den }, Bound::Rat { num, den }) ==> r == Ok::<
                Interval,
                IntervalError,
            >(Interval::Bounded { lo: Bound::Rat { num, den }, hi: Bound::Rat { num, den } }),
            !Self::spec_valid_pair(Bound::Rat { num, den }, Bound::Rat { num, den }) ==> r == Err::<
                Interval,
                IntervalError,
            >(IntervalError { kind: IntervalErrorKind::UndefinedOperation }),
            r is Ok ==> r.unwrap().wf(),
    {
        Self::try_new(Bound::Rat { num, den }, Bound::Rat { num, den })
    }

    /// The lower endpoint, or `None` for the empty set.
    pub fn inf(self) -> (r: Option<Bound>)
        ensures
            self is Empty ==> r is None,
            !(self is Empty) ==> r == Some(self.spec_lo()),
    {
        match self {
            Interval::Empty => None,
            Interval::Bounded { lo, .. } => Some(lo),
        }
    }

    /// The upper endpoint, or `None` for the empty set.
    pub fn sup(self) -> (r: Option<Bound>)
        ensures
            self is Empty ==> r is None,
            !(self is Empty) ==> r == Some(self.spec_hi()),
    {
        match self {
            Interval::Empty => None,
            Interval::Bounded { hi, .. } => Some(hi),
        }
    }
}

impl PartialEq for Interval {
    /// Set equality: both empty, or the same endpoint values (`1/2`
    /// equals `2/4`).
    ///
    /// The type deliberately has no `Hash` implementation.  Equality is
    /// value equality over unreduced rationals, so intervals built from
    /// different representations of one value compare equal; a derived
    /// hash would tell them apart and break the rule that equal values
    /// hash equal.  A caller who needs hashing should key on a
    /// canonical form of its own making.
    fn eq(&self, other: &Interval) -> (r: bool) {
        match (*self, *other) {
            (Interval::Empty, Interval::Empty) => true,
            (Interval::Bounded { lo: a, hi: b }, Interval::Bounded { lo: c, hi: d }) => eqv(a, c)
                && eqv(b, d),
            _ => false,
        }
    }
}

impl vstd::std_specs::cmp::PartialEqSpecImpl for Interval {
    open spec fn obeys_eq_spec() -> bool {
        true
    }

    open spec fn eq_spec(&self, other: &Interval) -> bool {
        spec_same(*self, *other)
    }
}

impl Eq for Interval {

}

} // verus!
