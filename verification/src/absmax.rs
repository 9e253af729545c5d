//! Absolute value, minimum and maximum of intervals.

use vstd::prelude::*;
use crate::bound::{
    bound_le, bound_wf, lemma_bound_le_trans, lemma_bound_neg_le, lemma_max_bound_ge,
    lemma_min_bound_le, max_bound, min_bound, neg_bound, spec_max_bound, spec_min_bound,
    spec_neg_bound, Bound,
};
use crate::classify::{spec_classify, IntervalClass};
use crate::interval::Interval;

verus! {

/// The absolute value: unchanged for intervals without negative points,
/// mirrored for nonpositive ones, and `[0, max(-lo, hi)]` for intervals
/// straddling zero.
pub open spec fn spec_abs(x: Interval) -> Interval {
    match spec_classify(x) {
        IntervalClass::E | IntervalClass::P0 | IntervalClass::P1 | IntervalClass::Z => x,
        IntervalClass::M => Interval::Bounded {
            lo: Bound::Rat { num: 0, den: 1 },
            hi: spec_max_bound(spec_neg_bound(x.spec_lo()), x.spec_hi()),
        },
        IntervalClass::N0 | IntervalClass::N1 => Interval::Bounded {
            lo: spec_neg_bound(x.spec_hi()),
            hi: spec_neg_bound(x.spec_lo()),
        },
    }
}

/// The per-endpoint maximum of two intervals; an empty operand absorbs.
pub open spec fn spec_max(x: Interval, y: Interval) -> Interval {
    match (x, y) {
        (Interval::Bounded { lo: a, hi: b }, Interval::Bounded { lo: c, hi: d }) => {
            Interval::Bounded { lo: spec_max_bound(a, c), hi: spec_max_bound(b, d) }
        },
        _ => Interval::Empty,
    }
}

/// The per-endpoint minimum of two intervals; an empty operand absorbs.
pub open spec fn spec_min(x: Interval, y: Interval) -> Interval {
    match (x, y) {
        (Interval::Bounded { lo: a, hi: b }, Interval::Bounded { lo: c, hi: d }) => {
            Interval::Bounded { lo: spec_min_bound(a, c), hi: spec_min_bound(b, d) }
        },
        _ => Interval::Empty,
    }
}

impl Interval {
    /// Returns the absolute value of `self`: the set of magnitudes of
    /// its points.
    pub fn abs(self) -> (r: Interval)
        requires
            self.wf(),
        ensures
            r == spec_abs(self),
            r.wf(),
            r is Empty <==> self is Empty,
    {
        proof {
            crate::classify::lemma_class_facts(self);
        }
        match self.classify() {
            IntervalClass::E | IntervalClass::P0 | IntervalClass::P1 | IntervalClass::Z => self,
            IntervalClass::M => {
                match self {
                    Interval::Bounded { lo, hi } => {
                        proof {
                            lemma_max_bound_ge(spec_neg_bound(lo), hi);
                            match hi {
                                Bound::Rat { num, den } => {
                                    crate::bound::lemma_sign(num as int, 1);
                                },
                                _ => {},
                            }
                            lemma_bound_le_trans(
                                Bound::Rat { num: 0, den: 1 },
                                hi,
                                spec_max_bound(spec_neg_bound(lo), hi),
                            );
                        }
                        Interval::Bounded {
                            lo: Bound::Rat { num: 0, den: 1 },
                            hi: max_bound(neg_bound(lo), hi),
                        }
                    },
                    Interval::Empty => Interval::Empty,
                }
            },
            IntervalClass::N0 | IntervalClass::N1 => {
                match self {
                    Interval::Bounded { lo, hi } => {
                        proof {
                            lemma_bound_neg_le(lo, hi);
                        }
                        Interval::Bounded { lo: neg_bound(hi), hi: neg_bound(lo) }
                    },
                    Interval::Empty => Interval::Empty,
                }
            },
        }
    }

    /// Returns the interval of maxima: `[max(a, c), max(b, d)]`; an
    /// empty operand absorbs.
    pub fn max(self, rhs: Interval) -> (r: Interval)
        requires
            self.wf(),
            rhs.wf(),
        ensures
            r == spec_max(self, rhs),
            r.wf(),
            r is Empty <==> (self is Empty || rhs is Empty),
    {
        match (self, rhs) {
            (Interval::Bounded { lo: a, hi: b }, Interval::Bounded { lo: c, hi: d }) => {
                proof {
                    lemma_max_bound_ge(b, d);
                    lemma_bound_le_trans(a, b, spec_max_bound(b, d));
                    lemma_bound_le_trans(c, d, spec_max_bound(b, d));
                }
                Interval::Bounded { lo: max_bound(a, c), hi: max_bound(b, d) }
            },
            _ => Interval::Empty,
        }
    }

    /// Returns the interval of minima: `[min(a, c), min(b, d)]`; an
    /// empty operand absorbs.
    pub fn min(self, rhs: Interval) -> (r: Interval)
        requires
            self.wf(),
            rhs.wf(),
        ensures
            r == spec_min(self, rhs),
            r.wf(),
            r is Empty <==> (self is Empty || rhs is Empty),
    {
        match (self, rhs) {
            (Interval::Bounded { lo: a, hi: b }, Interval::Bounded { lo: c, hi: d }) => {
                proof {
                    lemma_min_bound_le(a, c);
                    lemma_bound_le_trans(spec_min_bound(a, c), a, b);
                    lemma_bound_le_trans(spec_min_bound(a, c), c, d);
                }
                Interval::Bounded { lo: min_bound(a, c), hi: min_bound(b, d) }
            },
            _ => Interval::Empty,
        }
    }
}

} // verus!
