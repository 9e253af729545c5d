//! The overlap classifier: the sixteen mutually exclusive ways two
//! intervals can relate, the thirteen Allen relations plus three
//! empty-operand states.

use vstd::prelude::*;
use crate::bound::{bound_eqv, bound_le, bound_lt, eqv, le, lt, Bound};
use crate::interval::Interval;

verus! {

/// The sixteen overlap states.  Exactly one holds for any pair of
/// intervals, empty operands included.
#[derive(Clone, Copy, Debug, PartialEq, Eq, Structural)]
pub enum OverlappingState {
    BothEmpty,
    FirstEmpty,
    SecondEmpty,
    Before,
    Meets,
    Overlaps,
    Starts,
    ContainedBy,
    Finishes,
    Equal,
    FinishedBy,
    Contains,
    StartedBy,
    OverlappedBy,
    MetBy,
    After,
}

/// The overlap state of `(x, y)`: a three-way comparison of the upper
/// endpoints first, then of the lower endpoints as needed.
pub open spec fn spec_overlap(x: Interval, y: Interval) -> OverlappingState {
    match (x, y) {
        (Interval::Empty, Interval::Empty) => OverlappingState::BothEmpty,
        (Interval::Empty, _) => OverlappingState::FirstEmpty,
        (_, Interval::Empty) => OverlappingState::SecondEmpty,
        (Interval::Bounded { lo: a, hi: b }, Interval::Bounded { lo: c, hi: d }) => if bound_lt(
            b,
            d,
        ) {
            if bound_lt(a, c) {
                if bound_lt(b, c) {
                    OverlappingState::Before
                } else if bound_eqv(b, c) {
                    OverlappingState::Meets
                } else {
                    OverlappingState::Overlaps
                }
            } else {
                if bound_eqv(a, c) {
                    OverlappingState::Starts
                } else {
                    OverlappingState::ContainedBy
                }
            }
        } else if bound_eqv(b, d) {
            if bound_lt(c, a) {
                OverlappingState::Finishes
            } else if bound_eqv(a, c) {
                OverlappingState::Equal
            } else {
                OverlappingState::FinishedBy
            }
        } else {
            if bound_le(a, c) {
                if bound_lt(a, c) {
                    OverlappingState::Contains
                } else {
                    OverlappingState::StartedBy
                }
            } else {
                if bound_lt(a, d) {
                    OverlappingState::OverlappedBy
                } else if bound_eqv(a, d) {
                    OverlappingState::MetBy
                } else {
                    OverlappingState::After
                }
            }
        },
    }
}

/// The state that holds of the swapped pair, for each state of the
/// original pair.
pub open spec fn spec_overlap_inverse(s: OverlappingState) -> OverlappingState {
    match s {
        OverlappingState::BothEmpty => OverlappingState::BothEmpty,
        OverlappingState::FirstEmpty => OverlappingState::SecondEmpty,
        OverlappingState::SecondEmpty => OverlappingState::FirstEmpty,
        OverlappingState::Before => OverlappingState::After,
        OverlappingState::Meets => OverlappingState::MetBy,
        OverlappingState::Overlaps => OverlappingState::OverlappedBy,
        OverlappingState::Starts => OverlappingState::StartedBy,
        OverlappingState::ContainedBy => OverlappingState::Contains,
        OverlappingState::Finishes => OverlappingState::FinishedBy,
        OverlappingState::Equal => OverlappingState::Equal,
        OverlappingState::FinishedBy => OverlappingState::Finishes,
        OverlappingState::Contains => OverlappingState::ContainedBy,
        OverlappingState::StartedBy => OverlappingState::Starts,
        OverlappingState::OverlappedBy => OverlappingState::Overlaps,
        OverlappingState::MetBy => OverlappingState::Meets,
        OverlappingState::After => OverlappingState::Before,
    }
}

/// Swapping the operands maps each overlap state to its documented
/// inverse: before and after exchange, meets and met-by exchange, and
/// so on, with equality and both-empty their own inverses.
pub proof fn lemma_overlap_swap(x: Interval, y: Interval)
    requires
        x.wf(),
        y.wf(),
    ensures
        spec_overlap(y, x) == spec_overlap_inverse(spec_overlap(x, y)),
{
}

impl Interval {
    /// Returns the overlap state of `self` and `rhs`: which of the
    /// sixteen mutually exclusive relations the two intervals stand in.
    pub fn overlap(self, rhs: Interval) -> (r: OverlappingState)
        requires
            self.wf(),
            rhs.wf(),
        ensures
            r == spec_overlap(self, rhs),
    {
        match (self, rhs) {
            (Interval::Empty, Interval::Empty) => OverlappingState::BothEmpty,
            (Interval::Empty, _) => OverlappingState::FirstEmpty,
            (_, Interval::Empty) => OverlappingState::SecondEmpty,
            (Interval::Bounded { lo: a, hi: b }, Interval::Bounded { lo: c, hi: d }) => {
                if lt(b, d) {
                    if lt(a, c) {
                        if lt(b, c) {
                            OverlappingState::Before
                        } else if eqv(b, c) {
                            OverlappingState::Meets
                        } else {
                            OverlappingState::Overlaps
                        }
                    } else {
                        if eqv(a, c) {
                            OverlappingState::Starts
                        } else {
                            OverlappingState::ContainedBy
                        }
                    }
                } else if eqv(b, d) {
                    if lt(c, a) {
                        OverlappingState::Finishes
                    } else if eqv(a, c) {
                        OverlappingState::Equal
                    } else {
                        OverlappingState::FinishedBy
                    }
                } else {
                    if le(a, c) {
                        if lt(a, c) {
                            OverlappingState::Contains
                        } else {
                            OverlappingState::StartedBy
                        }
                    } else {
                        if lt(a, d) {
                            OverlappingState::OverlappedBy
                        } else if eqv(a, d) {
                            OverlappingState::MetBy
                        } else {
                            OverlappingState::After
                        }
                    }
                }
            },
        }
    }
}

} // verus!
