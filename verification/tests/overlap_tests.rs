//! Each of the sixteen overlap states is reached, and swapping the
//! operands maps every state to its documented inverse.

use interval_arith::{Bound, Interval, OverlappingState};

fn b(n: i64, d: i64) -> Bound {
    Bound::Rat { num: n, den: d }
}

fn iv(lo: i64, hi: i64) -> Interval {
    Interval::try_new(b(lo, 1), b(hi, 1)).unwrap()
}

fn inverse(s: OverlappingState) -> OverlappingState {
    match s {
        OverlappingState::BothEmpty => OverlappingState::BothEmpty,
        OverlappingState::FirstEmpty => OverlappingState::SecondEmpty,
        OverlappingState::SecondEmpty => OverlappingState::FirstEmpty,
        OverlappingState::Before => OverlappingState::After,
        OverlappingState::Meets => OverlappingState::MetBy,
        OverlappingState::Overlaps => OverlappingState::OverlappedBy,
        OverlappingState::Starts => OverlappingState::StartedBy,
        OverlappingState::ContainedBy => OverlappingState::Contains,
        OverlappingState::Finishes => OverlappingState::FinishedBy,
        OverlappingState::Equal => OverlappingState::Equal,
        OverlappingState::FinishedBy => OverlappingState::Finishes,
        OverlappingState::Contains => OverlappingState::ContainedBy,
        OverlappingState::StartedBy => OverlappingState::Starts,
        OverlappingState::OverlappedBy => OverlappingState::Overlaps,
        OverlappingState::MetBy => OverlappingState::Meets,
        OverlappingState::After => OverlappingState::Before,
    }
}

#[test]
fn all_sixteen_states() {
    let e = Interval::empty();
    assert_eq!(e.overlap(e), OverlappingState::BothEmpty);
    assert_eq!(e.overlap(iv(1, 2)), OverlappingState::FirstEmpty);
    assert_eq!(iv(1, 2).overlap(e), OverlappingState::SecondEmpty);
    assert_eq!(iv(1, 2).overlap(iv(3, 4)), OverlappingState::Before);
    assert_eq!(iv(1, 2).overlap(iv(2, 4)), OverlappingState::Meets);
    assert_eq!(iv(1, 3).overlap(iv(2, 4)), OverlappingState::Overlaps);
    assert_eq!(iv(1, 2).overlap(iv(1, 4)), OverlappingState::Starts);
    assert_eq!(iv(2, 3).overlap(iv(1, 4)), OverlappingState::ContainedBy);
    assert_eq!(iv(2, 4).overlap(iv(1, 4)), OverlappingState::Finishes);
    assert_eq!(iv(1, 2).overlap(iv(1, 2)), OverlappingState::Equal);
    assert_eq!(iv(1, 4).overlap(iv(2, 4)), OverlappingState::FinishedBy);
    assert_eq!(iv(1, 4).overlap(iv(2, 3)), OverlappingState::Contains);
    assert_eq!(iv(1, 4).overlap(iv(1, 2)), OverlappingState::StartedBy);
    assert_eq!(iv(2, 4).overlap(iv(1, 3)), OverlappingState::OverlappedBy);
    assert_eq!(iv(2, 4).overlap(iv(1, 2)), OverlappingState::MetBy);
    assert_eq!(iv(3, 4).overlap(iv(1, 2)), OverlappingState::After);
}

#[test]
fn swapping_gives_the_inverse_state() {
    let e = Interval::empty();
    let samples = [
        (e, e),
        (e, iv(1, 2)),
        (iv(1, 2), e),
        (iv(1, 2), iv(3, 4)),
        (iv(1, 2), iv(2, 4)),
        (iv(1, 3), iv(2, 4)),
        (iv(1, 2), iv(1, 4)),
        (iv(2, 3), iv(1, 4)),
        (iv(2, 4), iv(1, 4)),
        (iv(1, 2), iv(1, 2)),
        (iv(1, 4), iv(2, 4)),
        (iv(1, 4), iv(2, 3)),
        (iv(1, 4), iv(1, 2)),
        (iv(2, 4), iv(1, 3)),
        (iv(2, 4), iv(1, 2)),
        (iv(3, 4), iv(1, 2)),
        (Interval::entire(), iv(0, 1)),
        (Interval::entire(), Interval::entire()),
    ];
    for (x, y) in samples.iter() {
        assert_eq!(y.overlap(*x), inverse(x.overlap(*y)));
    }
}

#[test]
fn unbounded_operands() {
    assert_eq!(
        Interval::entire().overlap(Interval::entire()),
        OverlappingState::Equal
    );
    let left = Interval::try_new(Bound::NegInf, b(0, 1)).unwrap();
    let right = Interval::try_new(b(1, 1), Bound::PosInf).unwrap();
    assert_eq!(left.overlap(right), OverlappingState::Before);
    assert_eq!(right.overlap(left), OverlappingState::After);
}
