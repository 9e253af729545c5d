//! Rounding to integers and the sign function.

use interval_arith::{Bound, Interval};

fn b(n: i64, d: i64) -> Bound {
    Bound::Rat { num: n, den: d }
}

fn iv(lo: i64, hi: i64) -> Interval {
    Interval::try_new(b(lo, 1), b(hi, 1)).unwrap()
}

fn ivr(ln: i64, ld: i64, hn: i64, hd: i64) -> Interval {
    Interval::try_new(b(ln, ld), b(hn, hd)).unwrap()
}

#[test]
fn ceil() {
    assert_eq!(ivr(1, 5, 6, 5).ceil(), iv(1, 2));
    assert_eq!(ivr(4, 5, 9, 5).ceil(), iv(1, 2));
    assert_eq!(ivr(-6, 5, -1, 5).ceil(), iv(-1, 0));
    assert_eq!(ivr(-9, 5, -4, 5).ceil(), iv(-1, 0));
    assert!(Interval::empty().ceil().is_empty());
    assert_eq!(Interval::entire().ceil(), Interval::entire());
}

#[test]
fn floor() {
    assert_eq!(ivr(1, 5, 6, 5).floor(), iv(0, 1));
    assert_eq!(ivr(4, 5, 9, 5).floor(), iv(0, 1));
    assert_eq!(ivr(-6, 5, -1, 5).floor(), iv(-2, -1));
    assert_eq!(ivr(-9, 5, -4, 5).floor(), iv(-2, -1));
    assert!(Interval::empty().floor().is_empty());
    assert_eq!(Interval::entire().floor(), Interval::entire());
}

#[test]
fn round() {
    assert_eq!(ivr(1, 5, 6, 5).round(), iv(0, 1));
    assert_eq!(ivr(1, 2, 3, 2).round(), iv(1, 2));
    assert_eq!(ivr(4, 5, 9, 5).round(), iv(1, 2));
    assert_eq!(ivr(-6, 5, -1, 5).round(), iv(-1, 0));
    assert_eq!(ivr(-3, 2, -1, 2).round(), iv(-2, -1));
    assert_eq!(ivr(-9, 5, -4, 5).round(), iv(-2, -1));
    assert!(Interval::empty().round().is_empty());
    assert_eq!(Interval::entire().round(), Interval::entire());
}

#[test]
fn round_ties_to_even() {
    assert_eq!(ivr(1, 5, 6, 5).round_ties_to_even(), iv(0, 1));
    assert_eq!(ivr(1, 2, 3, 2).round_ties_to_even(), iv(0, 2));
    assert_eq!(ivr(4, 5, 9, 5).round_ties_to_even(), iv(1, 2));
    assert_eq!(ivr(-6, 5, -1, 5).round_ties_to_even(), iv(-1, 0));
    assert_eq!(ivr(-3, 2, -1, 2).round_ties_to_even(), iv(-2, 0));
    assert_eq!(ivr(-9, 5, -4, 5).round_ties_to_even(), iv(-2, -1));
    // the half below an even integer rounds to it from either side
    assert_eq!(ivr(5, 2, 5, 2).round_ties_to_even(), iv(2, 2));
    assert_eq!(ivr(3, 2, 3, 2).round_ties_to_even(), iv(2, 2));
    assert!(Interval::empty().round_ties_to_even().is_empty());
    assert_eq!(Interval::entire().round_ties_to_even(), Interval::entire());
}

#[test]
fn trunc() {
    assert_eq!(ivr(1, 5, 6, 5).trunc(), iv(0, 1));
    assert_eq!(ivr(4, 5, 9, 5).trunc(), iv(0, 1));
    assert_eq!(ivr(-6, 5, -1, 5).trunc(), iv(-1, 0));
    assert_eq!(ivr(-9, 5, -4, 5).trunc(), iv(-1, 0));
    assert!(Interval::empty().trunc().is_empty());
    assert_eq!(Interval::entire().trunc(), Interval::entire());
}

#[test]
fn sign() {
    // [-10, -0.1], [0, 0], [0.1, 10] and the whole line
    assert_eq!(ivr(-10, 1, -1, 10).sign(), iv(-1, -1));
    assert_eq!(iv(0, 0).sign(), iv(0, 0));
    assert_eq!(ivr(1, 10, 10, 1).sign(), iv(1, 1));
    assert!(Interval::empty().sign().is_empty());
    assert_eq!(Interval::entire().sign(), iv(-1, 1));
    assert_eq!(iv(-2, 0).sign(), iv(-1, -1));
    assert_eq!(iv(0, 2).sign(), iv(1, 1));
}
