//! Absolute value, minimum, maximum, convex hull and intersection.

use interval_arith::{Bound, Interval};

fn b(n: i64, d: i64) -> Bound {
    Bound::Rat { num: n, den: d }
}

fn iv(lo: i64, hi: i64) -> Interval {
    Interval::try_new(b(lo, 1), b(hi, 1)).unwrap()
}

#[test]
fn absmax_empty() {
    let e = Interval::empty();
    let pi = Interval::pi();

    assert!(e.abs().is_empty());

    assert!(e.max(pi).is_empty());
    assert!(pi.max(e).is_empty());

    assert!(e.min(pi).is_empty());
    assert!(pi.min(e).is_empty());
}

#[test]
fn abs_cases() {
    assert_eq!(iv(1, 3).abs(), iv(1, 3));
    assert_eq!(iv(-3, -1).abs(), iv(1, 3));
    assert_eq!(iv(-2, 3).abs(), iv(0, 3));
    assert_eq!(iv(-3, 2).abs(), iv(0, 3));
    assert_eq!(iv(0, 0).abs(), iv(0, 0));
    assert_eq!(Interval::entire().abs(), Interval::try_new(b(0, 1), Bound::PosInf).unwrap());
}

#[test]
fn min_max_cases() {
    assert_eq!(iv(1, 2).max(iv(3, 4)), iv(3, 4));
    assert_eq!(iv(1, 4).max(iv(2, 3)), iv(2, 4));
    assert_eq!(iv(1, 2).min(iv(3, 4)), iv(1, 2));
    assert_eq!(iv(1, 4).min(iv(2, 3)), iv(1, 3));
}

#[test]
fn set_op_empty() {
    let e = Interval::empty();
    let pi = Interval::pi();

    assert_eq!(e.convex_hull(pi), pi);
    assert_eq!(pi.convex_hull(e), pi);

    assert!(e.intersection(pi).is_empty());
    assert!(pi.intersection(e).is_empty());
}

#[test]
fn hull_and_intersection() {
    assert_eq!(iv(1, 2).convex_hull(iv(4, 5)), iv(1, 5));
    assert_eq!(iv(1, 3).intersection(iv(2, 5)), iv(2, 3));
    assert!(iv(1, 2).intersection(iv(3, 4)).is_empty());
    assert_eq!(iv(1, 2).intersection(iv(2, 4)), iv(2, 2));
    assert_eq!(Interval::entire().intersection(iv(1, 2)), iv(1, 2));
}
