//! The order and set predicates, their empty-operand rules, and the
//! round-trip laws relating subset, precedence and equality.

use interval_arith::{Bound, Interval};

fn b(n: i64, d: i64) -> Bound {
    Bound::Rat { num: n, den: d }
}

fn iv(lo: i64, hi: i64) -> Interval {
    Interval::try_new(b(lo, 1), b(hi, 1)).unwrap()
}

#[test]
fn contains() {
    assert!(iv(1, 2).contains(b(1, 1)));
    assert!(iv(1, 2).contains(b(3, 2)));
    assert!(!Interval::empty().contains(b(1, 1)));
    assert!(Interval::entire().contains(b(1, 1)));
    assert!(!Interval::entire().contains(Bound::PosInf));
    assert!(!Interval::entire().contains(Bound::NegInf));
}

#[test]
fn disjoint() {
    assert!(iv(1, 2).disjoint(iv(3, 4)));
    assert!(!iv(1, 3).disjoint(iv(3, 4)));
    assert!(!iv(1, 5).disjoint(iv(3, 4)));
    assert!(Interval::empty().disjoint(Interval::empty()));
    assert!(Interval::empty().disjoint(Interval::entire()));
}

#[test]
fn interior() {
    // [1.1, 1.9] is interior to [1, 2]; [1.1, 2] is not
    let inner = Interval::try_new(b(11, 10), b(19, 10)).unwrap();
    let touching = Interval::try_new(b(11, 10), b(2, 1)).unwrap();
    assert!(inner.interior(iv(1, 2)));
    assert!(!touching.interior(iv(1, 2)));
    assert!(Interval::empty().interior(Interval::empty()));
    assert!(Interval::entire().interior(Interval::entire()));
}

#[test]
fn is_common_interval() {
    assert!(iv(1, 2).is_common_interval());
    assert!(!Interval::try_new(b(1, 1), Bound::PosInf).unwrap().is_common_interval());
    assert!(!Interval::empty().is_common_interval());
    assert!(!Interval::entire().is_common_interval());
}

#[test]
fn is_empty() {
    assert!(!iv(1, 1).is_empty());
    assert!(Interval::empty().is_empty());
    assert!(!Interval::entire().is_empty());
}

#[test]
fn is_entire() {
    assert!(!Interval::try_new(b(1, 1), Bound::PosInf).unwrap().is_entire());
    assert!(!Interval::empty().is_entire());
    assert!(Interval::entire().is_entire());
}

#[test]
fn is_singleton() {
    assert!(iv(1, 1).is_singleton());
    assert!(!iv(1, 2).is_singleton());
    assert!(!Interval::empty().is_singleton());
    assert!(!Interval::entire().is_singleton());
    assert!(Interval::try_new(b(1, 2), b(2, 4)).unwrap().is_singleton());
}

#[test]
fn less() {
    assert!(iv(1, 2).less(iv(3, 4)));
    assert!(iv(1, 3).less(iv(2, 4)));
    assert!(iv(1, 4).less(iv(1, 4)));
    assert!(Interval::empty().less(Interval::empty()));
    assert!(!Interval::empty().less(Interval::entire()));
    assert!(!Interval::entire().less(Interval::empty()));
    assert!(Interval::entire().less(Interval::entire()));
}

#[test]
fn precedes() {
    assert!(iv(1, 2).precedes(iv(3, 4)));
    assert!(iv(1, 3).precedes(iv(3, 4)));
    assert!(!iv(1, 3).precedes(iv(2, 4)));
    assert!(Interval::empty().precedes(Interval::empty()));
    assert!(Interval::empty().precedes(Interval::entire()));
    assert!(Interval::entire().precedes(Interval::empty()));
    assert!(!Interval::entire().precedes(Interval::entire()));
}

#[test]
fn strict_less() {
    assert!(iv(1, 2).strict_less(iv(3, 4)));
    assert!(iv(1, 3).strict_less(iv(2, 4)));
    assert!(!iv(1, 4).strict_less(iv(2, 4)));
    let up1 = Interval::try_new(b(1, 1), Bound::PosInf).unwrap();
    let up2 = Interval::try_new(b(2, 1), Bound::PosInf).unwrap();
    assert!(up1.strict_less(up2));
    assert!(Interval::empty().strict_less(Interval::empty()));
    assert!(!Interval::empty().strict_less(Interval::entire()));
    assert!(!Interval::entire().strict_less(Interval::empty()));
    assert!(Interval::entire().strict_less(Interval::entire()));
}

#[test]
fn strict_precedes() {
    assert!(iv(1, 2).strict_precedes(iv(3, 4)));
    assert!(!iv(1, 3).strict_precedes(iv(3, 4)));
    assert!(Interval::empty().strict_precedes(Interval::empty()));
}

#[test]
fn subset() {
    assert!(iv(1, 2).subset(iv(1, 2)));
    assert!(Interval::empty().subset(Interval::empty()));
    assert!(Interval::empty().subset(Interval::entire()));
    assert!(Interval::entire().subset(Interval::entire()));
    assert!(iv(2, 3).subset(iv(1, 4)));
    assert!(!iv(1, 4).subset(iv(2, 3)));
}

#[test]
fn subset_round_trip_matches_equality() {
    let samples = [iv(1, 2), iv(1, 3), iv(-2, 5), Interval::entire(), Interval::empty()];
    for x in samples.iter() {
        for y in samples.iter() {
            assert_eq!(x.subset(*y) && y.subset(*x), x == y);
        }
    }
    // the same set in two representations
    let x = Interval::try_new(b(1, 2), b(3, 1)).unwrap();
    let y = Interval::try_new(b(2, 4), b(9, 3)).unwrap();
    assert!(x.subset(y) && y.subset(x));
    assert_eq!(x, y);
}

#[test]
fn precedes_round_trip() {
    // mutual precedence holds exactly for empty operands or a shared
    // single point
    let e = Interval::empty();
    let pt = iv(2, 2);
    assert!(e.precedes(iv(1, 2)) && iv(1, 2).precedes(e));
    assert!(pt.precedes(pt));
    assert!(!(iv(1, 2).precedes(iv(1, 2)) && iv(1, 2).precedes(iv(1, 2))));
    let a = iv(1, 2);
    let c = iv(2, 3);
    assert!(a.precedes(c));
    assert!(!c.precedes(a));
}
