//! Construction, validation, accessors and the named constants.

use interval_arith::{Bound, Interval, IntervalError, IntervalErrorKind};

fn b(n: i64, d: i64) -> Bound {
    Bound::Rat { num: n, den: d }
}

#[test]
fn valid_construction() {
    let x = Interval::try_new(b(1, 1), b(2, 1)).unwrap();
    assert_eq!(x.inf(), Some(b(1, 1)));
    assert_eq!(x.sup(), Some(b(2, 1)));
    assert!(Interval::try_new(Bound::NegInf, Bound::PosInf).is_ok());
    assert!(Interval::try_new(b(1, 1), Bound::PosInf).is_ok());
    assert!(Interval::try_new(Bound::NegInf, b(1, 1)).is_ok());
    assert!(Interval::point(1, 2).unwrap().is_singleton());
}

#[test]
fn rejected_construction() {
    // unordered endpoints
    let r = Interval::try_new(b(2, 1), b(1, 1));
    assert_eq!(r, Err(IntervalError { kind: IntervalErrorKind::UndefinedOperation }));
    assert_eq!(r.unwrap_err().kind(), IntervalErrorKind::UndefinedOperation);
    // endpoints at the wrong infinity
    assert!(Interval::try_new(Bound::PosInf, Bound::PosInf).is_err());
    assert!(Interval::try_new(Bound::NegInf, Bound::NegInf).is_err());
    // malformed rationals
    assert!(Interval::try_new(b(1, 0), b(2, 1)).is_err());
    assert!(Interval::try_new(b(1, -1), b(2, 1)).is_err());
    assert!(Interval::try_new(b(i64::MIN, 1), b(0, 1)).is_err());
}

#[test]
fn empty_accessors() {
    assert_eq!(Interval::empty().inf(), None);
    assert_eq!(Interval::empty().sup(), None);
    assert_eq!(Interval::empty(), Interval::empty());
    assert_ne!(Interval::empty(), Interval::entire());
}

#[test]
fn constants_are_nonempty_enclosures() {
    let cs = [
        Interval::pi(),
        Interval::frac_pi_2(),
        Interval::frac_pi_3(),
        Interval::frac_pi_4(),
        Interval::frac_pi_6(),
        Interval::frac_pi_8(),
        Interval::frac_1_pi(),
        Interval::frac_2_pi(),
        Interval::frac_1_sqrt_2(),
        Interval::frac_2_sqrt_pi(),
        Interval::euler(),
        Interval::ln_2(),
        Interval::ln_10(),
        Interval::log10_2(),
        Interval::log10_e(),
        Interval::log2_10(),
        Interval::log2_e(),
        Interval::sqrt_2(),
        Interval::tau(),
    ];
    for c in cs.iter() {
        assert!(!c.is_empty());
        assert!(c.is_common_interval());
    }
    // pi lies between 3.141592 and 3.141593
    assert!(Interval::pi().subset(Interval::try_new(b(3_141_592, 1_000_000), b(3_141_593, 1_000_000)).unwrap()));
    // tau is enclosed by twice the enclosure of pi
    assert!(Interval::tau().subset(Interval::pi().mul(Interval::point(2, 1).unwrap())));
}

#[test]
fn zero_and_entire() {
    assert!(Interval::entire().is_entire());
    let two = Interval::point(2, 1).unwrap();
    assert_eq!(two.mul(two), Interval::point(4, 1).unwrap());
}
