//! Every one of the 49 pair classes is exercised for the
//! multiplication and division tables, with a known expected result.

use interval_arith::{Bound, Interval, IntervalClass, IntervalClass2};

fn b(n: i64, d: i64) -> Bound {
    Bound::Rat { num: n, den: d }
}

fn iv(lo: i64, hi: i64) -> Interval {
    Interval::try_new(b(lo, 1), b(hi, 1)).unwrap()
}

fn e() -> Interval {
    Interval::empty()
}

fn z() -> Interval {
    iv(0, 0)
}

fn m() -> Interval {
    iv(-2, 3)
}

fn n0() -> Interval {
    iv(-2, 0)
}

fn n1() -> Interval {
    iv(-3, -1)
}

fn p0() -> Interval {
    iv(0, 2)
}

fn p1() -> Interval {
    iv(1, 4)
}

fn lo_inf(hi_n: i64, hi_d: i64) -> Interval {
    Interval::try_new(Bound::NegInf, b(hi_n, hi_d)).unwrap()
}

fn hi_inf(lo_n: i64, lo_d: i64) -> Interval {
    Interval::try_new(b(lo_n, lo_d), Bound::PosInf).unwrap()
}

#[test]
fn classes_of_representatives() {
    assert_eq!(e().classify(), IntervalClass::E);
    assert_eq!(z().classify(), IntervalClass::Z);
    assert_eq!(m().classify(), IntervalClass::M);
    assert_eq!(n0().classify(), IntervalClass::N0);
    assert_eq!(n1().classify(), IntervalClass::N1);
    assert_eq!(p0().classify(), IntervalClass::P0);
    assert_eq!(p1().classify(), IntervalClass::P1);
    assert_eq!(m().classify2(n1()), IntervalClass2::M_N1);
    assert_eq!(p0().classify2(e()), IntervalClass2::P0_E);
}

#[test]
fn mul_table_empty_operands() {
    let all = [e(), z(), m(), n0(), n1(), p0(), p1()];
    for x in all.iter() {
        assert!(x.mul(e()).is_empty());
        assert!(e().mul(*x).is_empty());
    }
}

#[test]
fn mul_table_zero_operands() {
    for x in [z(), m(), n0(), n1(), p0(), p1()].iter() {
        assert_eq!(x.mul(z()), z());
        assert_eq!(z().mul(*x), z());
    }
}

#[test]
fn mul_table_sign_pairs() {
    assert_eq!(m().mul(m()), iv(-6, 9));
    assert_eq!(m().mul(n0()), iv(-6, 4));
    assert_eq!(m().mul(n1()), iv(-9, 6));
    assert_eq!(m().mul(p0()), iv(-4, 6));
    assert_eq!(m().mul(p1()), iv(-8, 12));
    assert_eq!(n0().mul(m()), iv(-6, 4));
    assert_eq!(n0().mul(n0()), iv(0, 4));
    assert_eq!(n0().mul(n1()), iv(0, 6));
    assert_eq!(n0().mul(p0()), iv(-4, 0));
    assert_eq!(n0().mul(p1()), iv(-8, 0));
    assert_eq!(n1().mul(m()), iv(-9, 6));
    assert_eq!(n1().mul(n0()), iv(0, 6));
    assert_eq!(n1().mul(n1()), iv(1, 9));
    assert_eq!(n1().mul(p0()), iv(-6, 0));
    assert_eq!(n1().mul(p1()), iv(-12, -1));
    assert_eq!(p0().mul(m()), iv(-4, 6));
    assert_eq!(p0().mul(n0()), iv(-4, 0));
    assert_eq!(p0().mul(n1()), iv(-6, 0));
    assert_eq!(p0().mul(p0()), iv(0, 4));
    assert_eq!(p0().mul(p1()), iv(0, 8));
    assert_eq!(p1().mul(m()), iv(-8, 12));
    assert_eq!(p1().mul(n0()), iv(-8, 0));
    assert_eq!(p1().mul(n1()), iv(-12, -1));
    assert_eq!(p1().mul(p0()), iv(0, 8));
    assert_eq!(p1().mul(p1()), iv(1, 16));
}

#[test]
fn div_table_empty_results() {
    let all = [e(), z(), m(), n0(), n1(), p0(), p1()];
    for x in all.iter() {
        assert!(x.div(e()).is_empty());
        assert!(e().div(*x).is_empty());
    }
    for x in [z(), m(), n0(), n1(), p0(), p1()].iter() {
        assert!(x.div(z()).is_empty());
    }
}

#[test]
fn div_table_zero_numerator() {
    for y in [m(), n0(), n1(), p0(), p1()].iter() {
        assert_eq!(z().div(*y), z());
    }
}

#[test]
fn div_table_straddling_divisor() {
    for x in [m(), n0(), n1(), p0(), p1()].iter() {
        assert!(x.div(m()).is_entire());
    }
    // a divisor touching zero beside a straddling numerator also
    // yields the whole line
    assert!(m().div(n0()).is_entire());
    assert!(m().div(p0()).is_entire());
}

#[test]
fn div_table_sign_pairs() {
    assert_eq!(m().div(n1()), iv(-3, 2));
    assert_eq!(m().div(p1()), iv(-2, 3));
    assert_eq!(n0().div(n0()), hi_inf(0, 1));
    assert_eq!(n0().div(n1()), iv(0, 2));
    assert_eq!(n0().div(p0()), lo_inf(0, 1));
    assert_eq!(n0().div(p1()), iv(-2, 0));
    assert_eq!(n1().div(n0()), hi_inf(1, 2));
    assert_eq!(n1().div(n1()), Interval::try_new(b(1, 3), b(3, 1)).unwrap());
    assert_eq!(n1().div(p0()), lo_inf(-1, 2));
    assert_eq!(n1().div(p1()), Interval::try_new(b(-3, 1), b(-1, 4)).unwrap());
    assert_eq!(p0().div(n0()), lo_inf(0, 1));
    assert_eq!(p0().div(n1()), iv(-2, 0));
    assert_eq!(p0().div(p0()), hi_inf(0, 1));
    assert_eq!(p0().div(p1()), iv(0, 2));
    assert_eq!(p1().div(n0()), lo_inf(-1, 2));
    assert_eq!(p1().div(n1()), Interval::try_new(b(-4, 1), b(-1, 3)).unwrap());
    assert_eq!(p1().div(p0()), hi_inf(1, 2));
    assert_eq!(p1().div(p1()), Interval::try_new(b(1, 4), b(4, 1)).unwrap());
}
