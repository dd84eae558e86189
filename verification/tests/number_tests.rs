use treewalk::number::{Decimal, Number};

#[test]
fn decimals_normalize_to_reduced_rationals() {
    assert_eq!(Number::from_decimal(&Decimal::new(125, 1)), Number::Finite { num: 25, den: 2 });
    assert_eq!(Number::from_decimal(&Decimal::new(42, 0)), Number::from_int(42));
    assert_eq!(Number::from_decimal(&Decimal::new(0, 5)), Number::Finite { num: 0, den: 1 });
    // Trailing zero fraction digits change nothing.
    assert_eq!(
        Number::from_decimal(&Decimal::new(500, 2)),
        Number::from_int(5)
    );
}

#[test]
fn rational_arithmetic_is_exact_and_reduced() {
    let third = Number::from_int(1).div(Number::from_int(3));
    let sixth = Number::from_int(1).div(Number::from_int(6));
    assert_eq!(third, Number::Finite { num: 1, den: 3 });
    assert_eq!(third.add(sixth), Number::Finite { num: 1, den: 2 });
    assert_eq!(third.sub(sixth), Number::Finite { num: 1, den: 6 });
    assert_eq!(third.mul(Number::from_int(6)), Number::from_int(2));
    assert_eq!(third.div(third), Number::from_int(1));
}

#[test]
fn equality_and_order_use_the_numeric_value() {
    // An unreduced representation still compares by value.
    let raw = Number::Finite { num: 125, den: 10 };
    let reduced = Number::from_decimal(&Decimal::new(125, 1));
    assert!(raw.num_eq(reduced));
    assert!(Number::from_int(3).num_lt(Number::Finite { num: 7, den: 2 }));
    assert!(Number::from_int(3).num_le(Number::from_int(3)));
    assert!(!Number::Nan.num_lt(Number::from_int(1)));
    assert!(Number::Nan.num_eq(Number::Nan));
    assert!(Number::NegInf.num_lt(Number::PosInf));
}

#[test]
fn negation_handles_the_carrier_edges() {
    assert_eq!(Number::from_int(5).neg(), Number::from_int(-5));
    assert_eq!(Number::from_int(-5).neg(), Number::from_int(5));
    assert_eq!(Number::from_int(i64::MIN).neg(), Number::PosInf);
    assert_eq!(Number::PosInf.neg(), Number::NegInf);
    assert_eq!(Number::Nan.neg(), Number::Nan);
}

#[test]
fn division_by_zero_and_infinities() {
    let zero = Number::from_int(0);
    assert_eq!(Number::from_int(7).div(zero), Number::PosInf);
    assert_eq!(Number::from_int(-7).div(zero), Number::NegInf);
    assert_eq!(zero.div(zero), Number::Nan);
    assert_eq!(Number::from_int(7).div(Number::PosInf), zero);
    assert_eq!(Number::PosInf.div(Number::PosInf), Number::Nan);
    assert_eq!(Number::PosInf.mul(zero), Number::Nan);
    assert_eq!(Number::PosInf.add(Number::NegInf), Number::Nan);
}
