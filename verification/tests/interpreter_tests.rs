use treewalk::ast::{BinOp, Expr, UnOp};
use treewalk::interpreter::{eval, RuntimeError, Value, ValueKind};
use treewalk::number::{Decimal, Number};
use treewalk::parser::Parser;

fn eval_source(source: &str) -> Result<Value, RuntimeError> {
    let mut parser = Parser::new(source);
    let expr = parser.parse().expect("the source should parse");
    eval(&expr)
}

#[test]
fn literals_reduce_to_their_values() {
    assert_eq!(eval_source("nil").unwrap(), Value::Nil);
    assert_eq!(eval_source("true").unwrap(), Value::Boolean(true));
    assert_eq!(eval_source("false").unwrap(), Value::Boolean(false));
    assert_eq!(eval_source("42").unwrap(), Value::Number(Number::from_int(42)));
    assert_eq!(
        eval_source("\"hi\"").unwrap(),
        Value::String("hi".to_string())
    );
}

#[test]
fn precedence_expression_evaluates_to_297() {
    assert_eq!(
        eval_source("3 + 7 * (48 - 6)").unwrap(),
        Value::Number(Number::from_int(297))
    );
}

#[test]
fn grouping_is_transparent() {
    let inner = Expr::binary(
        BinOp::Plus,
        Expr::number_literal(Decimal::new(1, 0)),
        Expr::number_literal(Decimal::new(2, 0)),
    );
    let grouped = Expr::group(Expr::binary(
        BinOp::Plus,
        Expr::number_literal(Decimal::new(1, 0)),
        Expr::number_literal(Decimal::new(2, 0)),
    ));
    assert_eq!(eval(&grouped), eval(&inner));
    assert_eq!(eval(&grouped).unwrap(), Value::Number(Number::from_int(3)));
}

#[test]
fn truthiness_only_false_and_nil_are_falsy() {
    assert_eq!(eval_source("!false").unwrap(), Value::Boolean(true));
    assert_eq!(eval_source("!nil").unwrap(), Value::Boolean(true));
    assert_eq!(eval_source("!0").unwrap(), Value::Boolean(false));
    assert_eq!(eval_source("!\"\"").unwrap(), Value::Boolean(false));
    assert_eq!(eval_source("!true").unwrap(), Value::Boolean(false));
    assert_eq!(eval_source("!!nil").unwrap(), Value::Boolean(false));
}

#[test]
fn equality_is_reflexive_and_kind_discriminating() {
    assert_eq!(eval_source("nil == nil").unwrap(), Value::Boolean(true));
    assert_eq!(eval_source("0 == \"0\"").unwrap(), Value::Boolean(false));
    assert_eq!(eval_source("1 == 1").unwrap(), Value::Boolean(true));
    assert_eq!(eval_source("1 == 2").unwrap(), Value::Boolean(false));
    assert_eq!(eval_source("\"a\" == \"a\"").unwrap(), Value::Boolean(true));
    assert_eq!(eval_source("\"a\" == \"b\"").unwrap(), Value::Boolean(false));
    assert_eq!(eval_source("true == true").unwrap(), Value::Boolean(true));
    assert_eq!(eval_source("true == nil").unwrap(), Value::Boolean(false));
    assert_eq!(eval_source("1 != 2").unwrap(), Value::Boolean(true));
    // Equal numeric values compare equal whatever their written form.
    assert_eq!(eval_source("0.50 == 0.5").unwrap(), Value::Boolean(true));
}

#[test]
fn arithmetic_is_exact_on_decimals() {
    assert_eq!(
        eval_source("0.5 + 0.5").unwrap(),
        Value::Number(Number::from_int(1))
    );
    assert_eq!(
        eval_source("12.5 - 0.5").unwrap(),
        Value::Number(Number::from_int(12))
    );
    assert_eq!(
        eval_source("1.5 * 4").unwrap(),
        Value::Number(Number::from_int(6))
    );
    assert_eq!(
        eval_source("48 / 6").unwrap(),
        Value::Number(Number::from_int(8))
    );
    assert_eq!(
        eval_source("1 / 2").unwrap(),
        Value::Number(Number::Finite { num: 1, den: 2 })
    );
    assert_eq!(
        eval_source("0 - 3").unwrap(),
        Value::Number(Number::from_int(-3))
    );
}

#[test]
fn unary_minus_negates_numbers() {
    assert_eq!(eval_source("-42").unwrap(), Value::Number(Number::from_int(-42)));
    assert_eq!(eval_source("--42").unwrap(), Value::Number(Number::from_int(42)));
    assert_eq!(
        eval_source("-nil"),
        Err(RuntimeError::UnaryTypeError { op: UnOp::Minus, operand: ValueKind::Nil })
    );
}

#[test]
fn division_by_zero_follows_the_infinity_rules() {
    assert_eq!(eval_source("1 / 0").unwrap(), Value::Number(Number::PosInf));
    assert_eq!(eval_source("(0 - 1) / 0").unwrap(), Value::Number(Number::NegInf));
    assert_eq!(eval_source("0 / 0").unwrap(), Value::Number(Number::Nan));
}

#[test]
fn plus_concatenates_strings_but_never_mixes() {
    assert_eq!(
        eval_source("\"ab\" + \"cd\"").unwrap(),
        Value::String("abcd".to_string())
    );
    assert_eq!(
        eval_source("1 + \"x\""),
        Err(RuntimeError::BinaryTypeError {
            op: BinOp::Plus,
            left: ValueKind::Number,
            right: ValueKind::String,
        })
    );
    assert_eq!(
        eval_source("\"x\" + 1"),
        Err(RuntimeError::BinaryTypeError {
            op: BinOp::Plus,
            left: ValueKind::String,
            right: ValueKind::Number,
        })
    );
}

#[test]
fn comparisons_require_numbers() {
    assert_eq!(eval_source("1 < 2").unwrap(), Value::Boolean(true));
    assert_eq!(eval_source("2 <= 2").unwrap(), Value::Boolean(true));
    assert_eq!(eval_source("3 > 4").unwrap(), Value::Boolean(false));
    assert_eq!(eval_source("4 >= 4.0").unwrap(), Value::Boolean(true));
    assert_eq!(eval_source("0.5 < 0.75").unwrap(), Value::Boolean(true));
    assert_eq!(
        eval_source("\"a\" < \"b\""),
        Err(RuntimeError::BinaryTypeError {
            op: BinOp::Lt,
            left: ValueKind::String,
            right: ValueKind::String,
        })
    );
}

#[test]
fn arithmetic_type_errors_name_the_operands() {
    assert_eq!(
        eval_source("nil - 1"),
        Err(RuntimeError::BinaryTypeError {
            op: BinOp::Minus,
            left: ValueKind::Nil,
            right: ValueKind::Number,
        })
    );
    assert_eq!(
        eval_source("true * 2"),
        Err(RuntimeError::BinaryTypeError {
            op: BinOp::Mult,
            left: ValueKind::Boolean,
            right: ValueKind::Number,
        })
    );
    assert_eq!(
        eval_source("\"a\" / 2"),
        Err(RuntimeError::BinaryTypeError {
            op: BinOp::Div,
            left: ValueKind::String,
            right: ValueKind::Number,
        })
    );
}

#[test]
fn exact_decimals_have_no_rounding_drift() {
    // Unlike binary floating point, tenths add exactly.
    assert_eq!(eval_source("0.1 + 0.2 == 0.3").unwrap(), Value::Boolean(true));
    assert_eq!(eval_source("4.0 == 4").unwrap(), Value::Boolean(true));
}

#[test]
fn magnitudes_beyond_the_carriers_become_infinities() {
    // One above the largest representable integer magnitude.
    assert_eq!(
        eval_source("9223372036854775808").unwrap(),
        Value::Number(Number::PosInf)
    );
    assert_eq!(
        eval_source("9223372036854775807 * 9223372036854775807").unwrap(),
        Value::Number(Number::PosInf)
    );
    assert_eq!(
        eval_source("0 - 9223372036854775807 * 9223372036854775807").unwrap(),
        Value::Number(Number::NegInf)
    );
}

#[test]
fn special_values_propagate_like_ieee_ones() {
    assert_eq!(eval_source("1 / 0 + 5").unwrap(), Value::Number(Number::PosInf));
    assert_eq!(eval_source("1 / 0 - 1 / 0").unwrap(), Value::Number(Number::Nan));
    assert_eq!(eval_source("0 / 0 + 1").unwrap(), Value::Number(Number::Nan));
    assert_eq!(eval_source("1 / (1 / 0)").unwrap(), Value::Number(Number::from_int(0)));
    // Ordering against not-a-number is always false; equality is total.
    assert_eq!(eval_source("0 / 0 < 1").unwrap(), Value::Boolean(false));
    assert_eq!(eval_source("0 / 0 >= 1").unwrap(), Value::Boolean(false));
    assert_eq!(eval_source("0 / 0 == 0 / 0").unwrap(), Value::Boolean(true));
    assert_eq!(eval_source("1 / 0 > 9999").unwrap(), Value::Boolean(true));
}

#[test]
fn runtime_errors_carry_readable_messages() {
    let err = eval_source("nil - 1").unwrap_err();
    assert_eq!(err.message(), "unsupported operands for '-': nil and number");
    let err = eval_source("-true").unwrap_err();
    assert_eq!(err.message(), "unsupported operand for 'neg': boolean");
}

#[test]
fn left_operand_fails_first() {
    // Both operands are bad; the error reports the one evaluated first.
    assert_eq!(
        eval_source("-\"a\" + -\"b\""),
        Err(RuntimeError::UnaryTypeError { op: UnOp::Minus, operand: ValueKind::String })
    );
}
