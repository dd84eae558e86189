//! The evaluator: reduces an expression tree to a single runtime value,
//! or fails with a runtime type error naming the operator and the operand
//! kinds it was applied to.
//!
//! Truthiness: only `false` and `nil` are falsy.  Equality is defined over
//! all value pairs, never fails, and discriminates kinds.  Arithmetic and
//! ordering require numbers, except `+`, which also concatenates strings.

use vstd::prelude::*;
use crate::ast::BinOp;
use crate::ast::Expr;
use crate::ast::ExprModel;
use crate::ast::LitModel;
use crate::ast::Literal;
use crate::ast::UnOp;
use crate::number::Number;
use crate::number::NumberModel;
use crate::number::model_wf;
use crate::number::spec_add;
use crate::number::spec_div;
use crate::number::spec_eq;
use crate::number::spec_from_decimal;
use crate::number::spec_le;
use crate::number::spec_lt;
use crate::number::spec_mul;
use crate::number::spec_neg;
use crate::number::spec_sub;

verus! {

/// A runtime value.
#[derive(Debug, PartialEq)]
pub enum Value {
    Nil,
    Number(Number),
    Boolean(bool),
    String(String),
}

pub enum ValueModel {
    Nil,
    Number(NumberModel),
    Boolean(bool),
    Str(Seq<char>),
}

impl View for Value {
    type V = ValueModel;

    open spec fn view(&self) -> ValueModel {
        match self {
            Value::Nil => ValueModel::Nil,
            Value::Number(n) => ValueModel::Number(n@),
            Value::Boolean(b) => ValueModel::Boolean(*b),
            Value::String(s) => ValueModel::Str(s@),
        }
    }
}

pub open spec fn value_wf(v: ValueModel) -> bool {
    v matches ValueModel::Number(n) ==> model_wf(n)
}

/// The kind of a runtime value, as named in runtime type errors.
#[derive(Debug, PartialEq, Eq, Clone, Copy)]
pub enum ValueKind {
    Nil,
    Number,
    Boolean,
    String,
}

pub open spec fn kind_of(v: ValueModel) -> ValueKind {
    match v {
        ValueModel::Nil => ValueKind::Nil,
        ValueModel::Number(..) => ValueKind::Number,
        ValueModel::Boolean(..) => ValueKind::Boolean,
        ValueModel::Str(..) => ValueKind::String,
    }
}

fn value_kind(v: &Value) -> (k: ValueKind)
    ensures
        k == kind_of(v@),
{
    match v {
        Value::Nil => ValueKind::Nil,
        Value::Number(..) => ValueKind::Number,
        Value::Boolean(..) => ValueKind::Boolean,
        Value::String(..) => ValueKind::String,
    }
}

pub open spec fn kind_name(k: ValueKind) -> Seq<char> {
    match k {
        ValueKind::Nil => "nil"@,
        ValueKind::Number => "number"@,
        ValueKind::Boolean => "boolean"@,
        ValueKind::String => "string"@,
    }
}

impl ValueKind {
    /// The kind's name, as used in error messages.
    pub fn render(&self) -> (r: String)
        ensures
            r@ == kind_name(*self),
    {
        match *self {
            ValueKind::Nil => String::from_str("nil"),
            ValueKind::Number => String::from_str("number"),
            ValueKind::Boolean => String::from_str("boolean"),
            ValueKind::String => String::from_str("string"),
        }
    }
}

/// A runtime type error: an operator applied to operand kinds it does not
/// support.
#[derive(Debug, PartialEq, Eq, Clone, Copy)]
pub enum RuntimeError {
    UnaryTypeError { op: UnOp, operand: ValueKind },
    BinaryTypeError { op: BinOp, left: ValueKind, right: ValueKind },
}

pub open spec fn runtime_error_message(e: RuntimeError) -> Seq<char> {
    match e {
        RuntimeError::UnaryTypeError { op, operand } => "unsupported operand for '"@
            + crate::ast::unop_render(op) + "': "@ + kind_name(operand),
        RuntimeError::BinaryTypeError { op, left, right } => "unsupported operands for '"@
            + crate::ast::binop_render(op) + "': "@ + kind_name(left) + " and "@ + kind_name(
            right,
        ),
    }
}

impl RuntimeError {
    /// A human-readable message naming the offending operator and the
    /// operand kinds it was applied to.
    pub fn message(&self) -> (r: String)
        ensures
            r@ == runtime_error_message(*self),
    {
        match *self {
            RuntimeError::UnaryTypeError { op, operand } => {
                let mut r = String::from_str("unsupported operand for '");
                r.append(op.render().as_str());
                r.append("': ");
                r.append(operand.render().as_str());
                r
            },
            RuntimeError::BinaryTypeError { op, left, right } => {
                let mut r = String::from_str("unsupported operands for '");
                r.append(op.render().as_str());
                r.append("': ");
                r.append(left.render().as_str());
                r.append(" and ");
                r.append(right.render().as_str());
                r
            },
        }
    }
}

/// Truthiness: only `false` and `nil` are falsy.
pub open spec fn truthy(v: ValueModel) -> bool {
    !(v == ValueModel::Boolean(false) || v == ValueModel::Nil)
}

/// Equality over values: kinds discriminate, `nil` equals only `nil`,
/// numbers compare by numeric value, strings by content, booleans by truth
/// value.  It is total and never fails.
pub open spec fn val_eq(a: ValueModel, b: ValueModel) -> bool {
    match (a, b) {
        (ValueModel::Nil, ValueModel::Nil) => true,
        (ValueModel::Boolean(x), ValueModel::Boolean(y)) => x == y,
        (ValueModel::Number(m), ValueModel::Number(n)) => spec_eq(m, n),
        (ValueModel::Str(s), ValueModel::Str(t)) => s == t,
        _ => false,
    }
}

/// The value a literal reduces to.
pub open spec fn lit_value(l: LitModel) -> ValueModel {
    match l {
        LitModel::Number(d) => ValueModel::Number(spec_from_decimal(d)),
        LitModel::Str(s) => ValueModel::Str(s),
        LitModel::True => ValueModel::Boolean(true),
        LitModel::False => ValueModel::Boolean(false),
        LitModel::Nil => ValueModel::Nil,
    }
}

/// Applying a unary operator to a value: negation requires a number; `!`
/// applies truthiness and never fails.
pub open spec fn eval_unary_spec(op: UnOp, v: ValueModel) -> Result<ValueModel, RuntimeError> {
    match op {
        UnOp::Minus => match v {
            ValueModel::Number(n) => Ok(ValueModel::Number(spec_neg(n))),
            _ => Err(RuntimeError::UnaryTypeError { op: UnOp::Minus, operand: kind_of(v) }),
        },
        UnOp::Not => Ok(ValueModel::Boolean(!truthy(v))),
    }
}

/// Applying a binary operator to two values.
pub open spec fn eval_binary_spec(op: BinOp, a: ValueModel, b: ValueModel) -> Result<
    ValueModel,
    RuntimeError,
> {
    match op {
        BinOp::Equal => Ok(ValueModel::Boolean(val_eq(a, b))),
        BinOp::NotEqual => Ok(ValueModel::Boolean(!val_eq(a, b))),
        BinOp::Plus => match (a, b) {
            (ValueModel::Number(m), ValueModel::Number(n)) => Ok(ValueModel::Number(spec_add(m, n))),
            (ValueModel::Str(s), ValueModel::Str(t)) => Ok(ValueModel::Str(s + t)),
            _ => Err(RuntimeError::BinaryTypeError {
                op: BinOp::Plus,
                left: kind_of(a),
                right: kind_of(b),
            }),
        },
        BinOp::Minus => match (a, b) {
            (ValueModel::Number(m), ValueModel::Number(n)) => Ok(ValueModel::Number(spec_sub(m, n))),
            _ => Err(RuntimeError::BinaryTypeError {
                op: BinOp::Minus,
                left: kind_of(a),
                right: kind_of(b),
            }),
        },
        BinOp::Mult => match (a, b) {
            (ValueModel::Number(m), ValueModel::Number(n)) => Ok(ValueModel::Number(spec_mul(m, n))),
            _ => Err(RuntimeError::BinaryTypeError {
                op: BinOp::Mult,
                left: kind_of(a),
                right: kind_of(b),
            }),
        },
        BinOp::Div => match (a, b) {
            (ValueModel::Number(m), ValueModel::Number(n)) => Ok(ValueModel::Number(spec_div(m, n))),
            _ => Err(RuntimeError::BinaryTypeError {
                op: BinOp::Div,
                left: kind_of(a),
                right: kind_of(b),
            }),
        },
        BinOp::Lt => match (a, b) {
            (ValueModel::Number(m), ValueModel::Number(n)) => Ok(
                ValueModel::Boolean(spec_lt(m, n)),
            ),
            _ => Err(RuntimeError::BinaryTypeError {
                op: BinOp::Lt,
                left: kind_of(a),
                right: kind_of(b),
            }),
        },
        BinOp::LtEqual => match (a, b) {
            (ValueModel::Number(m), ValueModel::Number(n)) => Ok(
                ValueModel::Boolean(spec_le(m, n)),
            ),
            _ => Err(RuntimeError::BinaryTypeError {
                op: BinOp::LtEqual,
                left: kind_of(a),
                right: kind_of(b),
            }),
        },
        BinOp::Gt => match (a, b) {
            (ValueModel::Number(m), ValueModel::Number(n)) => Ok(
                ValueModel::Boolean(spec_lt(n, m)),
            ),
            _ => Err(RuntimeError::BinaryTypeError {
                op: BinOp::Gt,
                left: kind_of(a),
                right: kind_of(b),
            }),
        },
        BinOp::GtEqual => match (a, b) {
            (ValueModel::Number(m), ValueModel::Number(n)) => Ok(
                ValueModel::Boolean(spec_le(n, m)),
            ),
            _ => Err(RuntimeError::BinaryTypeError {
                op: BinOp::GtEqual,
                left: kind_of(a),
                right: kind_of(b),
            }),
        },
    }
}

/// The value of an expression: literals reduce directly, grouping is
/// transparent, operands evaluate left to right, and the first error stops
/// evaluation.
pub open spec fn eval_spec(e: ExprModel) -> Result<ValueModel, RuntimeError>
    decreases e,
{
    match e {
        ExprModel::Literal(l) => Ok(lit_value(l)),
        ExprModel::Grouping(inner) => eval_spec(*inner),
        ExprModel::Unary(op, inner) => match eval_spec(*inner) {
            Ok(v) => eval_unary_spec(op, v),
            Err(er) => Err(er),
        },
        ExprModel::Binary(op, e1, e2) => match eval_spec(*e1) {
            Ok(v1) => match eval_spec(*e2) {
                Ok(v2) => eval_binary_spec(op, v1, v2),
                Err(er) => Err(er),
            },
            Err(er) => Err(er),
        },
    }
}

/// Grouping is transparent to evaluation: `(e)` evaluates exactly as `e`
/// does, for every expression `e`.
pub proof fn lemma_eval_grouping(e: Box<ExprModel>)
    ensures
        eval_spec(ExprModel::Grouping(e)) == eval_spec(*e),
{
}

/// Equality of values is reflexive: every value equals itself.
pub proof fn lemma_val_eq_reflexive(v: ValueModel)
    ensures
        val_eq(v, v),
        eval_binary_spec(BinOp::Equal, v, v) == Ok::<ValueModel, RuntimeError>(
            ValueModel::Boolean(true),
        ),
{
}

/// Equality of values discriminates kinds: values of different runtime
/// kinds are never equal, with no implicit coercion.
pub proof fn lemma_val_eq_kind_discriminating(a: ValueModel, b: ValueModel)
    requires
        kind_of(a) != kind_of(b),
    ensures
        !val_eq(a, b),
        eval_binary_spec(BinOp::Equal, a, b) == Ok::<ValueModel, RuntimeError>(
            ValueModel::Boolean(false),
        ),
{
}

/// Logical negation applies truthiness and never fails: it yields `true`
/// exactly on the falsy values, `false` and `nil`.
pub proof fn lemma_not_truthiness(v: ValueModel)
    ensures
        eval_unary_spec(UnOp::Not, v) == Ok::<ValueModel, RuntimeError>(
            ValueModel::Boolean(!truthy(v)),
        ),
        truthy(v) <==> !(v == ValueModel::Boolean(false) || v == ValueModel::Nil),
{
}

fn eval_literal(literal: &Literal) -> (v: Value)
    ensures
        v@ == lit_value(literal@),
        value_wf(v@),
{
    match literal {
        Literal::Nil => Value::Nil,
        Literal::True => Value::Boolean(true),
        Literal::False => Value::Boolean(false),
        Literal::Number(d) => Value::Number(Number::from_decimal(d)),
        Literal::String(s) => Value::String(s.clone()),
    }
}

/// Arithmetic negation of a value; anything but a number is a type error.
fn minus(v: &Value) -> (r: Result<Value, RuntimeError>)
    requires
        value_wf(v@),
    ensures
        match r {
            Ok(w) => eval_unary_spec(UnOp::Minus, v@) == Ok::<ValueModel, RuntimeError>(w@)
                && value_wf(w@),
            Err(er) => eval_unary_spec(UnOp::Minus, v@) == Err::<ValueModel, RuntimeError>(er),
        },
{
    match v {
        Value::Number(n) => Ok(Value::Number(n.neg())),
        _ => Err(RuntimeError::UnaryTypeError { op: UnOp::Minus, operand: value_kind(v) }),
    }
}

/// Logical negation by truthiness: `false` and `nil` are falsy, everything
/// else is truthy.
fn negate(v: &Value) -> (r: Value)
    ensures
        r@ == ValueModel::Boolean(!truthy(v@)),
{
    match v {
        Value::Boolean(b) => Value::Boolean(!*b),
        Value::Nil => Value::Boolean(true),
        _ => Value::Boolean(false),
    }
}

fn values_equal(a: &Value, b: &Value) -> (r: bool)
    requires
        value_wf(a@),
        value_wf(b@),
    ensures
        r == val_eq(a@, b@),
{
    match (a, b) {
        (Value::Nil, Value::Nil) => true,
        (Value::Boolean(x), Value::Boolean(y)) => *x == *y,
        (Value::Number(m), Value::Number(n)) => m.num_eq(*n),
        (Value::String(s), Value::String(t)) => *s == *t,
        _ => false,
    }
}

fn eval_unary(op: &UnOp, v: Value) -> (r: Result<Value, RuntimeError>)
    requires
        value_wf(v@),
    ensures
        match r {
            Ok(w) => eval_unary_spec(*op, v@) == Ok::<ValueModel, RuntimeError>(w@) && value_wf(
                w@,
            ),
            Err(er) => eval_unary_spec(*op, v@) == Err::<ValueModel, RuntimeError>(er),
        },
{
    match op {
        UnOp::Minus => minus(&v),
        UnOp::Not => Ok(negate(&v)),
    }
}

fn eval_binary(op: &BinOp, v1: Value, v2: Value) -> (r: Result<Value, RuntimeError>)
    requires
        value_wf(v1@),
        value_wf(v2@),
    ensures
        match r {
            Ok(w) => eval_binary_spec(*op, v1@, v2@) == Ok::<ValueModel, RuntimeError>(w@)
                && value_wf(w@),
            Err(er) => eval_binary_spec(*op, v1@, v2@) == Err::<ValueModel, RuntimeError>(er),
        },
{
    match op {
        BinOp::Equal => Ok(Value::Boolean(values_equal(&v1, &v2))),
        BinOp::NotEqual => Ok(Value::Boolean(!values_equal(&v1, &v2))),
        BinOp::Plus => match (v1, v2) {
            (Value::Number(m), Value::Number(n)) => Ok(Value::Number(m.add(n))),
            (Value::String(s), Value::String(t)) => Ok(Value::String(s.concat(t.as_str()))),
            (x, y) => Err(RuntimeError::BinaryTypeError {
                op: BinOp::Plus,
                left: value_kind(&x),
                right: value_kind(&y),
            }),
        },
        BinOp::Minus => match (v1, v2) {
            (Value::Number(m), Value::Number(n)) => Ok(Value::Number(m.sub(n))),
            (x, y) => Err(RuntimeError::BinaryTypeError {
                op: BinOp::Minus,
                left: value_kind(&x),
                right: value_kind(&y),
            }),
        },
        BinOp::Mult => match (v1, v2) {
            (Value::Number(m), Value::Number(n)) => Ok(Value::Number(m.mul(n))),
            (x, y) => Err(RuntimeError::BinaryTypeError {
                op: BinOp::Mult,
                left: value_kind(&x),
                right: value_kind(&y),
            }),
        },
        BinOp::Div => match (v1, v2) {
            (Value::Number(m), Value::Number(n)) => Ok(Value::Number(m.div(n))),
            (x, y) => Err(RuntimeError::BinaryTypeError {
                op: BinOp::Div,
                left: value_kind(&x),
                right: value_kind(&y),
            }),
        },
        BinOp::Lt => match (v1, v2) {
            (Value::Number(m), Value::Number(n)) => Ok(Value::Boolean(m.num_lt(n))),
            (x, y) => Err(RuntimeError::BinaryTypeError {
                op: BinOp::Lt,
                left: value_kind(&x),
                right: value_kind(&y),
            }),
        },
        BinOp::LtEqual => match (v1, v2) {
            (Value::Number(m), Value::Number(n)) => Ok(Value::Boolean(m.num_le(n))),
            (x, y) => Err(RuntimeError::BinaryTypeError {
                op: BinOp::LtEqual,
                left: value_kind(&x),
                right: value_kind(&y),
            }),
        },
        BinOp::Gt => match (v1, v2) {
            (Value::Number(m), Value::Number(n)) => Ok(Value::Boolean(n.num_lt(m))),
            (x, y) => Err(RuntimeError::BinaryTypeError {
                op: BinOp::Gt,
                left: value_kind(&x),
                right: value_kind(&y),
            }),
        },
        BinOp::GtEqual => match (v1, v2) {
            (Value::Number(m), Value::Number(n)) => Ok(Value::Boolean(n.num_le(m))),
            (x, y) => Err(RuntimeError::BinaryTypeError {
                op: BinOp::GtEqual,
                left: value_kind(&x),
                right: value_kind(&y),
            }),
        },
    }
}

/// Evaluate an expression to a value, or fail with the first runtime type
/// error, evaluating binary operands left first.
pub fn eval(exp: &Expr) -> (r: Result<Value, RuntimeError>)
    ensures
        match r {
            Ok(v) => eval_spec(exp@) == Ok::<ValueModel, RuntimeError>(v@) && value_wf(v@),
            Err(er) => eval_spec(exp@) == Err::<ValueModel, RuntimeError>(er),
        },
    decreases *exp,
{
    match exp {
        Expr::Literal(l) => Ok(eval_literal(l)),
        Expr::Grouping(e) => eval(e),
        Expr::Unary(op, e) => match eval(e) {
            Ok(v) => eval_unary(op, v),
            Err(er) => Err(er),
        },
        Expr::Binary(op, e1, e2) => match eval(e1) {
            Ok(w1) => match eval(e2) {
                Ok(w2) => eval_binary(op, w1, w2),
                Err(er) => Err(er),
            },
            Err(er) => Err(er),
        },
    }
}

} // verus!

