//! The abstract syntax tree of expressions, and its canonical rendering:
//! a fully parenthesized prefix form such as `(* (neg 123) (group 45.67))`.

use vstd::prelude::*;
use crate::lexer::TokenType;
use crate::number::Decimal;
use crate::number::DecimalModel;
use crate::number::dec_render;

verus! {

/// A literal expression's payload.
#[derive(Debug, PartialEq)]
pub enum Literal {
    Number(Decimal),
    String(String),
    True,
    False,
    Nil,
}

pub enum LitModel {
    Number(DecimalModel),
    Str(Seq<char>),
    True,
    False,
    Nil,
}

impl View for Literal {
    type V = LitModel;

    open spec fn view(&self) -> LitModel {
        match self {
            Literal::Number(d) => LitModel::Number(d@),
            Literal::String(s) => LitModel::Str(s@),
            Literal::True => LitModel::True,
            Literal::False => LitModel::False,
            Literal::Nil => LitModel::Nil,
        }
    }
}

#[derive(Debug, PartialEq, Eq, Clone, Copy, Structural)]
pub enum UnOp {
    Minus,
    Not,
}

impl UnOp {
    pub open spec fn spec_from_token_type(toktyp: TokenType) -> Option<UnOp> {
        match toktyp {
            TokenType::Minus => Option::Some(UnOp::Minus),
            TokenType::Bang => Option::Some(UnOp::Not),
            _ => Option::None,
        }
    }

    /// The unary operator that a token kind denotes, if any.
    pub fn from_token_type(toktyp: TokenType) -> (r: Option<UnOp>)
        ensures
            r == UnOp::spec_from_token_type(toktyp),
    {
        match toktyp {
            TokenType::Minus => Option::Some(UnOp::Minus),
            TokenType::Bang => Option::Some(UnOp::Not),
            _ => Option::None,
        }
    }
}

#[derive(Debug, PartialEq, Eq, Clone, Copy, Structural)]
pub enum BinOp {
    Equal,
    NotEqual,
    Lt,
    LtEqual,
    Gt,
    GtEqual,
    Plus,
    Minus,
    Mult,
    Div,
}

impl BinOp {
    pub open spec fn spec_from_token_type(toktyp: TokenType) -> Option<BinOp> {
        match toktyp {
            TokenType::EqualEqual => Option::Some(BinOp::Equal),
            TokenType::BangEqual => Option::Some(BinOp::NotEqual),
            TokenType::Less => Option::Some(BinOp::Lt),
            TokenType::LessEqual => Option::Some(BinOp::LtEqual),
            TokenType::Greater => Option::Some(BinOp::Gt),
            TokenType::GreaterEqual => Option::Some(BinOp::GtEqual),
            TokenType::Plus => Option::Some(BinOp::Plus),
            TokenType::Minus => Option::Some(BinOp::Minus),
            TokenType::Slash => Option::Some(BinOp::Div),
            TokenType::Star => Option::Some(BinOp::Mult),
            _ => Option::None,
        }
    }

    /// The binary operator that a token kind denotes, if any.
    pub fn from_token_type(toktyp: TokenType) -> (r: Option<BinOp>)
        ensures
            r == BinOp::spec_from_token_type(toktyp),
    {
        match toktyp {
            TokenType::EqualEqual => Option::Some(BinOp::Equal),
            TokenType::BangEqual => Option::Some(BinOp::NotEqual),
            TokenType::Less => Option::Some(BinOp::Lt),
            TokenType::LessEqual => Option::Some(BinOp::LtEqual),
            TokenType::Greater => Option::Some(BinOp::Gt),
            TokenType::GreaterEqual => Option::Some(BinOp::GtEqual),
            TokenType::Plus => Option::Some(BinOp::Plus),
            TokenType::Minus => Option::Some(BinOp::Minus),
            TokenType::Slash => Option::Some(BinOp::Div),
            TokenType::Star => Option::Some(BinOp::Mult),
            _ => Option::None,
        }
    }
}

/// An expression: a literal, a unary or binary application, or a
/// parenthesized group.  Each node exclusively owns its children.
#[derive(Debug, PartialEq)]
pub enum Expr {
    Literal(Literal),
    Unary(UnOp, Box<Expr>),
    Binary(BinOp, Box<Expr>, Box<Expr>),
    Grouping(Box<Expr>),
}

pub enum ExprModel {
    Literal(LitModel),
    Unary(UnOp, Box<ExprModel>),
    Binary(BinOp, Box<ExprModel>, Box<ExprModel>),
    Grouping(Box<ExprModel>),
}

pub open spec fn expr_view(e: Expr) -> ExprModel
    decreases e,
{
    match e {
        Expr::Literal(l) => ExprModel::Literal(l@),
        Expr::Unary(op, e1) => ExprModel::Unary(op, Box::new(expr_view(*e1))),
        Expr::Binary(op, e1, e2) => ExprModel::Binary(
            op,
            Box::new(expr_view(*e1)),
            Box::new(expr_view(*e2)),
        ),
        Expr::Grouping(e1) => ExprModel::Grouping(Box::new(expr_view(*e1))),
    }
}

impl View for Expr {
    type V = ExprModel;

    open spec fn view(&self) -> ExprModel {
        expr_view(*self)
    }
}

impl Expr {
    pub fn number_literal(n: Decimal) -> (e: Expr)
        ensures
            e@ == ExprModel::Literal(LitModel::Number(n@)),
    {
        Expr::Literal(Literal::Number(n))
    }

    pub fn string_literal(s: &str) -> (e: Expr)
        ensures
            e@ == ExprModel::Literal(LitModel::Str(s@)),
    {
        Expr::Literal(Literal::String(s.to_owned()))
    }

    pub fn true_literal() -> (e: Expr)
        ensures
            e@ == ExprModel::Literal(LitModel::True),
    {
        Expr::Literal(Literal::True)
    }

    pub fn false_literal() -> (e: Expr)
        ensures
            e@ == ExprModel::Literal(LitModel::False),
    {
        Expr::Literal(Literal::False)
    }

    pub fn nil_literal() -> (e: Expr)
        ensures
            e@ == ExprModel::Literal(LitModel::Nil),
    {
        Expr::Literal(Literal::Nil)
    }

    pub fn group(e: Expr) -> (r: Expr)
        ensures
            r@ == ExprModel::Grouping(Box::new(e@)),
    {
        Expr::Grouping(Box::new(e))
    }

    pub fn binary(op: BinOp, e1: Expr, e2: Expr) -> (r: Expr)
        ensures
            r@ == ExprModel::Binary(op, Box::new(e1@), Box::new(e2@)),
    {
        Expr::Binary(op, Box::new(e1), Box::new(e2))
    }

    /// Build a binary node from the operator's token kind; the kind must
    /// denote a binary operator.
    pub fn binary_from_token(op_tok: TokenType, e1: Expr, e2: Expr) -> (r: Expr)
        requires
            BinOp::spec_from_token_type(op_tok) is Some,
        ensures
            r@ == ExprModel::Binary(
                BinOp::spec_from_token_type(op_tok)->Some_0,
                Box::new(e1@),
                Box::new(e2@),
            ),
    {
        match BinOp::from_token_type(op_tok) {
            Option::Some(bop) => Expr::binary(bop, e1, e2),
            Option::None => unreached(),
        }
    }

    pub fn unary(op: UnOp, e: Expr) -> (r: Expr)
        ensures
            r@ == ExprModel::Unary(op, Box::new(e@)),
    {
        Expr::Unary(op, Box::new(e))
    }

    /// Build a unary node from the operator's token kind; the kind must
    /// denote a unary operator.
    pub fn unary_from_token(op_tok: TokenType, e: Expr) -> (r: Expr)
        requires
            UnOp::spec_from_token_type(op_tok) is Some,
        ensures
            r@ == ExprModel::Unary(UnOp::spec_from_token_type(op_tok)->Some_0, Box::new(e@)),
    {
        match UnOp::from_token_type(op_tok) {
            Option::Some(uop) => Expr::unary(uop, e),
            Option::None => unreached(),
        }
    }
}

// ---------------------------------------------------------------------------
// Canonical rendering
// ---------------------------------------------------------------------------

pub open spec fn lit_render(l: LitModel) -> Seq<char> {
    match l {
        LitModel::Number(d) => dec_render(d),
        LitModel::Str(s) => "\""@ + s + "\""@,
        LitModel::True => "true"@,
        LitModel::False => "false"@,
        LitModel::Nil => "nil"@,
    }
}

pub open spec fn unop_render(op: UnOp) -> Seq<char> {
    match op {
        UnOp::Minus => "neg"@,
        UnOp::Not => "not"@,
    }
}

pub open spec fn binop_render(op: BinOp) -> Seq<char> {
    match op {
        BinOp::Equal => "=="@,
        BinOp::NotEqual => "!="@,
        BinOp::Lt => "<"@,
        BinOp::LtEqual => "<="@,
        BinOp::Gt => ">"@,
        BinOp::GtEqual => ">="@,
        BinOp::Plus => "+"@,
        BinOp::Minus => "-"@,
        BinOp::Mult => "*"@,
        BinOp::Div => "/"@,
    }
}

/// The canonical text of an expression: fully parenthesized prefix form.
pub open spec fn expr_render(e: ExprModel) -> Seq<char>
    decreases e,
{
    match e {
        ExprModel::Literal(l) => lit_render(l),
        ExprModel::Unary(op, e1) => "("@ + unop_render(op) + " "@ + expr_render(*e1) + ")"@,
        ExprModel::Binary(op, e1, e2) => "("@ + binop_render(op) + " "@ + expr_render(*e1) + " "@
            + expr_render(*e2) + ")"@,
        ExprModel::Grouping(e1) => "(group "@ + expr_render(*e1) + ")"@,
    }
}

/// The canonical rendering is deterministic and stable across runs: it is a
/// pure function of the tree, so equal trees always render to the same text.
pub proof fn lemma_render_deterministic(a: ExprModel, b: ExprModel)
    requires
        a == b,
    ensures
        expr_render(a) == expr_render(b),
{
}

impl Literal {
    /// The canonical text of this literal.
    pub fn render(&self) -> (r: String)
        ensures
            r@ == lit_render(self@),
    {
        match self {
            Literal::Number(d) => d.render(),
            Literal::String(s) => {
                let mut r = String::from_str("\"");
                r.append(s.as_str());
                r.append("\"");
                r
            },
            Literal::True => String::from_str("true"),
            Literal::False => String::from_str("false"),
            Literal::Nil => String::from_str("nil"),
        }
    }
}

impl UnOp {
    /// The canonical symbol of this operator.
    pub fn render(&self) -> (r: String)
        ensures
            r@ == unop_render(*self),
    {
        match self {
            UnOp::Minus => String::from_str("neg"),
            UnOp::Not => String::from_str("not"),
        }
    }
}

impl BinOp {
    /// The canonical symbol of this operator.
    pub fn render(&self) -> (r: String)
        ensures
            r@ == binop_render(*self),
    {
        match self {
            BinOp::Equal => String::from_str("=="),
            BinOp::NotEqual => String::from_str("!="),
            BinOp::Lt => String::from_str("<"),
            BinOp::LtEqual => String::from_str("<="),
            BinOp::Gt => String::from_str(">"),
            BinOp::GtEqual => String::from_str(">="),
            BinOp::Plus => String::from_str("+"),
            BinOp::Minus => String::from_str("-"),
            BinOp::Mult => String::from_str("*"),
            BinOp::Div => String::from_str("/"),
        }
    }
}

impl Expr {
    /// The canonical text of this expression.
    pub fn render(&self) -> (r: String)
        ensures
            r@ == expr_render(self@),
        decreases *self,
    {
        match self {
            Expr::Literal(l) => l.render(),
            Expr::Unary(op, e1) => {
                let mut r = String::from_str("(");
                r.append(op.render().as_str());
                r.append(" ");
                r.append(e1.render().as_str());
                r.append(")");
                r
            },
            Expr::Binary(op, e1, e2) => {
                let mut r = String::from_str("(");
                r.append(op.render().as_str());
                r.append(" ");
                r.append(e1.render().as_str());
                r.append(" ");
                r.append(e2.render().as_str());
                r.append(")");
                r
            },
            Expr::Grouping(e1) => {
                let mut r = String::from_str("(group ");
                r.append(e1.render().as_str());
                r.append(")");
                r
            },
        }
    }
}

} // verus!
