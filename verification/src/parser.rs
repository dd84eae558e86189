//! The parser: recursive descent over the scanner's token sequence,
//! producing one root expression.
//!
//! The grammar is specified by a family of spec functions (`ps_primary`
//! through `ps_parse`), one per precedence level, over the token models;
//! each executable method is proved to return exactly what its spec level
//! gives.  Binary levels fold left-associatively; unary recurses on itself;
//! `parse` requires end-of-stream after the root expression.
//!
//! Each fold continues only while the position strictly advanced and stays
//! in bounds, which keeps every recursion measure evident; a successful
//! sub-parse always consumes at least one token, so the guards never bite
//! at run time, and the executable methods test the same guards.

use vstd::prelude::*;
use crate::ast::BinOp;
use crate::ast::Expr;
use crate::ast::ExprModel;
use crate::ast::LitModel;
use crate::ast::UnOp;
use crate::lexer::LiteralModel;
use crate::lexer::Scanner;
use crate::lexer::Token;
use crate::lexer::TokenModel;
use crate::lexer::TokenType;
use crate::lexer::tok_views;

verus! {

/// A syntax error: what was missing, and the line of the offending token.
#[derive(Debug, PartialEq, Eq, Clone, Copy)]
pub enum ParseError {
    /// A position where a literal, a unary operator or `(` was expected
    /// held something else.
    ExpectedExpression { line: usize },
    /// A parenthesized expression was not closed.
    ExpectedRightParen { line: usize },
    /// Tokens were left over after the root expression.
    ExpectedEof { line: usize },
    /// A number or string token carried no matching payload; the scanner
    /// never produces such a token.
    InvalidLiteral { line: usize },
}

pub enum ParseErrorModel {
    ExpectedExpression { line: int },
    ExpectedRightParen { line: int },
    ExpectedEof { line: int },
    InvalidLiteral { line: int },
}

impl View for ParseError {
    type V = ParseErrorModel;

    open spec fn view(&self) -> ParseErrorModel {
        match *self {
            ParseError::ExpectedExpression { line } => ParseErrorModel::ExpectedExpression { line: line as int },
            ParseError::ExpectedRightParen { line } => ParseErrorModel::ExpectedRightParen { line: line as int },
            ParseError::ExpectedEof { line } => ParseErrorModel::ExpectedEof { line: line as int },
            ParseError::InvalidLiteral { line } => ParseErrorModel::InvalidLiteral { line: line as int },
        }
    }
}

impl ParseError {
    /// The line the error was raised on.
    pub fn line(&self) -> (r: usize)
        ensures
            r as int == match self@ {
                ParseErrorModel::ExpectedExpression { line } => line,
                ParseErrorModel::ExpectedRightParen { line } => line,
                ParseErrorModel::ExpectedEof { line } => line,
                ParseErrorModel::InvalidLiteral { line } => line,
            },
    {
        match *self {
            ParseError::ExpectedExpression { line } => line,
            ParseError::ExpectedRightParen { line } => line,
            ParseError::ExpectedEof { line } => line,
            ParseError::InvalidLiteral { line } => line,
        }
    }

    /// A human-readable message for the error.
    pub fn message(&self) -> (r: String)
        ensures
            r@ == match self@ {
                ParseErrorModel::ExpectedExpression { .. } => "Expected expression"@,
                ParseErrorModel::ExpectedRightParen { .. } => "Expect ')' after expression"@,
                ParseErrorModel::ExpectedEof { .. } => "Expect end of expression"@,
                ParseErrorModel::InvalidLiteral { .. } => "Invalid value for token"@,
            },
    {
        match *self {
            ParseError::ExpectedExpression { .. } => String::from_str("Expected expression"),
            ParseError::ExpectedRightParen { .. } => String::from_str("Expect ')' after expression"),
            ParseError::ExpectedEof { .. } => String::from_str("Expect end of expression"),
            ParseError::InvalidLiteral { .. } => String::from_str("Invalid value for token"),
        }
    }
}

// ---------------------------------------------------------------------------
// The grammar, as spec functions over token models
// ---------------------------------------------------------------------------

/// Past the last token, or at the end-of-stream token.
pub open spec fn at_end(toks: Seq<TokenModel>, i: int) -> bool {
    i >= toks.len() || toks[i].tok_type == TokenType::Eof
}

/// The current token has the given kind (never true of end-of-stream).
pub open spec fn pk_is(toks: Seq<TokenModel>, i: int, typ: TokenType) -> bool {
    !at_end(toks, i) && toks[i].tok_type == typ
}

/// The line reported for errors at this position: the current token's line,
/// or the last token's when past the end.
pub open spec fn peek_line(toks: Seq<TokenModel>, i: int) -> int
    recommends
        toks.len() >= 1,
{
    if at_end(toks, i) {
        toks[toks.len() - 1].line
    } else {
        toks[i].line
    }
}

/// primary := `false` | `true` | `nil` | number | string | `(` expression `)`
pub open spec fn ps_primary(toks: Seq<TokenModel>, i: int) -> Result<(ExprModel, int), ParseErrorModel>
    decreases toks.len() - i, 0int,
{
    if pk_is(toks, i, TokenType::False) {
        Ok((ExprModel::Literal(LitModel::False), i + 1))
    } else if pk_is(toks, i, TokenType::True) {
        Ok((ExprModel::Literal(LitModel::True), i + 1))
    } else if pk_is(toks, i, TokenType::Nil) {
        Ok((ExprModel::Literal(LitModel::Nil), i + 1))
    } else if pk_is(toks, i, TokenType::Number) {
        match toks[i].literal {
            Option::Some(LiteralModel::Number(d)) => Ok(
                (ExprModel::Literal(LitModel::Number(d)), i + 1),
            ),
            _ => Err(ParseErrorModel::InvalidLiteral { line: toks[i].line }),
        }
    } else if pk_is(toks, i, TokenType::String) {
        match toks[i].literal {
            Option::Some(LiteralModel::Str(s)) => Ok((ExprModel::Literal(LitModel::Str(s)), i + 1)),
            _ => Err(ParseErrorModel::InvalidLiteral { line: toks[i].line }),
        }
    } else if pk_is(toks, i, TokenType::LeftParen) {
        match ps_expression(toks, i + 1) {
            Ok((e, j)) => if pk_is(toks, j, TokenType::RightParen) {
                Ok((ExprModel::Grouping(Box::new(e)), j + 1))
            } else {
                Err(ParseErrorModel::ExpectedRightParen { line: peek_line(toks, j) })
            },
            Err(pe) => Err(pe),
        }
    } else {
        Err(ParseErrorModel::ExpectedExpression { line: peek_line(toks, i) })
    }
}

/// unary := (`!` | `-`) unary | primary
pub open spec fn ps_unary(toks: Seq<TokenModel>, i: int) -> Result<(ExprModel, int), ParseErrorModel>
    decreases toks.len() - i, 1int,
{
    if pk_is(toks, i, TokenType::Bang) || pk_is(toks, i, TokenType::Minus) {
        let op = if toks[i].tok_type == TokenType::Bang {
            UnOp::Not
        } else {
            UnOp::Minus
        };
        match ps_unary(toks, i + 1) {
            Ok((e, j)) => Ok((ExprModel::Unary(op, Box::new(e)), j)),
            Err(pe) => Err(pe),
        }
    } else {
        ps_primary(toks, i)
    }
}

/// The left fold of `factor`: while the current token is `/` or `*`,
/// consume it and fold a binary node around the accumulator.
pub open spec fn ps_factor_tail(toks: Seq<TokenModel>, i: int, acc: ExprModel) -> Result<
    (ExprModel, int),
    ParseErrorModel,
>
    decreases toks.len() - i, 9int,
{
    if pk_is(toks, i, TokenType::Slash) || pk_is(toks, i, TokenType::Star) {
        let op = if toks[i].tok_type == TokenType::Slash {
            BinOp::Div
        } else {
            BinOp::Mult
        };
        match ps_unary(toks, i + 1) {
            Ok((r, j)) => {
                let folded = ExprModel::Binary(op, Box::new(acc), Box::new(r));
                if i < j <= toks.len() {
                    ps_factor_tail(toks, j, folded)
                } else {
                    Ok((folded, j))
                }
            },
            Err(pe) => Err(pe),
        }
    } else {
        Ok((acc, i))
    }
}

/// factor := unary ((`/` | `*`) unary)*
pub open spec fn ps_factor(toks: Seq<TokenModel>, i: int) -> Result<(ExprModel, int), ParseErrorModel>
    decreases toks.len() - i, 2int,
{
    match ps_unary(toks, i) {
        Ok((e, j)) => if i < j <= toks.len() {
            ps_factor_tail(toks, j, e)
        } else {
            Ok((e, j))
        },
        Err(pe) => Err(pe),
    }
}

/// The left fold of `term`: while the current token is `+` or `-`.
pub open spec fn ps_term_tail(toks: Seq<TokenModel>, i: int, acc: ExprModel) -> Result<
    (ExprModel, int),
    ParseErrorModel,
>
    decreases toks.len() - i, 9int,
{
    if pk_is(toks, i, TokenType::Plus) || pk_is(toks, i, TokenType::Minus) {
        let op = if toks[i].tok_type == TokenType::Plus {
            BinOp::Plus
        } else {
            BinOp::Minus
        };
        match ps_factor(toks, i + 1) {
            Ok((r, j)) => {
                let folded = ExprModel::Binary(op, Box::new(acc), Box::new(r));
                if i < j <= toks.len() {
                    ps_term_tail(toks, j, folded)
                } else {
                    Ok((folded, j))
                }
            },
            Err(pe) => Err(pe),
        }
    } else {
        Ok((acc, i))
    }
}

/// term := factor ((`+` | `-`) factor)*
pub open spec fn ps_term(toks: Seq<TokenModel>, i: int) -> Result<(ExprModel, int), ParseErrorModel>
    decreases toks.len() - i, 3int,
{
    match ps_factor(toks, i) {
        Ok((e, j)) => if i < j <= toks.len() {
            ps_term_tail(toks, j, e)
        } else {
            Ok((e, j))
        },
        Err(pe) => Err(pe),
    }
}

/// The left fold of `comparison`.
pub open spec fn ps_cmp_tail(toks: Seq<TokenModel>, i: int, acc: ExprModel) -> Result<
    (ExprModel, int),
    ParseErrorModel,
>
    decreases toks.len() - i, 9int,
{
    if pk_is(toks, i, TokenType::Greater) || pk_is(toks, i, TokenType::GreaterEqual) || pk_is(
        toks,
        i,
        TokenType::Less,
    ) || pk_is(toks, i, TokenType::LessEqual) {
        let op = if toks[i].tok_type == TokenType::Greater {
            BinOp::Gt
        } else if toks[i].tok_type == TokenType::GreaterEqual {
            BinOp::GtEqual
        } else if toks[i].tok_type == TokenType::Less {
            BinOp::Lt
        } else {
            BinOp::LtEqual
        };
        match ps_term(toks, i + 1) {
            Ok((r, j)) => {
                let folded = ExprModel::Binary(op, Box::new(acc), Box::new(r));
                if i < j <= toks.len() {
                    ps_cmp_tail(toks, j, folded)
                } else {
                    Ok((folded, j))
                }
            },
            Err(pe) => Err(pe),
        }
    } else {
        Ok((acc, i))
    }
}

/// comparison := term ((`>` | `>=` | `<` | `<=`) term)*
pub open spec fn ps_comparison(toks: Seq<TokenModel>, i: int) -> Result<
    (ExprModel, int),
    ParseErrorModel,
>
    decreases toks.len() - i, 4int,
{
    match ps_term(toks, i) {
        Ok((e, j)) => if i < j <= toks.len() {
            ps_cmp_tail(toks, j, e)
        } else {
            Ok((e, j))
        },
        Err(pe) => Err(pe),
    }
}

/// The left fold of `equality`.
pub open spec fn ps_eq_tail(toks: Seq<TokenModel>, i: int, acc: ExprModel) -> Result<
    (ExprModel, int),
    ParseErrorModel,
>
    decreases toks.len() - i, 9int,
{
    if pk_is(toks, i, TokenType::BangEqual) || pk_is(toks, i, TokenType::EqualEqual) {
        let op = if toks[i].tok_type == TokenType::BangEqual {
            BinOp::NotEqual
        } else {
            BinOp::Equal
        };
        match ps_comparison(toks, i + 1) {
            Ok((r, j)) => {
                let folded = ExprModel::Binary(op, Box::new(acc), Box::new(r));
                if i < j <= toks.len() {
                    ps_eq_tail(toks, j, folded)
                } else {
                    Ok((folded, j))
                }
            },
            Err(pe) => Err(pe),
        }
    } else {
        Ok((acc, i))
    }
}

/// equality := comparison ((`!=` | `==`) comparison)*
pub open spec fn ps_equality(toks: Seq<TokenModel>, i: int) -> Result<
    (ExprModel, int),
    ParseErrorModel,
>
    decreases toks.len() - i, 5int,
{
    match ps_comparison(toks, i) {
        Ok((e, j)) => if i < j <= toks.len() {
            ps_eq_tail(toks, j, e)
        } else {
            Ok((e, j))
        },
        Err(pe) => Err(pe),
    }
}

/// expression := equality
pub open spec fn ps_expression(toks: Seq<TokenModel>, i: int) -> Result<
    (ExprModel, int),
    ParseErrorModel,
>
    decreases toks.len() - i, 6int,
{
    ps_equality(toks, i)
}

/// One root expression followed by end-of-stream.
pub open spec fn ps_parse(toks: Seq<TokenModel>, i: int) -> Result<(ExprModel, int), ParseErrorModel> {
    match ps_expression(toks, i) {
        Ok((e, j)) => if at_end(toks, j) {
            Ok((e, j))
        } else {
            Err(ParseErrorModel::ExpectedEof { line: peek_line(toks, j) })
        },
        Err(pe) => Err(pe),
    }
}

/// A token kind that likely starts a new statement, for panic-mode
/// synchronization.
pub open spec fn sync_start(typ: TokenType) -> bool {
    match typ {
        TokenType::Class => true,
        TokenType::For => true,
        TokenType::Fun => true,
        TokenType::If => true,
        TokenType::Print => true,
        TokenType::Return => true,
        TokenType::Var => true,
        TokenType::While => true,
        _ => false,
    }
}

/// Skip forward to a likely statement boundary: just past a semicolon, at a
/// token that starts a statement, or at the end.
pub open spec fn sync_from(toks: Seq<TokenModel>, i: int) -> int
    decreases toks.len() - i,
{
    if at_end(toks, i) {
        i
    } else if i >= 1 && toks[i - 1].tok_type == TokenType::Semicolon {
        i
    } else if sync_start(toks[i].tok_type) {
        i
    } else {
        sync_from(toks, i + 1)
    }
}

/// Where synchronization from position `i` stops: one token is always
/// consumed first (if any remain).
pub open spec fn spec_synchronize(toks: Seq<TokenModel>, i: int) -> int {
    if at_end(toks, i) {
        sync_from(toks, i)
    } else {
        sync_from(toks, i + 1)
    }
}

// ---------------------------------------------------------------------------
// The parser
// ---------------------------------------------------------------------------

pub struct Parser {
    pub scanner: Scanner,
    pub current: usize,
}

pub open spec fn toks_of(p: Parser) -> Seq<TokenModel> {
    tok_views(p.scanner.tokens@)
}

impl Parser {
    pub open spec fn wf(self) -> bool {
        &&& self.scanner.wf()
        &&& self.current <= self.scanner.tokens@.len()
    }

    pub fn new(source: &str) -> (p: Parser)
        requires
            source@.len() < usize::MAX,
        ensures
            p.wf(),
            p.current == 0,
            p.scanner.source@ == source@,
            p.scanner.tokens@ == Seq::<Token>::empty(),
            p.scanner.current == 0,
            p.scanner.line == 1,
            !p.scanner.had_error,
    {
        Parser { current: 0, scanner: Scanner::new(source) }
    }

    fn is_at_end(&self) -> (r: bool)
        requires
            self.wf(),
        ensures
            r == at_end(toks_of(*self), self.current as int),
            !r ==> self.current < self.scanner.tokens@.len() && self.scanner.tokens@.len() <= usize::MAX,
    {
        proof {
            assert(toks_of(*self).len() == self.scanner.tokens@.len());
        }
        self.current >= self.scanner.tokens.len() || self.scanner.tokens[self.current].tok_type
            == TokenType::Eof
    }

    fn check(&self, typ: TokenType) -> (r: bool)
        requires
            self.wf(),
        ensures
            r == pk_is(toks_of(*self), self.current as int, typ),
            r ==> self.current < self.scanner.tokens@.len() && self.scanner.tokens@.len() <= usize::MAX,
    {
        if self.is_at_end() {
            false
        } else {
            self.scanner.tokens[self.current].tok_type == typ
        }
    }

    fn peek_line(&self) -> (r: usize)
        requires
            self.wf(),
            self.scanner.tokens@.len() >= 1,
        ensures
            r as int == peek_line(toks_of(*self), self.current as int),
    {
        if self.is_at_end() {
            self.scanner.tokens[self.scanner.tokens.len() - 1].line
        } else {
            self.scanner.tokens[self.current].line
        }
    }

    /// primary := `false` | `true` | `nil` | number | string | `(` expression `)`
    fn parse_primary(&mut self) -> (r: Result<Expr, ParseError>)
        requires
            old(self).wf(),
            old(self).scanner.tokens@.len() >= 1,
        ensures
            final(self).wf(),
            final(self).scanner == old(self).scanner,
            match r {
                Ok(e) => ps_primary(toks_of(*old(self)), old(self).current as int) == Ok::<
                    (ExprModel, int),
                    ParseErrorModel,
                >((e@, final(self).current as int)),
                Err(pe) => ps_primary(toks_of(*old(self)), old(self).current as int) == Err::<
                    (ExprModel, int),
                    ParseErrorModel,
                >(pe@),
            },
        decreases old(self).scanner.tokens@.len() - old(self).current, 0int,
    {
        if self.check(TokenType::False) {
            self.current = self.current + 1;
            return Ok(Expr::false_literal());
        }
        if self.check(TokenType::True) {
            self.current = self.current + 1;
            return Ok(Expr::true_literal());
        }
        if self.check(TokenType::Nil) {
            self.current = self.current + 1;
            return Ok(Expr::nil_literal());
        }
        if self.check(TokenType::Number) {
            proof {
                assert(toks_of(*self)[self.current as int] == self.scanner.tokens@[self.current as int]@);
            }
            let num = match &self.scanner.tokens[self.current].literal {
                Option::Some(crate::lexer::Literal::Number(d)) => Option::Some(*d),
                _ => Option::None,
            };
            match num {
                Option::Some(d) => {
                    self.current = self.current + 1;
                    return Ok(Expr::number_literal(d));
                },
                Option::None => {
                    let line = self.scanner.tokens[self.current].line;
                    return Err(ParseError::InvalidLiteral { line });
                },
            }
        }
        if self.check(TokenType::String) {
            proof {
                assert(toks_of(*self)[self.current as int] == self.scanner.tokens@[self.current as int]@);
            }
            let text = match &self.scanner.tokens[self.current].literal {
                Option::Some(crate::lexer::Literal::String(s)) => Option::Some(s.clone()),
                _ => Option::None,
            };
            match text {
                Option::Some(s) => {
                    self.current = self.current + 1;
                    return Ok(Expr::string_literal(s.as_str()));
                },
                Option::None => {
                    let line = self.scanner.tokens[self.current].line;
                    return Err(ParseError::InvalidLiteral { line });
                },
            }
        }
        if self.check(TokenType::LeftParen) {
            self.current = self.current + 1;
            let inner = match self.parse_expression() {
                Ok(e) => e,
                Err(pe) => {
                    return Err(pe);
                },
            };
            if self.check(TokenType::RightParen) {
                self.current = self.current + 1;
                return Ok(Expr::group(inner));
            } else {
                let line = self.peek_line();
                return Err(ParseError::ExpectedRightParen { line });
            }
        }
        let line = self.peek_line();
        Err(ParseError::ExpectedExpression { line })
    }

    /// unary := (`!` | `-`) unary | primary
    fn parse_unary(&mut self) -> (r: Result<Expr, ParseError>)
        requires
            old(self).wf(),
            old(self).scanner.tokens@.len() >= 1,
        ensures
            final(self).wf(),
            final(self).scanner == old(self).scanner,
            match r {
                Ok(e) => ps_unary(toks_of(*old(self)), old(self).current as int) == Ok::<
                    (ExprModel, int),
                    ParseErrorModel,
                >((e@, final(self).current as int)),
                Err(pe) => ps_unary(toks_of(*old(self)), old(self).current as int) == Err::<
                    (ExprModel, int),
                    ParseErrorModel,
                >(pe@),
            },
        decreases old(self).scanner.tokens@.len() - old(self).current, 1int,
    {
        let is_bang = self.check(TokenType::Bang);
        if is_bang || self.check(TokenType::Minus) {
            let op_tok = if is_bang {
                TokenType::Bang
            } else {
                TokenType::Minus
            };
            self.current = self.current + 1;
            match self.parse_unary() {
                Ok(right) => Ok(Expr::unary_from_token(op_tok, right)),
                Err(pe) => Err(pe),
            }
        } else {
            self.parse_primary()
        }
    }

    /// The left fold of `factor`.
    fn parse_factor_tail(&mut self, acc: Expr) -> (r: Result<Expr, ParseError>)
        requires
            old(self).wf(),
            old(self).scanner.tokens@.len() >= 1,
        ensures
            final(self).wf(),
            final(self).scanner == old(self).scanner,
            match r {
                Ok(e) => ps_factor_tail(toks_of(*old(self)), old(self).current as int, acc@) == Ok::<
                    (ExprModel, int),
                    ParseErrorModel,
                >((e@, final(self).current as int)),
                Err(pe) => ps_factor_tail(toks_of(*old(self)), old(self).current as int, acc@)
                    == Err::<(ExprModel, int), ParseErrorModel>(pe@),
            },
        decreases old(self).scanner.tokens@.len() - old(self).current, 9int,
    {
        let c0 = self.current;
        let is_slash = self.check(TokenType::Slash);
        if is_slash || self.check(TokenType::Star) {
            let op_tok = if is_slash {
                TokenType::Slash
            } else {
                TokenType::Star
            };
            self.current = self.current + 1;
            match self.parse_unary() {
                Ok(right) => {
                    let folded = Expr::binary_from_token(op_tok, acc, right);
                    if c0 < self.current {
                        self.parse_factor_tail(folded)
                    } else {
                        Ok(folded)
                    }
                },
                Err(pe) => Err(pe),
            }
        } else {
            Ok(acc)
        }
    }

    /// factor := unary ((`/` | `*`) unary)*
    fn parse_factor(&mut self) -> (r: Result<Expr, ParseError>)
        requires
            old(self).wf(),
            old(self).scanner.tokens@.len() >= 1,
        ensures
            final(self).wf(),
            final(self).scanner == old(self).scanner,
            match r {
                Ok(e) => ps_factor(toks_of(*old(self)), old(self).current as int) == Ok::<
                    (ExprModel, int),
                    ParseErrorModel,
                >((e@, final(self).current as int)),
                Err(pe) => ps_factor(toks_of(*old(self)), old(self).current as int) == Err::<
                    (ExprModel, int),
                    ParseErrorModel,
                >(pe@),
            },
        decreases old(self).scanner.tokens@.len() - old(self).current, 2int,
    {
        let c0 = self.current;
        match self.parse_unary() {
            Ok(e) => {
                if c0 < self.current {
                    self.parse_factor_tail(e)
                } else {
                    Ok(e)
                }
            },
            Err(pe) => Err(pe),
        }
    }

    /// The left fold of `term`.
    fn parse_term_tail(&mut self, acc: Expr) -> (r: Result<Expr, ParseError>)
        requires
            old(self).wf(),
            old(self).scanner.tokens@.len() >= 1,
        ensures
            final(self).wf(),
            final(self).scanner == old(self).scanner,
            match r {
                Ok(e) => ps_term_tail(toks_of(*old(self)), old(self).current as int, acc@) == Ok::<
                    (ExprModel, int),
                    ParseErrorModel,
                >((e@, final(self).current as int)),
                Err(pe) => ps_term_tail(toks_of(*old(self)), old(self).current as int, acc@)
                    == Err::<(ExprModel, int), ParseErrorModel>(pe@),
            },
        decreases old(self).scanner.tokens@.len() - old(self).current, 9int,
    {
        let c0 = self.current;
        let is_plus = self.check(TokenType::Plus);
        if is_plus || self.check(TokenType::Minus) {
            let op_tok = if is_plus {
                TokenType::Plus
            } else {
                TokenType::Minus
            };
            self.current = self.current + 1;
            match self.parse_factor() {
                Ok(right) => {
                    let folded = Expr::binary_from_token(op_tok, acc, right);
                    if c0 < self.current {
                        self.parse_term_tail(folded)
                    } else {
                        Ok(folded)
                    }
                },
                Err(pe) => Err(pe),
            }
        } else {
            Ok(acc)
        }
    }

    /// term := factor ((`+` | `-`) factor)*
    fn parse_term(&mut self) -> (r: Result<Expr, ParseError>)
        requires
            old(self).wf(),
            old(self).scanner.tokens@.len() >= 1,
        ensures
            final(self).wf(),
            final(self).scanner == old(self).scanner,
            match r {
                Ok(e) => ps_term(toks_of(*old(self)), old(self).current as int) == Ok::<
                    (ExprModel, int),
                    ParseErrorModel,
                >((e@, final(self).current as int)),
                Err(pe) => ps_term(toks_of(*old(self)), old(self).current as int) == Err::<
                    (ExprModel, int),
                    ParseErrorModel,
                >(pe@),
            },
        decreases old(self).scanner.tokens@.len() - old(self).current, 3int,
    {
        let c0 = self.current;
        match self.parse_factor() {
            Ok(e) => {
                if c0 < self.current {
                    self.parse_term_tail(e)
                } else {
                    Ok(e)
                }
            },
            Err(pe) => Err(pe),
        }
    }

    /// The left fold of `comparison`.
    fn parse_cmp_tail(&mut self, acc: Expr) -> (r: Result<Expr, ParseError>)
        requires
            old(self).wf(),
            old(self).scanner.tokens@.len() >= 1,
        ensures
            final(self).wf(),
            final(self).scanner == old(self).scanner,
            match r {
                Ok(e) => ps_cmp_tail(toks_of(*old(self)), old(self).current as int, acc@) == Ok::<
                    (ExprModel, int),
                    ParseErrorModel,
                >((e@, final(self).current as int)),
                Err(pe) => ps_cmp_tail(toks_of(*old(self)), old(self).current as int, acc@)
                    == Err::<(ExprModel, int), ParseErrorModel>(pe@),
            },
        decreases old(self).scanner.tokens@.len() - old(self).current, 9int,
    {
        let c0 = self.current;
        let is_gt = self.check(TokenType::Greater);
        let is_ge = self.check(TokenType::GreaterEqual);
        let is_lt = self.check(TokenType::Less);
        if is_gt || is_ge || is_lt || self.check(TokenType::LessEqual) {
            let op_tok = if is_gt {
                TokenType::Greater
            } else if is_ge {
                TokenType::GreaterEqual
            } else if is_lt {
                TokenType::Less
            } else {
                TokenType::LessEqual
            };
            self.current = self.current + 1;
            match self.parse_term() {
                Ok(right) => {
                    let folded = Expr::binary_from_token(op_tok, acc, right);
                    if c0 < self.current {
                        self.parse_cmp_tail(folded)
                    } else {
                        Ok(folded)
                    }
                },
                Err(pe) => Err(pe),
            }
        } else {
            Ok(acc)
        }
    }

    /// comparison := term ((`>` | `>=` | `<` | `<=`) term)*
    fn parse_comparison(&mut self) -> (r: Result<Expr, ParseError>)
        requires
            old(self).wf(),
            old(self).scanner.tokens@.len() >= 1,
        ensures
            final(self).wf(),
            final(self).scanner == old(self).scanner,
            match r {
                Ok(e) => ps_comparison(toks_of(*old(self)), old(self).current as int) == Ok::<
                    (ExprModel, int),
                    ParseErrorModel,
                >((e@, final(self).current as int)),
                Err(pe) => ps_comparison(toks_of(*old(self)), old(self).current as int) == Err::<
                    (ExprModel, int),
                    ParseErrorModel,
                >(pe@),
            },
        decreases old(self).scanner.tokens@.len() - old(self).current, 4int,
    {
        let c0 = self.current;
        match self.parse_term() {
            Ok(e) => {
                if c0 < self.current {
                    self.parse_cmp_tail(e)
                } else {
                    Ok(e)
                }
            },
            Err(pe) => Err(pe),
        }
    }

    /// The left fold of `equality`.
    fn parse_eq_tail(&mut self, acc: Expr) -> (r: Result<Expr, ParseError>)
        requires
            old(self).wf(),
            old(self).scanner.tokens@.len() >= 1,
        ensures
            final(self).wf(),
            final(self).scanner == old(self).scanner,
            match r {
                Ok(e) => ps_eq_tail(toks_of(*old(self)), old(self).current as int, acc@) == Ok::<
                    (ExprModel, int),
                    ParseErrorModel,
                >((e@, final(self).current as int)),
                Err(pe) => ps_eq_tail(toks_of(*old(self)), old(self).current as int, acc@) == Err::<
                    (ExprModel, int),
                    ParseErrorModel,
                >(pe@),
            },
        decreases old(self).scanner.tokens@.len() - old(self).current, 9int,
    {
        let c0 = self.current;
        let is_ne = self.check(TokenType::BangEqual);
        if is_ne || self.check(TokenType::EqualEqual) {
            let op_tok = if is_ne {
                TokenType::BangEqual
            } else {
                TokenType::EqualEqual
            };
            self.current = self.current + 1;
            match self.parse_comparison() {
                Ok(right) => {
                    let folded = Expr::binary_from_token(op_tok, acc, right);
                    if c0 < self.current {
                        self.parse_eq_tail(folded)
                    } else {
                        Ok(folded)
                    }
                },
                Err(pe) => Err(pe),
            }
        } else {
            Ok(acc)
        }
    }

    /// equality := comparison ((`!=` | `==`) comparison)*
    fn parse_equality(&mut self) -> (r: Result<Expr, ParseError>)
        requires
            old(self).wf(),
            old(self).scanner.tokens@.len() >= 1,
        ensures
            final(self).wf(),
            final(self).scanner == old(self).scanner,
            match r {
                Ok(e) => ps_equality(toks_of(*old(self)), old(self).current as int) == Ok::<
                    (ExprModel, int),
                    ParseErrorModel,
                >((e@, final(self).current as int)),
                Err(pe) => ps_equality(toks_of(*old(self)), old(self).current as int) == Err::<
                    (ExprModel, int),
                    ParseErrorModel,
                >(pe@),
            },
        decreases old(self).scanner.tokens@.len() - old(self).current, 5int,
    {
        let c0 = self.current;
        match self.parse_comparison() {
            Ok(e) => {
                if c0 < self.current {
                    self.parse_eq_tail(e)
                } else {
                    Ok(e)
                }
            },
            Err(pe) => Err(pe),
        }
    }

    /// Parse one expression from the current position.
    pub fn parse_expression(&mut self) -> (r: Result<Expr, ParseError>)
        requires
            old(self).wf(),
            old(self).scanner.tokens@.len() >= 1,
        ensures
            final(self).wf(),
            final(self).scanner == old(self).scanner,
            match r {
                Ok(e) => ps_expression(toks_of(*old(self)), old(self).current as int) == Ok::<
                    (ExprModel, int),
                    ParseErrorModel,
                >((e@, final(self).current as int)),
                Err(pe) => ps_expression(toks_of(*old(self)), old(self).current as int) == Err::<
                    (ExprModel, int),
                    ParseErrorModel,
                >(pe@),
            },
        decreases old(self).scanner.tokens@.len() - old(self).current, 6int,
    {
        self.parse_equality()
    }

    /// Scan the source, then parse one root expression and require
    /// end-of-stream after it.
    pub fn parse(&mut self) -> (r: Result<Expr, ParseError>)
        requires
            old(self).wf(),
        ensures
            final(self).wf(),
            ({
                let out = crate::lexer::scan_rest(
                    old(self).scanner.source@,
                    old(self).scanner.current as int,
                    old(self).scanner.line as int,
                );
                let toks = toks_of(*final(self));
                &&& toks == tok_views(old(self).scanner.tokens@) + out.toks + seq![
                    crate::lexer::eof_model(out.line),
                ]
                &&& final(self).scanner.had_error == (old(self).scanner.had_error || out.errs.len()
                    > 0)
                &&& match r {
                    Ok(e) => ps_parse(toks, old(self).current as int) == Ok::<
                        (ExprModel, int),
                        ParseErrorModel,
                    >((e@, final(self).current as int)),
                    Err(pe) => ps_parse(toks, old(self).current as int) == Err::<
                        (ExprModel, int),
                        ParseErrorModel,
                    >(pe@),
                }
            }),
    {
        self.scanner.scan_tokens();
        proof {
            assert(tok_views(self.scanner.tokens@).len() == self.scanner.tokens@.len());
            assert(tok_views(old(self).scanner.tokens@).len() == old(self).scanner.tokens@.len());
        }
        let root = match self.parse_expression() {
            Ok(e) => e,
            Err(pe) => {
                return Err(pe);
            },
        };
        if self.is_at_end() {
            Ok(root)
        } else {
            let line = self.peek_line();
            Err(ParseError::ExpectedEof { line })
        }
    }

    /// Skip forward to a likely statement boundary: recovery scaffolding for
    /// a future statement-level grammar.
    #[verifier::loop_isolation(false)]
    pub fn synchronize(&mut self)
        requires
            old(self).wf(),
        ensures
            final(self).wf(),
            final(self).scanner == old(self).scanner,
            final(self).current as int == spec_synchronize(
                toks_of(*old(self)),
                old(self).current as int,
            ),
    {
        let ghost toks = toks_of(*old(self));
        if !self.is_at_end() {
            self.current = self.current + 1;
        }
        let ghost c1 = self.current as int;
        while self.current < self.scanner.tokens.len() && self.scanner.tokens[self.current].tok_type
            != TokenType::Eof
            invariant
                self.wf(),
                *self == (Parser { current: self.current, ..*old(self) }),
                c1 <= self.current as int,
                c1 >= 1 || at_end(toks, self.current as int) || self.current as int == c1,
                sync_from(toks, c1) == sync_from(toks, self.current as int),
            decreases self.scanner.tokens@.len() - self.current,
        {
            proof {
                assert(toks[self.current as int] == self.scanner.tokens@[self.current as int]@);
            }
            if self.current >= 1 && self.scanner.tokens[self.current - 1].tok_type
                == TokenType::Semicolon {
                return ;
            }
            let ty = self.scanner.tokens[self.current].tok_type;
            if ty == TokenType::Class || ty == TokenType::For || ty == TokenType::Fun || ty
                == TokenType::If || ty == TokenType::Print || ty == TokenType::Return || ty
                == TokenType::Var || ty == TokenType::While {
                return ;
            }
            self.current = self.current + 1;
        }
    }
}

} // verus!
