use treewalk::ast::{BinOp, Expr, UnOp};
use treewalk::number::Decimal;
use treewalk::lexer::{Scanner, Token, TokenType};
use treewalk::parser::{ParseError, Parser};

#[test]
fn test_constant() {
    let mut parser = Parser::new("42");

    assert_eq!(parser.parse().unwrap(), Expr::number_literal(Decimal::new(42, 0)));
}

#[test]
fn test_simple_expression_1() {
    let mut parser = Parser::new("3 + 7 * (48 - 6)");

    let expected = Expr::binary(
        BinOp::Plus,
        Expr::number_literal(Decimal::new(3, 0)),
        Expr::binary(
            BinOp::Mult,
            Expr::number_literal(Decimal::new(7, 0)),
            Expr::group(Expr::binary(
                BinOp::Minus,
                Expr::number_literal(Decimal::new(48, 0)),
                Expr::number_literal(Decimal::new(6, 0)),
            )),
        ),
    );

    assert_eq!(parser.parse().unwrap(), expected);
}

#[test]
fn unary_operators_stack_right_associatively() {
    let mut parser = Parser::new("!!true");
    let expected = Expr::unary(UnOp::Not, Expr::unary(UnOp::Not, Expr::true_literal()));
    assert_eq!(parser.parse().unwrap(), expected);

    let mut parser = Parser::new("--1");
    let expected = Expr::unary(
        UnOp::Minus,
        Expr::unary(UnOp::Minus, Expr::number_literal(Decimal::new(1, 0))),
    );
    assert_eq!(parser.parse().unwrap(), expected);
}

#[test]
fn same_level_operators_fold_left() {
    let mut parser = Parser::new("1 - 2 - 3");
    let expected = Expr::binary(
        BinOp::Minus,
        Expr::binary(
            BinOp::Minus,
            Expr::number_literal(Decimal::new(1, 0)),
            Expr::number_literal(Decimal::new(2, 0)),
        ),
        Expr::number_literal(Decimal::new(3, 0)),
    );
    assert_eq!(parser.parse().unwrap(), expected);
}

#[test]
fn comparison_binds_tighter_than_equality() {
    let mut parser = Parser::new("1 < 2 == true");
    let expected = Expr::binary(
        BinOp::Equal,
        Expr::binary(
            BinOp::Lt,
            Expr::number_literal(Decimal::new(1, 0)),
            Expr::number_literal(Decimal::new(2, 0)),
        ),
        Expr::true_literal(),
    );
    assert_eq!(parser.parse().unwrap(), expected);
}

#[test]
fn missing_right_paren_is_an_error() {
    let mut parser = Parser::new("(1 + 2");
    assert_eq!(parser.parse(), Err(ParseError::ExpectedRightParen { line: 1 }));
}

#[test]
fn empty_input_expects_an_expression() {
    let mut parser = Parser::new("");
    assert_eq!(parser.parse(), Err(ParseError::ExpectedExpression { line: 1 }));
}

#[test]
fn stray_operator_expects_an_expression() {
    let mut parser = Parser::new("+ 1");
    assert_eq!(parser.parse(), Err(ParseError::ExpectedExpression { line: 1 }));
}

#[test]
fn trailing_tokens_are_rejected() {
    let mut parser = Parser::new("1 2");
    assert_eq!(parser.parse(), Err(ParseError::ExpectedEof { line: 1 }));
}

#[test]
fn string_literals_parse_to_string_expressions() {
    let mut parser = Parser::new("\"hello\"");
    assert_eq!(parser.parse().unwrap(), Expr::string_literal("hello"));
}

#[test]
fn forged_number_token_without_payload_is_rejected() {
    // The scanner never produces a number token without a payload; a parser
    // fed one by hand reports it rather than failing.
    let scanner = Scanner {
        source: String::new(),
        source_chars: Vec::new(),
        start: 0,
        current: 0,
        line: 1,
        tokens: vec![Token::new(TokenType::Number, "7".to_string(), 1), Token::eof(1)],
        had_error: false,
        errors: Vec::new(),
    };
    let mut parser = Parser { scanner, current: 0 };
    assert_eq!(
        parser.parse_expression(),
        Err(ParseError::InvalidLiteral { line: 1 })
    );
}

#[test]
fn error_lines_point_at_the_offending_token() {
    let mut parser = Parser::new("(1 +\n");
    let err = parser.parse().unwrap_err();
    assert_eq!(err, ParseError::ExpectedExpression { line: 2 });
    assert_eq!(err.line(), 2);
    assert_eq!(err.message(), "Expected expression");
}
