use treewalk::ast::{BinOp, Expr, Literal, UnOp};
use treewalk::lexer::TokenType;
use treewalk::number::Decimal;

#[test]
fn test_ast_display() {
    let lit_num1 = Literal::Number(Decimal::new(4, 0));
    let lit_num2 = Literal::Number(Decimal::new(12345, 2));
    let lit_str = Literal::String("this is a string".to_string());

    assert_eq!(lit_num1.render(), "4");
    assert_eq!(lit_num2.render(), "123.45");
    assert_eq!(lit_str.render(), "\"this is a string\"");

    // build a larger expression
    let exp = Expr::binary(
        BinOp::Mult,
        Expr::unary(UnOp::Minus, Expr::number_literal(Decimal::new(123, 0))),
        Expr::group(Expr::number_literal(Decimal::new(4567, 2))),
    );

    assert_eq!(exp.render(), "(* (neg 123) (group 45.67))");
}

#[test]
fn decimal_rendering_pads_small_fractions() {
    assert_eq!(Decimal::new(5, 3).render(), "0.005");
    assert_eq!(Decimal::new(0, 2).render(), "0.00");
    assert_eq!(Decimal::new(40, 1).render(), "4.0");
    assert_eq!(Decimal::new(0, 0).render(), "0");
}

#[test]
fn rendering_is_stable_across_runs() {
    let build = || {
        Expr::binary(
            BinOp::Plus,
            Expr::string_literal("a"),
            Expr::unary(UnOp::Not, Expr::false_literal()),
        )
    };
    let first = build().render();
    let second = build().render();
    assert_eq!(first, second);
    assert_eq!(first, "(+ \"a\" (not false))");
}

#[test]
fn operator_symbols_render_canonically() {
    assert_eq!(BinOp::Equal.render(), "==");
    assert_eq!(BinOp::NotEqual.render(), "!=");
    assert_eq!(BinOp::Lt.render(), "<");
    assert_eq!(BinOp::LtEqual.render(), "<=");
    assert_eq!(BinOp::Gt.render(), ">");
    assert_eq!(BinOp::GtEqual.render(), ">=");
    assert_eq!(BinOp::Plus.render(), "+");
    assert_eq!(BinOp::Minus.render(), "-");
    assert_eq!(BinOp::Mult.render(), "*");
    assert_eq!(BinOp::Div.render(), "/");
    assert_eq!(UnOp::Minus.render(), "neg");
    assert_eq!(UnOp::Not.render(), "not");
    assert_eq!(Literal::True.render(), "true");
    assert_eq!(Literal::False.render(), "false");
    assert_eq!(Literal::Nil.render(), "nil");
}

#[test]
fn operators_from_token_kinds() {
    assert_eq!(UnOp::from_token_type(TokenType::Minus), Some(UnOp::Minus));
    assert_eq!(UnOp::from_token_type(TokenType::Bang), Some(UnOp::Not));
    assert_eq!(UnOp::from_token_type(TokenType::Plus), None);
    assert_eq!(BinOp::from_token_type(TokenType::Star), Some(BinOp::Mult));
    assert_eq!(BinOp::from_token_type(TokenType::Slash), Some(BinOp::Div));
    assert_eq!(BinOp::from_token_type(TokenType::BangEqual), Some(BinOp::NotEqual));
    assert_eq!(BinOp::from_token_type(TokenType::Bang), None);
}
