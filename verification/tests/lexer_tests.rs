use treewalk::lexer::{LexError, Literal, Scanner, TokenType};
use treewalk::number::Decimal;

#[test]
fn test_operators() {
    let mut scanner = Scanner::new("(/*){ ;+\t -}!({.,.!=<>====!})");

    scanner.scan_tokens();

    assert!(!scanner.had_error);

    let types = vec![
        TokenType::LeftParen,
        TokenType::Slash,
        TokenType::Star,
        TokenType::RightParen,
        TokenType::LeftBrace,
        TokenType::Semicolon,
        TokenType::Plus,
        TokenType::Minus,
        TokenType::RightBrace,
        TokenType::Bang,
        TokenType::LeftParen,
        TokenType::LeftBrace,
        TokenType::Dot,
        TokenType::Comma,
        TokenType::Dot,
        TokenType::BangEqual,
        TokenType::Less,
        TokenType::GreaterEqual,
        TokenType::EqualEqual,
        TokenType::Equal,
        TokenType::Bang,
        TokenType::RightBrace,
        TokenType::RightParen,
        TokenType::Eof,
    ];

    let mut typ_it = types.iter();
    for tok in scanner.tokens {
        let typ = typ_it.next().expect("q?");
        assert_eq!(tok.tok_type, *typ);
    }
}

#[test]
fn test_string_literal_1() {
    let mut scanner = Scanner::new("\"abscondmal\"");

    scanner.scan_tokens();

    assert!(!scanner.had_error);

    let mut tok_it = scanner.tokens.iter();

    let str_tok = tok_it
        .next()
        .expect("There should be a string token in the stream");

    assert_eq!(str_tok.tok_type, TokenType::String);
    assert_eq!(str_tok.lexeme, "abscondmal");
    assert_eq!(
        str_tok.literal,
        Some(Literal::String("abscondmal".to_string()))
    );
}

#[test]
fn test_number_literal_1() {
    let mut scanner = Scanner::new("1234 + 37.52");

    scanner.scan_tokens();

    assert!(!scanner.had_error);

    let mut tok_it = scanner.tokens.iter();

    let num_tok_1 = tok_it
        .next()
        .expect("There should be a number token in the stream");

    assert_eq!(num_tok_1.tok_type, TokenType::Number);
    assert_eq!(num_tok_1.lexeme, "1234");
    assert_eq!(num_tok_1.literal, Some(Literal::Number(Decimal::new(1234, 0))));

    let op_tok = tok_it
        .next()
        .expect("There should be a Plus token in the stream");

    assert_eq!(op_tok.tok_type, TokenType::Plus);

    let num_tok_2 = tok_it
        .next()
        .expect("There should be a number token in the stream");

    assert_eq!(num_tok_2.tok_type, TokenType::Number);
    assert_eq!(num_tok_2.lexeme, "37.52");
    assert_eq!(num_tok_2.literal, Some(Literal::Number(Decimal::new(3752, 2))));
}

#[test]
fn test_keywords_1() {
    let mut scanner = Scanner::new("class for lunch");

    scanner.scan_tokens();

    assert!(!scanner.had_error);

    let mut tok_it = scanner.tokens.iter();

    let kw_tok_1 = tok_it
        .next()
        .expect("There should be a keyword token in the stream");

    assert_eq!(kw_tok_1.tok_type, TokenType::Class);

    let kw_tok_2 = tok_it
        .next()
        .expect("There should be a keyword token in the stream");

    assert_eq!(kw_tok_2.tok_type, TokenType::For);

    let id_tok = tok_it
        .next()
        .expect("There should be an identifier in the stream");

    assert_eq!(id_tok.tok_type, TokenType::Identifier);
    assert_eq!(
        id_tok.literal,
        Some(Literal::Identifier("lunch".to_string()))
    );
}

#[test]
fn test_keywords_2() {
    let mut scanner = Scanner::new("and for if while class return else false print true");

    scanner.scan_tokens();

    assert!(!scanner.had_error);

    let types = vec![
        TokenType::And,
        TokenType::For,
        TokenType::If,
        TokenType::While,
        TokenType::Class,
        TokenType::Return,
        TokenType::Else,
        TokenType::False,
        TokenType::Print,
        TokenType::True,
        TokenType::Eof,
    ];

    let mut typ_it = types.iter();
    for tok in scanner.tokens {
        let typ = typ_it.next().expect("A token was expected");
        assert_eq!(tok.tok_type, *typ);
    }
}

#[test]
fn test_identifiers_1() {
    let mut scanner = Scanner::new("x = y + 37;");

    scanner.scan_tokens();

    assert!(!scanner.had_error);

    let mut tok_it = scanner.tokens.iter();

    let id_tok_1 = tok_it
        .next()
        .expect("There should be an identifier in the stream");

    assert_eq!(id_tok_1.tok_type, TokenType::Identifier);
    assert_eq!(id_tok_1.literal, Some(Literal::Identifier("x".to_string())));

    let eq_tok = tok_it
        .next()
        .expect("There should be an equals token in the stream");

    assert_eq!(eq_tok.tok_type, TokenType::Equal);

    let id_tok_2 = tok_it
        .next()
        .expect("There should be an identifier in the stream");

    assert_eq!(id_tok_2.tok_type, TokenType::Identifier);
    assert_eq!(id_tok_2.literal, Some(Literal::Identifier("y".to_string())));

    let plus_tok = tok_it
        .next()
        .expect("There should be a plus token in the stream");

    assert_eq!(plus_tok.tok_type, TokenType::Plus);

    let num_tok_1 = tok_it
        .next()
        .expect("There should be a number token in the stream");

    assert_eq!(num_tok_1.tok_type, TokenType::Number);
    assert_eq!(num_tok_1.lexeme, "37");
    assert_eq!(num_tok_1.literal, Some(Literal::Number(Decimal::new(37, 0))));
}

#[test]
fn maximal_munch_exact_kinds() {
    // Two-character tokens are preferred over adjacent single-character
    // ones, left to right: `>====` reads as `>=`, `==`, `=`.
    let mut scanner = Scanner::new("!==<>====");

    scanner.scan_tokens();

    assert!(!scanner.had_error);

    let kinds: Vec<TokenType> = scanner.tokens.iter().map(|t| t.tok_type).collect();
    assert_eq!(
        kinds,
        vec![
            TokenType::BangEqual,
            TokenType::Equal,
            TokenType::Less,
            TokenType::GreaterEqual,
            TokenType::EqualEqual,
            TokenType::Equal,
            TokenType::Eof,
        ]
    );
}

#[test]
fn unterminated_string_sets_error_and_emits_no_token() {
    let mut scanner = Scanner::new("\"unterminated");

    scanner.scan_tokens();

    assert!(scanner.had_error);
    assert_eq!(scanner.errors, vec![LexError::UnterminatedString { line: 1 }]);
    assert!(scanner.tokens.iter().all(|t| t.tok_type != TokenType::String));
    // The end-of-stream token is still there, and nothing else.
    assert_eq!(scanner.tokens.len(), 1);
    assert_eq!(scanner.tokens[0].tok_type, TokenType::Eof);
}

#[test]
fn fraction_needs_a_following_digit() {
    let mut scanner = Scanner::new("12.5");
    scanner.scan_tokens();
    assert!(!scanner.had_error);
    let kinds: Vec<TokenType> = scanner.tokens.iter().map(|t| t.tok_type).collect();
    assert_eq!(kinds, vec![TokenType::Number, TokenType::Eof]);
    assert_eq!(
        scanner.tokens[0].literal,
        Some(Literal::Number(Decimal::new(125, 1)))
    );

    let mut scanner = Scanner::new("12.");
    scanner.scan_tokens();
    assert!(!scanner.had_error);
    let kinds: Vec<TokenType> = scanner.tokens.iter().map(|t| t.tok_type).collect();
    assert_eq!(kinds, vec![TokenType::Number, TokenType::Dot, TokenType::Eof]);
    assert_eq!(
        scanner.tokens[0].literal,
        Some(Literal::Number(Decimal::new(12, 0)))
    );
}

#[test]
fn unrecognized_character_is_reported_and_scanning_goes_on() {
    let mut scanner = Scanner::new("@ 7");

    scanner.scan_tokens();

    assert!(scanner.had_error);
    assert_eq!(
        scanner.errors,
        vec![LexError::UnrecognizedChar { ch: '@', line: 1 }]
    );
    assert_eq!(scanner.errors[0].message(), "Unrecognized character");
    assert_eq!(scanner.errors[0].line(), 1);
    let kinds: Vec<TokenType> = scanner.tokens.iter().map(|t| t.tok_type).collect();
    assert_eq!(kinds, vec![TokenType::Number, TokenType::Eof]);
}

#[test]
fn comments_and_newlines_track_lines() {
    let mut scanner = Scanner::new("// a comment\nfoo\n\"two\nlines\"");

    scanner.scan_tokens();

    assert!(!scanner.had_error);
    assert_eq!(scanner.tokens.len(), 3);
    assert_eq!(scanner.tokens[0].tok_type, TokenType::Identifier);
    assert_eq!(scanner.tokens[0].line, 2);
    assert_eq!(scanner.tokens[1].tok_type, TokenType::String);
    assert_eq!(scanner.tokens[1].literal, Some(Literal::String("two\nlines".to_string())));
    // The string token carries the line where it closed.
    assert_eq!(scanner.tokens[1].line, 4);
}

#[test]
fn unicode_identifiers_are_alphabetic_runs() {
    let mut scanner = Scanner::new("café au lait");

    scanner.scan_tokens();

    assert!(!scanner.had_error);
    let kinds: Vec<TokenType> = scanner.tokens.iter().map(|t| t.tok_type).collect();
    assert_eq!(
        kinds,
        vec![TokenType::Identifier, TokenType::Identifier, TokenType::Identifier, TokenType::Eof]
    );
    assert_eq!(scanner.tokens[0].literal, Some(Literal::Identifier("café".to_string())));
}
