//! The scanner: turns source text into a sequence of tokens.
//!
//! Scanning is specified by a functional model over the source's character
//! sequence: `scan_step` gives the effect of scanning one token starting at a
//! position, and `scan_rest` folds steps to the end of the input.
//! `Scanner::scan_tokens` is proved to produce exactly the model's tokens and
//! errors, followed by a single end-of-stream token.

use vstd::prelude::*;
use crate::number::Decimal;
use crate::number::DecimalModel;

verus! {

#[derive(Debug, PartialEq, Eq, Clone, Copy, Structural)]
pub enum TokenType {
    // single character tokens
    LeftParen,
    RightParen,
    LeftBrace,
    RightBrace,
    Comma,
    Dot,
    Minus,
    Plus,
    Semicolon,
    Slash,
    Star,
    // one or two character tokens
    Bang,
    BangEqual,
    Equal,
    EqualEqual,
    Greater,
    GreaterEqual,
    Less,
    LessEqual,
    // literals
    Identifier,
    String,
    Number,
    // keywords
    And,
    Class,
    Else,
    False,
    Fun,
    For,
    If,
    Nil,
    Or,
    Print,
    Return,
    Super,
    This,
    True,
    Var,
    While,
    Eof,
}

/// A token's payload: the decimal value of a number literal, the contents of
/// a string literal, or an identifier's name.
#[derive(Debug, PartialEq)]
pub enum Literal {
    Number(Decimal),
    String(String),
    Identifier(String),
}

pub enum LiteralModel {
    Number(DecimalModel),
    Str(Seq<char>),
    Identifier(Seq<char>),
}

impl View for Literal {
    type V = LiteralModel;

    open spec fn view(&self) -> LiteralModel {
        match self {
            Literal::Number(d) => LiteralModel::Number(d@),
            Literal::String(s) => LiteralModel::Str(s@),
            Literal::Identifier(s) => LiteralModel::Identifier(s@),
        }
    }
}

#[derive(Debug, PartialEq)]
pub struct Token {
    pub tok_type: TokenType,
    pub lexeme: String,
    pub literal: Option<Literal>,
    pub line: usize,
}

pub struct TokenModel {
    pub tok_type: TokenType,
    pub lexeme: Seq<char>,
    pub literal: Option<LiteralModel>,
    pub line: int,
}

impl View for Token {
    type V = TokenModel;

    open spec fn view(&self) -> TokenModel {
        TokenModel {
            tok_type: self.tok_type,
            lexeme: self.lexeme@,
            literal: match self.literal {
                Option::None => Option::None,
                Option::Some(ref l) => Option::Some(l@),
            },
            line: self.line as int,
        }
    }
}

impl Token {
    pub fn new(typ: TokenType, lexeme: String, line: usize) -> (t: Token)
        ensures
            t@ == (TokenModel { tok_type: typ, lexeme: lexeme@, literal: Option::None, line: line as int }),
    {
        Token { tok_type: typ, lexeme, literal: Option::None, line }
    }

    pub fn string_literal(s: String, line: usize) -> (t: Token)
        ensures
            t@ == (TokenModel {
                tok_type: TokenType::String,
                lexeme: s@,
                literal: Option::Some(LiteralModel::Str(s@)),
                line: line as int,
            }),
    {
        let lexeme = s.clone();
        Token { tok_type: TokenType::String, lexeme, literal: Option::Some(Literal::String(s)), line }
    }

    pub fn number_literal(val: Decimal, lex: &str, line: usize) -> (t: Token)
        ensures
            t@ == (TokenModel {
                tok_type: TokenType::Number,
                lexeme: lex@,
                literal: Option::Some(LiteralModel::Number(val@)),
                line: line as int,
            }),
    {
        Token {
            tok_type: TokenType::Number,
            lexeme: lex.to_owned(),
            literal: Option::Some(Literal::Number(val)),
            line,
        }
    }

    pub fn identifier(id: &str, line: usize) -> (t: Token)
        ensures
            t@ == (TokenModel {
                tok_type: TokenType::Identifier,
                lexeme: id@,
                literal: Option::Some(LiteralModel::Identifier(id@)),
                line: line as int,
            }),
    {
        Token {
            tok_type: TokenType::Identifier,
            lexeme: id.to_owned(),
            literal: Option::Some(Literal::Identifier(id.to_owned())),
            line,
        }
    }

    pub fn eof(line: usize) -> (t: Token)
        ensures
            t@ == eof_model(line as int),
    {
        Token {
            tok_type: TokenType::Eof,
            lexeme: String::new(),
            literal: Option::None,
            line,
        }
    }
}

pub open spec fn eof_model(line: int) -> TokenModel {
    TokenModel { tok_type: TokenType::Eof, lexeme: Seq::empty(), literal: Option::None, line }
}

/// A lexical error; scanning records it and goes on.
#[derive(Debug, PartialEq, Eq, Clone)]
pub enum LexError {
    UnrecognizedChar { ch: char, line: usize },
    UnterminatedString { line: usize },
}

pub enum LexErrorModel {
    UnrecognizedChar { ch: char, line: int },
    UnterminatedString { line: int },
}

impl LexError {
    /// A human-readable message; the fields carry the character and the
    /// line.
    pub fn message(&self) -> (r: String)
        ensures
            r@ == match *self {
                LexError::UnrecognizedChar { .. } => "Unrecognized character"@,
                LexError::UnterminatedString { .. } => "Unterminated string literal"@,
            },
    {
        match *self {
            LexError::UnrecognizedChar { .. } => String::from_str("Unrecognized character"),
            LexError::UnterminatedString { .. } => String::from_str("Unterminated string literal"),
        }
    }

    /// The line the error was raised on.
    pub fn line(&self) -> (r: usize)
        ensures
            r as int == match self@ {
                LexErrorModel::UnrecognizedChar { line, .. } => line,
                LexErrorModel::UnterminatedString { line } => line,
            },
    {
        match *self {
            LexError::UnrecognizedChar { line, .. } => line,
            LexError::UnterminatedString { line } => line,
        }
    }
}

impl View for LexError {
    type V = LexErrorModel;

    open spec fn view(&self) -> LexErrorModel {
        match *self {
            LexError::UnrecognizedChar { ch, line } => LexErrorModel::UnrecognizedChar { ch, line: line as int },
            LexError::UnterminatedString { line } => LexErrorModel::UnterminatedString { line: line as int },
        }
    }
}

pub open spec fn tok_views(ts: Seq<Token>) -> Seq<TokenModel> {
    ts.map_values(|t: Token| t@)
}

pub open spec fn err_views(es: Seq<LexError>) -> Seq<LexErrorModel> {
    es.map_values(|e: LexError| e@)
}

proof fn lemma_tok_views_push(ts: Seq<Token>, t: Token)
    ensures
        tok_views(ts.push(t)) == tok_views(ts).push(t@),
{
    assert(tok_views(ts.push(t)) =~= tok_views(ts).push(t@));
}

proof fn lemma_err_views_push(es: Seq<LexError>, e: LexError)
    ensures
        err_views(es.push(e)) == err_views(es).push(e@),
{
    assert(err_views(es.push(e)) =~= err_views(es).push(e@));
}

// ---------------------------------------------------------------------------
// Character classes
// ---------------------------------------------------------------------------

pub open spec fn is_digit_char(c: char) -> bool {
    '0' <= c && c <= '9'
}

pub open spec fn digit_val(c: char) -> nat {
    (c as nat - '0' as nat) as nat
}

fn char_is_digit(c: char) -> (r: bool)
    ensures
        r == is_digit_char(c),
{
    '0' <= c && c <= '9'
}

fn digit_of(c: char) -> (d: u32)
    requires
        is_digit_char(c),
    ensures
        d as nat == digit_val(c),
{
    (c as u32) - ('0' as u32)
}

/// Whether a character is alphabetic, as `char::is_alphabetic` decides it:
/// a fixed Unicode property of the character alone.
pub uninterp spec fn char_alphabetic(c: char) -> bool;

/// Whether a character is whitespace, as `char::is_whitespace` decides it:
/// a fixed Unicode property of the character alone.
pub uninterp spec fn char_whitespace(c: char) -> bool;

/// Relies on `char::is_alphabetic`; its result is a property of the
/// character alone.
#[verifier::external_body]
fn is_alphabetic_char(c: char) -> (r: bool)
    ensures
        r == char_alphabetic(c),
{
    c.is_alphabetic()
}

/// Relies on `char::is_whitespace`; its result is a property of the
/// character alone.
#[verifier::external_body]
fn is_whitespace_char(c: char) -> (r: bool)
    ensures
        r == char_whitespace(c),
{
    c.is_whitespace()
}

// ---------------------------------------------------------------------------
// The scanning model
// ---------------------------------------------------------------------------

/// First position at or after `i` whose character is not a decimal digit.
pub open spec fn skip_digits(s: Seq<char>, i: int) -> int
    decreases s.len() - i,
{
    if 0 <= i < s.len() && is_digit_char(s[i]) {
        skip_digits(s, i + 1)
    } else {
        i
    }
}

/// First position at or after `i` whose character is not alphabetic.
pub open spec fn skip_alpha(s: Seq<char>, i: int) -> int
    decreases s.len() - i,
{
    if 0 <= i < s.len() && char_alphabetic(s[i]) {
        skip_alpha(s, i + 1)
    } else {
        i
    }
}

/// First position at or after `i` holding a double quote, or the length.
pub open spec fn find_quote(s: Seq<char>, i: int) -> int
    decreases s.len() - i,
{
    if 0 <= i < s.len() && s[i] != '"' {
        find_quote(s, i + 1)
    } else {
        i
    }
}

/// First position at or after `i` holding a newline, or the length.
pub open spec fn find_newline(s: Seq<char>, i: int) -> int
    decreases s.len() - i,
{
    if 0 <= i < s.len() && s[i] != '\n' {
        find_newline(s, i + 1)
    } else {
        i
    }
}

/// Number of newline characters in `s[i..j]`.
pub open spec fn count_newlines(s: Seq<char>, i: int, j: int) -> int
    decreases j - i,
{
    if i < j {
        count_newlines(s, i, j - 1) + if s[j - 1] == '\n' { 1int } else { 0int }
    } else {
        0
    }
}

/// One step of saturating decimal accumulation.
pub open spec fn sat_acc(acc: nat, d: nat) -> nat {
    if acc * 10 + d <= u128::MAX {
        acc * 10 + d
    } else {
        u128::MAX as nat
    }
}

/// Saturating decimal value of the digits `s[i..j]`, starting from `acc`.
pub open spec fn man_acc(s: Seq<char>, i: int, j: int, acc: nat) -> nat
    decreases j - i,
{
    if i < j {
        man_acc(s, i + 1, j, sat_acc(acc, digit_val(s[i])))
    } else {
        acc
    }
}

/// The reserved-word table.
pub open spec fn keyword_type(t: Seq<char>) -> Option<TokenType> {
    if t == "and"@ {
        Option::Some(TokenType::And)
    } else if t == "class"@ {
        Option::Some(TokenType::Class)
    } else if t == "else"@ {
        Option::Some(TokenType::Else)
    } else if t == "false"@ {
        Option::Some(TokenType::False)
    } else if t == "fun"@ {
        Option::Some(TokenType::Fun)
    } else if t == "for"@ {
        Option::Some(TokenType::For)
    } else if t == "if"@ {
        Option::Some(TokenType::If)
    } else if t == "nil"@ {
        Option::Some(TokenType::Nil)
    } else if t == "or"@ {
        Option::Some(TokenType::Or)
    } else if t == "print"@ {
        Option::Some(TokenType::Print)
    } else if t == "return"@ {
        Option::Some(TokenType::Return)
    } else if t == "super"@ {
        Option::Some(TokenType::Super)
    } else if t == "this"@ {
        Option::Some(TokenType::This)
    } else if t == "true"@ {
        Option::Some(TokenType::True)
    } else if t == "var"@ {
        Option::Some(TokenType::Var)
    } else if t == "while"@ {
        Option::Some(TokenType::While)
    } else {
        Option::None
    }
}

/// The effect of scanning one token: the tokens and errors emitted, the next
/// position, and the line counter afterwards.
pub struct ScanStep {
    pub toks: Seq<TokenModel>,
    pub errs: Seq<LexErrorModel>,
    pub next: int,
    pub line: int,
}

pub open spec fn punct_step(s: Seq<char>, i: int, line: int, typ: TokenType) -> ScanStep {
    ScanStep {
        toks: seq![
            TokenModel { tok_type: typ, lexeme: s.subrange(i, i + 1), literal: Option::None, line },
        ],
        errs: seq![],
        next: i + 1,
        line,
    }
}

/// Maximal munch for the one-or-two character operators: the two-character
/// kind is taken exactly when the following character matches.
pub open spec fn two_char_step(
    s: Seq<char>,
    i: int,
    line: int,
    expected: char,
    two: TokenType,
    one: TokenType,
) -> ScanStep {
    if i + 1 < s.len() && s[i + 1] == expected {
        ScanStep {
            toks: seq![
                TokenModel { tok_type: two, lexeme: s.subrange(i, i + 2), literal: Option::None, line },
            ],
            errs: seq![],
            next: i + 2,
            line,
        }
    } else {
        punct_step(s, i, line, one)
    }
}

/// A `//` comment runs to the next newline and emits nothing; a lone slash
/// is the division operator.
pub open spec fn slash_step(s: Seq<char>, i: int, line: int) -> ScanStep {
    if i + 1 < s.len() && s[i + 1] == '/' {
        ScanStep { toks: seq![], errs: seq![], next: find_newline(s, i + 2), line }
    } else {
        punct_step(s, i, line, TokenType::Slash)
    }
}

/// Scanning a string literal that opens at `i`: its contents become the
/// payload, inner newlines bump the line counter, and a missing closing
/// quote is an error that emits no token.
pub open spec fn string_step(s: Seq<char>, i: int, line: int) -> ScanStep {
    let e = find_quote(s, i + 1);
    let nl = count_newlines(s, i + 1, e);
    if e == s.len() {
        ScanStep {
            toks: seq![],
            errs: seq![LexErrorModel::UnterminatedString { line: line + nl }],
            next: e,
            line: line + nl,
        }
    } else {
        ScanStep {
            toks: seq![
                TokenModel {
                    tok_type: TokenType::String,
                    lexeme: s.subrange(i + 1, e),
                    literal: Option::Some(LiteralModel::Str(s.subrange(i + 1, e))),
                    line: line + nl,
                },
            ],
            errs: seq![],
            next: e + 1,
            line: line + nl,
        }
    }
}

/// Scanning a number that starts at `i`: the integer digits, then a fraction
/// exactly when a dot is followed by a further digit.  A digit run beyond
/// the mantissa carrier's capacity saturates it.
pub open spec fn number_step(s: Seq<char>, i: int, line: int) -> ScanStep {
    let ie = skip_digits(s, i + 1);
    let has_frac = ie < s.len() && s[ie] == '.' && ie + 1 < s.len() && is_digit_char(s[ie + 1]);
    let end = if has_frac { skip_digits(s, ie + 1) } else { ie };
    let mantissa = if has_frac {
        man_acc(s, ie + 1, end, man_acc(s, i, ie, 0))
    } else {
        man_acc(s, i, ie, 0)
    };
    let scale: nat = if has_frac { (end - (ie + 1)) as nat } else { 0 };
    ScanStep {
        toks: seq![
            TokenModel {
                tok_type: TokenType::Number,
                lexeme: s.subrange(i, end),
                literal: Option::Some(LiteralModel::Number(DecimalModel { mantissa, scale })),
                line,
            },
        ],
        errs: seq![],
        next: end,
        line,
    }
}

/// Scanning an identifier or keyword that starts at `i`.
pub open spec fn ident_step(s: Seq<char>, i: int, line: int) -> ScanStep {
    let e = skip_alpha(s, i + 1);
    let text = s.subrange(i, e);
    match keyword_type(text) {
        Option::Some(typ) => ScanStep {
            toks: seq![TokenModel { tok_type: typ, lexeme: text, literal: Option::None, line }],
            errs: seq![],
            next: e,
            line,
        },
        Option::None => ScanStep {
            toks: seq![
                TokenModel {
                    tok_type: TokenType::Identifier,
                    lexeme: text,
                    literal: Option::Some(LiteralModel::Identifier(text)),
                    line,
                },
            ],
            errs: seq![],
            next: e,
            line,
        },
    }
}

/// One step of the scanner at position `i`.
pub open spec fn scan_step(s: Seq<char>, i: int, line: int) -> ScanStep {
    let c = s[i];
    if c == '(' {
        punct_step(s, i, line, TokenType::LeftParen)
    } else if c == ')' {
        punct_step(s, i, line, TokenType::RightParen)
    } else if c == '{' {
        punct_step(s, i, line, TokenType::LeftBrace)
    } else if c == '}' {
        punct_step(s, i, line, TokenType::RightBrace)
    } else if c == ',' {
        punct_step(s, i, line, TokenType::Comma)
    } else if c == '.' {
        punct_step(s, i, line, TokenType::Dot)
    } else if c == '-' {
        punct_step(s, i, line, TokenType::Minus)
    } else if c == '+' {
        punct_step(s, i, line, TokenType::Plus)
    } else if c == ';' {
        punct_step(s, i, line, TokenType::Semicolon)
    } else if c == '/' {
        slash_step(s, i, line)
    } else if c == '*' {
        punct_step(s, i, line, TokenType::Star)
    } else if c == '!' {
        two_char_step(s, i, line, '=', TokenType::BangEqual, TokenType::Bang)
    } else if c == '=' {
        two_char_step(s, i, line, '=', TokenType::EqualEqual, TokenType::Equal)
    } else if c == '>' {
        two_char_step(s, i, line, '=', TokenType::GreaterEqual, TokenType::Greater)
    } else if c == '<' {
        two_char_step(s, i, line, '=', TokenType::LessEqual, TokenType::Less)
    } else if c == '"' {
        string_step(s, i, line)
    } else if is_digit_char(c) {
        number_step(s, i, line)
    } else if char_whitespace(c) {
        ScanStep {
            toks: seq![],
            errs: seq![],
            next: i + 1,
            line: if c == '\n' { line + 1 } else { line },
        }
    } else if char_alphabetic(c) {
        ident_step(s, i, line)
    } else {
        ScanStep {
            toks: seq![],
            errs: seq![LexErrorModel::UnrecognizedChar { ch: c, line }],
            next: i + 1,
            line,
        }
    }
}

/// The tokens and errors of scanning from position `i` to the end, and the
/// final line counter.  The end-of-stream token is not included; the scanner
/// appends it once after this fold.
pub struct ScanOut {
    pub toks: Seq<TokenModel>,
    pub errs: Seq<LexErrorModel>,
    pub line: int,
}

pub open spec fn scan_rest(s: Seq<char>, i: int, line: int) -> ScanOut
    decreases s.len() - i,
{
    if 0 <= i < s.len() {
        let st = scan_step(s, i, line);
        if i < st.next <= s.len() {
            let rest = scan_rest(s, st.next, st.line);
            ScanOut { toks: st.toks + rest.toks, errs: st.errs + rest.errs, line: rest.line }
        } else {
            ScanOut { toks: st.toks, errs: st.errs, line: st.line }
        }
    } else {
        ScanOut { toks: seq![], errs: seq![], line }
    }
}

proof fn lemma_skip_digits_bounds(s: Seq<char>, i: int)
    requires
        0 <= i <= s.len(),
    ensures
        i <= skip_digits(s, i) <= s.len(),
        forall|j: int| i <= j < skip_digits(s, i) ==> is_digit_char(s[j]),
    decreases s.len() - i,
{
    if i < s.len() && is_digit_char(s[i]) {
        lemma_skip_digits_bounds(s, i + 1);
    }
}

proof fn lemma_skip_alpha_bounds(s: Seq<char>, i: int)
    requires
        0 <= i <= s.len(),
    ensures
        i <= skip_alpha(s, i) <= s.len(),
    decreases s.len() - i,
{
    if i < s.len() && char_alphabetic(s[i]) {
        lemma_skip_alpha_bounds(s, i + 1);
    }
}

proof fn lemma_find_quote_bounds(s: Seq<char>, i: int)
    requires
        0 <= i <= s.len(),
    ensures
        i <= find_quote(s, i) <= s.len(),
    decreases s.len() - i,
{
    if i < s.len() && s[i] != '"' {
        lemma_find_quote_bounds(s, i + 1);
    }
}

proof fn lemma_find_newline_bounds(s: Seq<char>, i: int)
    requires
        0 <= i <= s.len(),
    ensures
        i <= find_newline(s, i) <= s.len(),
    decreases s.len() - i,
{
    if i < s.len() && s[i] != '\n' {
        lemma_find_newline_bounds(s, i + 1);
    }
}

/// Every step of the scanner consumes at least one character and stays in
/// bounds.
proof fn lemma_scan_step_progress(s: Seq<char>, i: int, line: int)
    requires
        0 <= i < s.len(),
    ensures
        i < scan_step(s, i, line).next <= s.len(),
{
    let c = s[i];
    if c == '/' && i + 1 < s.len() && s[i + 1] == '/' {
        lemma_find_newline_bounds(s, i + 2);
    } else if c == '"' {
        lemma_find_quote_bounds(s, i + 1);
    } else if !(c == '(' || c == ')' || c == '{' || c == '}' || c == ',' || c == '.' || c == '-'
        || c == '+' || c == ';' || c == '/' || c == '*' || c == '!' || c == '=' || c == '>'
        || c == '<') && is_digit_char(c) {
        lemma_skip_digits_bounds(s, i + 1);
        let ie = skip_digits(s, i + 1);
        if ie < s.len() && s[ie] == '.' && ie + 1 < s.len() && is_digit_char(s[ie + 1]) {
            lemma_skip_digits_bounds(s, ie + 1);
        }
    } else if !(c == '(' || c == ')' || c == '{' || c == '}' || c == ',' || c == '.' || c == '-'
        || c == '+' || c == ';' || c == '/' || c == '*' || c == '!' || c == '=' || c == '>'
        || c == '<') && !is_digit_char(c) && !char_whitespace(c) && char_alphabetic(c) {
        lemma_skip_alpha_bounds(s, i + 1);
    }
}

/// The scanner's fold never emits an end-of-stream token.
proof fn lemma_scan_rest_no_eof(s: Seq<char>, i: int, line: int)
    ensures
        forall|k: int|
            0 <= k < scan_rest(s, i, line).toks.len()
                ==> #[trigger] scan_rest(s, i, line).toks[k].tok_type != TokenType::Eof,
    decreases s.len() - i,
{
    if 0 <= i < s.len() {
        let st = scan_step(s, i, line);
        if i < st.next <= s.len() {
            lemma_scan_rest_no_eof(s, st.next, st.line);
        }
    }
}

// ---------------------------------------------------------------------------
// The scanner
// ---------------------------------------------------------------------------

pub struct Scanner {
    pub source: String,
    pub source_chars: Vec<char>,
    pub start: usize,
    pub current: usize,
    pub line: usize,
    pub tokens: Vec<Token>,
    pub had_error: bool,
    pub errors: Vec<LexError>,
}

impl Scanner {
    pub open spec fn wf(self) -> bool {
        &&& self.source_chars@ == self.source@
        &&& self.source_chars@.len() < usize::MAX
        &&& self.current <= self.source_chars@.len()
        &&& self.start <= self.current
        &&& 1 <= self.line
        &&& self.line - 1 <= self.current
    }

    /// Fields that scanning never changes.
    pub open spec fn same_src(self, other: Scanner) -> bool {
        self.source@ == other.source@
    }

    pub fn new(source: &str) -> (sc: Scanner)
        requires
            source@.len() < usize::MAX,
        ensures
            sc.wf(),
            sc.source@ == source@,
            sc.start == 0,
            sc.current == 0,
            sc.line == 1,
            sc.tokens@ == Seq::<Token>::empty(),
            sc.errors@ == Seq::<LexError>::empty(),
            !sc.had_error,
    {
        let n = source.unicode_len();
        let mut chars: Vec<char> = Vec::new();
        let mut idx: usize = 0;
        while idx < n
            invariant
                idx <= n,
                n == source@.len(),
                chars@ == source@.subrange(0, idx as int),
            decreases n - idx,
        {
            let c = source.get_char(idx);
            chars.push(c);
            proof {
                assert(chars@ =~= source@.subrange(0, idx + 1));
            }
            idx = idx + 1;
        }
        proof {
            assert(chars@ =~= source@);
        }
        Scanner {
            source: source.to_owned(),
            source_chars: chars,
            start: 0,
            current: 0,
            line: 1,
            tokens: Vec::new(),
            had_error: false,
            errors: Vec::new(),
        }
    }

    fn is_at_end(&self) -> (r: bool)
        ensures
            r == (self.current >= self.source_chars@.len()),
    {
        self.current >= self.source_chars.len()
    }

    fn advance(&mut self) -> (c: char)
        requires
            old(self).wf(),
            old(self).current < old(self).source_chars@.len(),
        ensures
            final(self).wf(),
            *final(self) == (Scanner { current: (old(self).current + 1usize) as usize, ..*old(self) }),
            c == old(self).source_chars@[old(self).current as int],
    {
        let res = self.source_chars[self.current];
        self.current = self.current + 1;
        res
    }

    fn match_next(&mut self, c: char) -> (r: bool)
        requires
            old(self).wf(),
        ensures
            final(self).wf(),
            r == (old(self).current < old(self).source_chars@.len()
                && old(self).source_chars@[old(self).current as int] == c),
            r ==> *final(self) == (Scanner { current: (old(self).current + 1usize) as usize, ..*old(self) }),
            !r ==> *final(self) == *old(self),
    {
        if self.current >= self.source_chars.len() {
            false
        } else if self.source_chars[self.current] != c {
            false
        } else {
            self.current = self.current + 1;
            true
        }
    }

    fn add_token(&mut self, typ: TokenType)
        requires
            old(self).wf(),
        ensures
            final(self).wf(),
            *final(self) == (Scanner { tokens: final(self).tokens, ..*old(self) }),
            tok_views(final(self).tokens@) == tok_views(old(self).tokens@).push(
                TokenModel {
                    tok_type: typ,
                    lexeme: old(self).source@.subrange(old(self).start as int, old(self).current as int),
                    literal: Option::None,
                    line: old(self).line as int,
                },
            ),
    {
        let lexeme = self.source.as_str().substring_char(self.start, self.current).to_owned();
        let t = Token::new(typ, lexeme, self.line);
        proof {
            lemma_tok_views_push(self.tokens@, t);
        }
        self.tokens.push(t);
    }

    fn error(&mut self, err: LexError)
        requires
            old(self).wf(),
        ensures
            final(self).wf(),
            *final(self) == (Scanner { had_error: true, errors: final(self).errors, ..*old(self) }),
            err_views(final(self).errors@) == err_views(old(self).errors@).push(err@),
    {
        proof {
            lemma_err_views_push(self.errors@, err);
        }
        self.had_error = true;
        self.errors.push(err);
    }
}

/// What one scanning step does to the scanner's state.
pub open spec fn step_applied(pre: Scanner, post: Scanner, st: ScanStep) -> bool {
    &&& post.source@ == pre.source@
    &&& post.start == pre.start
    &&& tok_views(post.tokens@) == tok_views(pre.tokens@) + st.toks
    &&& err_views(post.errors@) == err_views(pre.errors@) + st.errs
    &&& post.current as int == st.next
    &&& post.line as int == st.line
    &&& post.had_error == (pre.had_error || st.errs.len() > 0)
}

fn keyword_lookup(t: &String) -> (r: Option<TokenType>)
    ensures
        r == keyword_type(t@),
{
    if *t == String::from_str("and") {
        Option::Some(TokenType::And)
    } else if *t == String::from_str("class") {
        Option::Some(TokenType::Class)
    } else if *t == String::from_str("else") {
        Option::Some(TokenType::Else)
    } else if *t == String::from_str("false") {
        Option::Some(TokenType::False)
    } else if *t == String::from_str("fun") {
        Option::Some(TokenType::Fun)
    } else if *t == String::from_str("for") {
        Option::Some(TokenType::For)
    } else if *t == String::from_str("if") {
        Option::Some(TokenType::If)
    } else if *t == String::from_str("nil") {
        Option::Some(TokenType::Nil)
    } else if *t == String::from_str("or") {
        Option::Some(TokenType::Or)
    } else if *t == String::from_str("print") {
        Option::Some(TokenType::Print)
    } else if *t == String::from_str("return") {
        Option::Some(TokenType::Return)
    } else if *t == String::from_str("super") {
        Option::Some(TokenType::Super)
    } else if *t == String::from_str("this") {
        Option::Some(TokenType::This)
    } else if *t == String::from_str("true") {
        Option::Some(TokenType::True)
    } else if *t == String::from_str("var") {
        Option::Some(TokenType::Var)
    } else if *t == String::from_str("while") {
        Option::Some(TokenType::While)
    } else {
        Option::None
    }
}

proof fn lemma_sat_guard(acc: u128, d: u32)
    requires
        d < 10,
    ensures
        (acc <= ((u128::MAX - d) as u128) / 10) <==> (acc * 10 + d <= u128::MAX),
{
    let y = (u128::MAX - d) as int;
    vstd::arithmetic::div_mod::lemma_fundamental_div_mod(y, 10);
    vstd::arithmetic::div_mod::lemma_mod_division_less_than_divisor(y, 10);
    if acc as int <= y / 10 {
        assert(10 * (acc as int) <= 10 * (y / 10));
    }
    if acc * 10 + d <= u128::MAX && acc as int > y / 10 {
        assert(10 * (acc as int) >= 10 * (y / 10) + 10);
    }
}

impl Scanner {
    fn add_alternatives(&mut self, expected: char, two: TokenType, one: TokenType)
        requires
            old(self).wf(),
            old(self).start + 1 == old(self).current,
        ensures
            final(self).wf(),
            step_applied(
                *old(self),
                *final(self),
                two_char_step(
                    old(self).source@,
                    old(self).start as int,
                    old(self).line as int,
                    expected,
                    two,
                    one,
                ),
            ),
    {
        let matched = self.match_next(expected);
        let typ = if matched { two } else { one };
        self.add_token(typ);
        proof {
            let st = two_char_step(
                old(self).source@,
                old(self).start as int,
                old(self).line as int,
                expected,
                two,
                one,
            );
            assert(tok_views(self.tokens@) =~= tok_views(old(self).tokens@) + st.toks);
            assert(err_views(self.errors@) =~= err_views(old(self).errors@) + st.errs);
        }
    }

    #[verifier::loop_isolation(false)]
    fn comment_or_slash(&mut self)
        requires
            old(self).wf(),
            old(self).start + 1 == old(self).current,
        ensures
            final(self).wf(),
            step_applied(
                *old(self),
                *final(self),
                slash_step(old(self).source@, old(self).start as int, old(self).line as int),
            ),
    {
        let ghost src = old(self).source@;
        if self.match_next('/') {
            while self.current < self.source_chars.len() && self.source_chars[self.current] != '\n'
                invariant
                    self.wf(),
                    *self == (Scanner { current: self.current, ..*old(self) }),
                    old(self).current + 1 <= self.current,
                    find_newline(src, old(self).current + 1) == find_newline(src, self.current as int),
                decreases self.source_chars@.len() - self.current,
            {
                proof {
                    assert(find_newline(src, self.current as int) == find_newline(
                        src,
                        self.current + 1,
                    ));
                }
                self.current = self.current + 1;
            }
            proof {
                assert(find_newline(src, self.current as int) == self.current as int);
                assert(tok_views(self.tokens@) =~= tok_views(old(self).tokens@) + Seq::<TokenModel>::empty());
                assert(err_views(self.errors@) =~= err_views(old(self).errors@) + Seq::<LexErrorModel>::empty());
            }
        } else {
            self.add_token(TokenType::Slash);
            proof {
                let st = slash_step(src, old(self).start as int, old(self).line as int);
                assert(tok_views(self.tokens@) =~= tok_views(old(self).tokens@) + st.toks);
                assert(err_views(self.errors@) =~= err_views(old(self).errors@) + st.errs);
            }
        }
    }

    #[verifier::loop_isolation(false)]
    fn string(&mut self)
        requires
            old(self).wf(),
            old(self).start + 1 == old(self).current,
        ensures
            final(self).wf(),
            step_applied(
                *old(self),
                *final(self),
                string_step(old(self).source@, old(self).start as int, old(self).line as int),
            ),
    {
        let ghost src = old(self).source@;
        while self.current < self.source_chars.len() && self.source_chars[self.current] != '"'
            invariant
                self.wf(),
                *self == (Scanner { current: self.current, line: self.line, ..*old(self) }),
                old(self).current <= self.current,
                find_quote(src, old(self).current as int) == find_quote(src, self.current as int),
                self.line as int == old(self).line + count_newlines(
                    src,
                    old(self).current as int,
                    self.current as int,
                ),
            decreases self.source_chars@.len() - self.current,
        {
            let c = self.source_chars[self.current];
            proof {
                assert(find_quote(src, self.current as int) == find_quote(src, self.current + 1));
                assert(count_newlines(src, old(self).current as int, self.current + 1)
                    == count_newlines(src, old(self).current as int, self.current as int) + if c
                    == '\n' { 1int } else { 0int });
            }
            if c == '\n' {
                self.line = self.line + 1;
            }
            self.current = self.current + 1;
        }
        proof {
            assert(find_quote(src, self.current as int) == self.current as int);
        }
        if self.current >= self.source_chars.len() {
            let line = self.line;
            self.error(LexError::UnterminatedString { line });
            proof {
                let st = string_step(src, old(self).start as int, old(self).line as int);
                assert(tok_views(self.tokens@) =~= tok_views(old(self).tokens@) + st.toks);
                assert(err_views(self.errors@) =~= err_views(old(self).errors@) + st.errs);
            }
        } else {
            let value = self.source.as_str().substring_char(self.start + 1, self.current).to_owned();
            let t = Token::string_literal(value, self.line);
            proof {
                lemma_tok_views_push(self.tokens@, t);
            }
            self.tokens.push(t);
            self.current = self.current + 1;
            proof {
                let st = string_step(src, old(self).start as int, old(self).line as int);
                assert(tok_views(self.tokens@) =~= tok_views(old(self).tokens@) + st.toks);
                assert(err_views(self.errors@) =~= err_views(old(self).errors@) + st.errs);
            }
        }
    }

    /// Advance over a run of decimal digits.
    #[verifier::loop_isolation(false)]
    fn advance_digits(&mut self)
        requires
            old(self).wf(),
        ensures
            final(self).wf(),
            *final(self) == (Scanner { current: final(self).current, ..*old(self) }),
            final(self).current as int == skip_digits(old(self).source@, old(self).current as int),
            old(self).current <= final(self).current,
    {
        let ghost src = old(self).source@;
        while self.current < self.source_chars.len() && '0' <= self.source_chars[self.current]
            && self.source_chars[self.current] <= '9'
            invariant
                self.wf(),
                *self == (Scanner { current: self.current, ..*old(self) }),
                old(self).current <= self.current,
                skip_digits(src, old(self).current as int) == skip_digits(src, self.current as int),
            decreases self.source_chars@.len() - self.current,
        {
            proof {
                assert(skip_digits(src, self.current as int) == skip_digits(src, self.current + 1));
            }
            self.current = self.current + 1;
        }
        proof {
            assert(skip_digits(src, self.current as int) == self.current as int);
        }
    }

    /// Advance over a run of alphabetic characters.
    fn advance_alpha(&mut self)
        requires
            old(self).wf(),
        ensures
            final(self).wf(),
            *final(self) == (Scanner { current: final(self).current, ..*old(self) }),
            final(self).current as int == skip_alpha(old(self).source@, old(self).current as int),
            old(self).current <= final(self).current,
        decreases old(self).source_chars@.len() - old(self).current,
    {
        if self.current < self.source_chars.len() {
            let c = self.source_chars[self.current];
            if is_alphabetic_char(c) {
                self.current = self.current + 1;
                self.advance_alpha();
            }
        }
    }

    /// Saturating decimal value of the digits in `[from, to)`, starting from
    /// `acc0`.
    #[verifier::loop_isolation(false)]
    fn digits_value(&self, from: usize, to: usize, acc0: u128) -> (r: u128)
        requires
            self.wf(),
            from <= to <= self.source_chars@.len(),
            forall|j: int| from <= j < to ==> is_digit_char(#[trigger] self.source_chars@[j]),
        ensures
            r as nat == man_acc(self.source@, from as int, to as int, acc0 as nat),
    {
        let ghost src = self.source@;
        let mut acc = acc0;
        let mut i = from;
        while i < to
            invariant
                self.wf(),
                from <= i <= to <= self.source_chars@.len(),
                src == self.source@,
                forall|j: int| from <= j < to ==> is_digit_char(#[trigger] self.source_chars@[j]),
                man_acc(src, from as int, to as int, acc0 as nat) == man_acc(src, i as int, to as int, acc as nat),
            decreases to - i,
        {
            let c = self.source_chars[i];
            let d = digit_of(c);
            proof {
                lemma_sat_guard(acc, d);
            }
            if acc <= (u128::MAX - d as u128) / 10 {
                acc = acc * 10 + d as u128;
            } else {
                acc = u128::MAX;
            }
            i = i + 1;
        }
        acc
    }

    fn peek_next_is_digit(&self) -> (r: bool)
        requires
            self.wf(),
        ensures
            r == (self.current + 1 < self.source_chars@.len() && is_digit_char(
                self.source_chars@[self.current + 1],
            )),
    {
        if self.current + 1 < self.source_chars.len() {
            let c = self.source_chars[self.current + 1];
            '0' <= c && c <= '9'
        } else {
            false
        }
    }

    fn number(&mut self)
        requires
            old(self).wf(),
            old(self).start + 1 == old(self).current,
            is_digit_char(old(self).source@[old(self).start as int]),
        ensures
            final(self).wf(),
            step_applied(
                *old(self),
                *final(self),
                number_step(old(self).source@, old(self).start as int, old(self).line as int),
            ),
    {
        let ghost src = old(self).source@;
        self.advance_digits();
        proof {
            lemma_skip_digits_bounds(src, old(self).current as int);
        }
        let ie = self.current;
        let has_frac = if self.current < self.source_chars.len() {
            let c = self.source_chars[self.current];
            if c == '.' {
                self.peek_next_is_digit()
            } else {
                false
            }
        } else {
            false
        };
        if has_frac {
            self.current = self.current + 1;
            self.advance_digits();
            proof {
                lemma_skip_digits_bounds(src, ie as int + 1);
            }
        }
        let end = self.current;
        let int_val = self.digits_value(self.start, ie, 0);
        let mantissa = if has_frac {
            self.digits_value(ie + 1, end, int_val)
        } else {
            int_val
        };
        let scale: usize = if has_frac {
            end - (ie + 1)
        } else {
            0
        };
        let lex = self.source.as_str().substring_char(self.start, end).to_owned();
        let t = Token::number_literal(Decimal { mantissa, scale }, lex.as_str(), self.line);
        proof {
            lemma_tok_views_push(self.tokens@, t);
        }
        self.tokens.push(t);
        proof {
            let st = number_step(src, old(self).start as int, old(self).line as int);
            assert(tok_views(self.tokens@) =~= tok_views(old(self).tokens@) + st.toks);
            assert(err_views(self.errors@) =~= err_views(old(self).errors@) + st.errs);
        }
    }

    fn identifier(&mut self)
        requires
            old(self).wf(),
            old(self).start + 1 == old(self).current,
        ensures
            final(self).wf(),
            step_applied(
                *old(self),
                *final(self),
                ident_step(old(self).source@, old(self).start as int, old(self).line as int),
            ),
    {
        let ghost src = old(self).source@;
        self.advance_alpha();
        let text = self.source.as_str().substring_char(self.start, self.current).to_owned();
        match keyword_lookup(&text) {
            Option::Some(typ) => {
                self.add_token(typ);
                proof {
                    let st = ident_step(src, old(self).start as int, old(self).line as int);
                    assert(tok_views(self.tokens@) =~= tok_views(old(self).tokens@) + st.toks);
                    assert(err_views(self.errors@) =~= err_views(old(self).errors@) + st.errs);
                }
            },
            Option::None => {
                let t = Token::identifier(text.as_str(), self.line);
                proof {
                    lemma_tok_views_push(self.tokens@, t);
                }
                self.tokens.push(t);
                proof {
                    let st = ident_step(src, old(self).start as int, old(self).line as int);
                    assert(tok_views(self.tokens@) =~= tok_views(old(self).tokens@) + st.toks);
                    assert(err_views(self.errors@) =~= err_views(old(self).errors@) + st.errs);
                }
            },
        }
    }

    /// Scan a single token (or skip whitespace or a comment, or record a
    /// lexical error) from the current position.
    fn scan_token(&mut self)
        requires
            old(self).wf(),
            old(self).start == old(self).current,
            old(self).current < old(self).source_chars@.len(),
        ensures
            final(self).wf(),
            step_applied(
                *old(self),
                *final(self),
                scan_step(old(self).source@, old(self).current as int, old(self).line as int),
            ),
    {
        let ghost src = old(self).source@;
        let c = self.advance();
        match c {
            '(' => {
                self.add_token(TokenType::LeftParen);
                proof {
                    let st = scan_step(src, old(self).current as int, old(self).line as int);
                    assert(tok_views(self.tokens@) =~= tok_views(old(self).tokens@) + st.toks);
                    assert(err_views(self.errors@) =~= err_views(old(self).errors@) + st.errs);
                }
            },
            ')' => {
                self.add_token(TokenType::RightParen);
                proof {
                    let st = scan_step(src, old(self).current as int, old(self).line as int);
                    assert(tok_views(self.tokens@) =~= tok_views(old(self).tokens@) + st.toks);
                    assert(err_views(self.errors@) =~= err_views(old(self).errors@) + st.errs);
                }
            },
            '{' => {
                self.add_token(TokenType::LeftBrace);
                proof {
                    let st = scan_step(src, old(self).current as int, old(self).line as int);
                    assert(tok_views(self.tokens@) =~= tok_views(old(self).tokens@) + st.toks);
                    assert(err_views(self.errors@) =~= err_views(old(self).errors@) + st.errs);
                }
            },
            '}' => {
                self.add_token(TokenType::RightBrace);
                proof {
                    let st = scan_step(src, old(self).current as int, old(self).line as int);
                    assert(tok_views(self.tokens@) =~= tok_views(old(self).tokens@) + st.toks);
                    assert(err_views(self.errors@) =~= err_views(old(self).errors@) + st.errs);
                }
            },
            ',' => {
                self.add_token(TokenType::Comma);
                proof {
                    let st = scan_step(src, old(self).current as int, old(self).line as int);
                    assert(tok_views(self.tokens@) =~= tok_views(old(self).tokens@) + st.toks);
                    assert(err_views(self.errors@) =~= err_views(old(self).errors@) + st.errs);
                }
            },
            '.' => {
                self.add_token(TokenType::Dot);
                proof {
                    let st = scan_step(src, old(self).current as int, old(self).line as int);
                    assert(tok_views(self.tokens@) =~= tok_views(old(self).tokens@) + st.toks);
                    assert(err_views(self.errors@) =~= err_views(old(self).errors@) + st.errs);
                }
            },
            '-' => {
                self.add_token(TokenType::Minus);
                proof {
                    let st = scan_step(src, old(self).current as int, old(self).line as int);
                    assert(tok_views(self.tokens@) =~= tok_views(old(self).tokens@) + st.toks);
                    assert(err_views(self.errors@) =~= err_views(old(self).errors@) + st.errs);
                }
            },
            '+' => {
                self.add_token(TokenType::Plus);
                proof {
                    let st = scan_step(src, old(self).current as int, old(self).line as int);
                    assert(tok_views(self.tokens@) =~= tok_views(old(self).tokens@) + st.toks);
                    assert(err_views(self.errors@) =~= err_views(old(self).errors@) + st.errs);
                }
            },
            ';' => {
                self.add_token(TokenType::Semicolon);
                proof {
                    let st = scan_step(src, old(self).current as int, old(self).line as int);
                    assert(tok_views(self.tokens@) =~= tok_views(old(self).tokens@) + st.toks);
                    assert(err_views(self.errors@) =~= err_views(old(self).errors@) + st.errs);
                }
            },
            '/' => {
                self.comment_or_slash();
            },
            '*' => {
                self.add_token(TokenType::Star);
                proof {
                    let st = scan_step(src, old(self).current as int, old(self).line as int);
                    assert(tok_views(self.tokens@) =~= tok_views(old(self).tokens@) + st.toks);
                    assert(err_views(self.errors@) =~= err_views(old(self).errors@) + st.errs);
                }
            },
            '!' => {
                self.add_alternatives('=', TokenType::BangEqual, TokenType::Bang);
            },
            '=' => {
                self.add_alternatives('=', TokenType::EqualEqual, TokenType::Equal);
            },
            '>' => {
                self.add_alternatives('=', TokenType::GreaterEqual, TokenType::Greater);
            },
            '<' => {
                self.add_alternatives('=', TokenType::LessEqual, TokenType::Less);
            },
            '"' => {
                self.string();
            },
            other => {
                if char_is_digit(other) {
                    self.number();
                } else if is_whitespace_char(other) {
                    if other == '\n' {
                        self.line = self.line + 1;
                    }
                    proof {
                        let st = scan_step(src, old(self).current as int, old(self).line as int);
                        assert(tok_views(self.tokens@) =~= tok_views(old(self).tokens@) + st.toks);
                        assert(err_views(self.errors@) =~= err_views(old(self).errors@) + st.errs);
                    }
                } else if is_alphabetic_char(other) {
                    self.identifier();
                } else {
                    let line = self.line;
                    self.error(LexError::UnrecognizedChar { ch: other, line });
                    proof {
                        let st = scan_step(src, old(self).current as int, old(self).line as int);
                        assert(tok_views(self.tokens@) =~= tok_views(old(self).tokens@) + st.toks);
                        assert(err_views(self.errors@) =~= err_views(old(self).errors@) + st.errs);
                    }
                }
            },
        }
    }

    /// Scan the whole remaining input, then append the single end-of-stream
    /// token.  Starting from a fresh scanner, the output is exactly the
    /// model's token sequence: every token the model gives, in order, and
    /// end-of-stream last and nowhere else.
    #[verifier::loop_isolation(false)]
    pub fn scan_tokens(&mut self)
        requires
            old(self).wf(),
        ensures
            final(self).wf(),
            final(self).source@ == old(self).source@,
            ({
                let out = scan_rest(old(self).source@, old(self).current as int, old(self).line as int);
                &&& tok_views(final(self).tokens@) == tok_views(old(self).tokens@) + out.toks
                    + seq![eof_model(out.line)]
                &&& err_views(final(self).errors@) == err_views(old(self).errors@) + out.errs
                &&& final(self).had_error == (old(self).had_error || out.errs.len() > 0)
                &&& final(self).line as int == out.line
            }),
            old(self).tokens@.len() == 0 ==> {
                &&& final(self).tokens@.len() >= 1
                &&& final(self).tokens@[final(self).tokens@.len() - 1]@.tok_type == TokenType::Eof
                &&& forall|k: int|
                    0 <= k < final(self).tokens@.len() - 1
                        ==> (#[trigger] final(self).tokens@[k])@.tok_type != TokenType::Eof
            },
    {
        let ghost src = old(self).source@;
        let ghost base = scan_rest(src, old(self).current as int, old(self).line as int);
        while self.current < self.source_chars.len()
            invariant
                self.wf(),
                self.source@ == src,
                base == scan_rest(src, old(self).current as int, old(self).line as int),
                tok_views(old(self).tokens@) + base.toks == tok_views(self.tokens@) + scan_rest(
                    src,
                    self.current as int,
                    self.line as int,
                ).toks,
                err_views(old(self).errors@) + base.errs == err_views(self.errors@) + scan_rest(
                    src,
                    self.current as int,
                    self.line as int,
                ).errs,
                base.line == scan_rest(src, self.current as int, self.line as int).line,
                self.errors@.len() >= old(self).errors@.len(),
                self.had_error == (old(self).had_error || self.errors@.len() > old(self).errors@.len()),
                self.tokens@.len() >= old(self).tokens@.len(),
            decreases self.source_chars@.len() - self.current,
        {
            self.start = self.current;
            let ghost prev = *self;
            self.scan_token();
            proof {
                lemma_scan_step_progress(src, prev.current as int, prev.line as int);
                let st = scan_step(src, prev.current as int, prev.line as int);
                let rest_pre = scan_rest(src, prev.current as int, prev.line as int);
                let rest_post = scan_rest(src, self.current as int, self.line as int);
                assert(rest_pre.toks =~= st.toks + rest_post.toks);
                assert(rest_pre.errs =~= st.errs + rest_post.errs);
                assert(tok_views(old(self).tokens@) + base.toks =~= tok_views(self.tokens@)
                    + rest_post.toks);
                assert(err_views(old(self).errors@) + base.errs =~= err_views(self.errors@)
                    + rest_post.errs);
                assert(err_views(self.errors@).len() == self.errors@.len());
                assert(err_views(prev.errors@).len() == prev.errors@.len());
                assert(tok_views(self.tokens@).len() == self.tokens@.len());
                assert(tok_views(prev.tokens@).len() == prev.tokens@.len());
            }
        }
        proof {
            assert(scan_rest(src, self.current as int, self.line as int).toks
                =~= Seq::<TokenModel>::empty());
            assert(scan_rest(src, self.current as int, self.line as int).errs
                =~= Seq::<LexErrorModel>::empty());
            assert(tok_views(old(self).tokens@) + base.toks =~= tok_views(self.tokens@));
            assert(err_views(old(self).errors@) + base.errs =~= err_views(self.errors@));
        }
        let t = Token::eof(self.line);
        proof {
            lemma_tok_views_push(self.tokens@, t);
        }
        self.tokens.push(t);
        proof {
            assert(tok_views(self.tokens@) =~= tok_views(old(self).tokens@) + base.toks
                + seq![eof_model(base.line)]);
            assert(err_views(self.errors@).len() == self.errors@.len());
            assert(err_views(old(self).errors@).len() == old(self).errors@.len());
            if old(self).tokens@.len() == 0 {
                lemma_scan_rest_no_eof(src, old(self).current as int, old(self).line as int);
                assert(tok_views(old(self).tokens@) =~= Seq::<TokenModel>::empty());
                assert(tok_views(self.tokens@) =~= base.toks + seq![eof_model(base.line)]);
                assert forall|k: int| 0 <= k < self.tokens@.len() - 1
                    implies (#[trigger] self.tokens@[k])@.tok_type != TokenType::Eof by {
                    assert(self.tokens@[k]@ == tok_views(self.tokens@)[k]);
                    assert(tok_views(self.tokens@)[k] == base.toks[k]);
                }
                assert(self.tokens@[self.tokens@.len() - 1]@ == eof_model(base.line));
            }
        }
    }
}

} // verus!
