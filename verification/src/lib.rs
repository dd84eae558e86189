//! The front end and expression evaluator of a small dynamically-typed
//! scripting language: a scanner from source text to a token sequence, a
//! recursive-descent parser from tokens to one expression tree, and an
//! evaluator from trees to runtime values.
//!
//! Each stage is specified by a functional model over mathematical values
//! (`lexer::scan_rest`, `parser::ps_parse`, `interpreter::eval_spec`) and
//! proved to produce exactly what its model gives.  Numeric payloads are
//! exact decimals and rationals (`number`), extended with infinities and a
//! not-a-number value so that division by zero never fails.

pub mod ast;
pub mod interpreter;
pub mod lexer;
pub mod number;
pub mod parser;
