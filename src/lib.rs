//! An untyped lambda calculus: lexer, parser, substitution, an environment-passing
//! evaluator with closures as values, and read-back of values into terms.

pub mod ast;
pub mod interpreter;
pub mod lexer;
pub mod parser;
pub mod round_trip;
pub mod text;
