//! A small-language front end and evaluator: source text is scanned into a
//! token stream, the token stream is parsed into an abstract syntax tree, and
//! the tree is walked to produce a runtime value or an error.

pub mod error;
pub mod lexer;
pub mod parser;
pub mod interpreter;
