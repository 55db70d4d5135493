//! Front end for a small C-like language: a byte lexer and a recursive-descent
//! parser with precedence climbing, both specified by spec functions.
pub mod ast;
pub mod lexer;
pub mod parser;
