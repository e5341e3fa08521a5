//! The parser: tokens to an expression tree.

pub mod ast;
pub mod error;
pub mod lexer;
