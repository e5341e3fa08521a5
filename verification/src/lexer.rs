//! The lexer: source text to tokens.

pub mod error;
pub mod token;
pub mod tokenizer;
