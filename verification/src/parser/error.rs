//! The parser's own error vocabulary.
//!
//! The parsing functions themselves report through the shared
//! [`crate::utils::SError`], which embeds these cases alongside the lexical
//! and runtime ones; this enum names the syntactic failures on their own.

use vstd::prelude::*;

verus! {

/// A syntactic failure.
#[derive(Debug, PartialEq, Eq, Clone, Copy)]
pub enum ParserError {
    /// The token stream ended where the grammar required more tokens.
    EOF,
    /// A parenthesized expression without its closing `)`.
    ExpectedClosingParen,

    /// A numeric literal that does not denote a 32-bit signed integer.
    InvalidNumber,

    /// `fn` not followed by the function's name.
    InvalidFunctionNoName,
    /// A function's name not followed by `(`.
    InvalidFunctionNoLParen,
    /// Two parameter names without a separating comma.
    InvalidFunctionMissingComma,
    /// A leading or doubled comma in a parameter list.
    InvalidFunctionExtraComma,
    /// A trailing comma in a parameter list, where one more name was owed.
    InvalidFunctionExpectedParam,
    /// A token that can never appear inside a parameter list.
    InvalidFunctionInvalidToken,
}

pub type ParserRes<T> = Result<T, ParserError>;

} // verus!
