//! Failures a single tokenization step can report.

use vstd::prelude::*;

verus! {

/// How a tokenization step can fail.
#[derive(Debug, PartialEq, Eq, Clone, Copy)]
pub enum LexerError {
    /// No characters left. This is the ordinary end-of-stream signal the
    /// parser relies on, not a defect of the input.
    EOF,
    /// A character that cannot start any token.
    UnknownToken,
}

pub type LexerRes<T> = Result<T, LexerError>;

} // verus!
