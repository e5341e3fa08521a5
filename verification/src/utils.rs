//! The error taxonomy shared by the parser and the evaluator.

use vstd::prelude::*;
use vstd::string::StrSliceExecFns;

verus! {

/// Every way a source program can fail, from tokenization through evaluation.
///
/// Lexical, syntactic and runtime failures are distinct variants and are never
/// conflated: each stage stops at the first error and hands it up unchanged.
#[derive(Debug, PartialEq, Eq, Clone, Copy)]
pub enum SError {
    /// The token stream ended where the grammar required more tokens.
    LexerEOF,
    /// A character that cannot start any token.
    LexerUnknownToken,

    /// A parenthesized expression without its closing `)`.
    ParserExpectedClosingParen,

    /// A numeric literal whose text is empty, holds a non-digit, or does not
    /// fit in a 32-bit signed integer.
    ParserInvalidNumber,

    /// `fn` not followed by the function's name.
    ParserInvalidFunctionNoName,
    /// A function's name not followed by `(`.
    ParserInvalidFunctionNoLParen,
    /// Two parameter names without a separating comma.
    ParserInvalidFunctionMissingComma,
    /// A leading or doubled comma in a parameter list.
    ParserInvalidFunctionExtraComma,
    /// A trailing comma in a parameter list, where one more name was owed.
    ParserInvalidFunctionExpectedParam,
    /// A token that can never appear inside a parameter list.
    ParserInvalidFunctionInvalidToken,

    /// A call's arguments not opened by `(`.
    ParserInvalidCallNoLParen,
    /// Two call arguments without a separating comma.
    ParserInvalidCallMissingComma,

    /// A token in expression position that no grammar rule accepts.
    ParserUnexpectedToken,

    /// An operand of an arithmetic, comparison or logical operator that has no
    /// numeric coercion (a function value).
    VMCannotConvertToNumber,
    /// An assignment whose left operand is not a variable reference.
    VMCannotAssignNonVariable,
    /// A call whose callee name is bound to a non-function value.
    VMCannotCallNonFunction,
    /// A call whose argument count differs from the parameter count.
    VMMismatchArgumentListLength,
    /// A call whose callee name is not bound at all.
    VMVariableDoesntExist,
    /// A division whose divisor is zero, or whose exact quotient does not fit
    /// in a 32-bit signed integer.
    VMDivisionByZero,
    /// An expression variant the evaluator does not cover, or an operator
    /// symbol it does not know.
    VMUnsupportedExpression,
    /// Call nesting deeper than the fuel given to the evaluator.
    VMRecursionLimit,
}

pub type SRes<T> = Result<T, SError>;

/// Character-by-character string comparison, proved against the views.
pub fn str_eq(a: &str, b: &str) -> (r: bool)
    ensures
        r == (a@ == b@),
{
    let alen = a.unicode_len();
    let blen = b.unicode_len();
    if alen != blen {
        proof {
            assert(a@ =~= b@ ==> a@.len() == b@.len());
        }
        return false;
    }
    let mut i: usize = 0;
    while i < alen
        invariant
            alen == a@.len(),
            alen == b@.len(),
            i <= alen,
            forall|j: int| 0 <= j < i ==> a@[j] == b@[j],
        decreases alen - i,
    {
        if a.get_char(i) != b.get_char(i) {
            proof {
                assert(a@[i as int] != b@[i as int]);
            }
            return false;
        }
        i = i + 1;
    }
    proof {
        assert(a@ =~= b@);
    }
    true
}

} // verus!
