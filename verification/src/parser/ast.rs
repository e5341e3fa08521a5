//! The expression tree and the parser that builds it.
//!
//! The grammar is recursive descent with a primary/operator split: a primary
//! expression is parsed by dispatch on one token, and binary operators are
//! resolved by precedence climbing. The executable parser is proved equal to
//! the spec-level parser `sp_parse`, a function from a token sequence, the
//! failure that ended tokenization, and a position to an expression and the
//! position just past it.

use vstd::prelude::*;
use vstd::string::{StrSliceExecFns, StringExecFns};
use crate::lexer::error::LexerError;
use crate::lexer::token::{sp_token_text, spec_precedence, Token, TokenV};
use crate::lexer::tokenizer::{sp_lex, tokenize, Tokens};
use crate::utils::{str_eq, SError, SRes};

verus! {

/// A node of the expression tree. Once built the tree is immutable; each node
/// owns its children outright.
#[derive(Debug, PartialEq)]
pub enum Expr {
    /// The `none` literal.
    NoneLit,
    Bool(bool),
    Number(i32),
    /// An ordered sequence of expressions; its value is the last one's.
    Block(Vec<Expr>),
    /// A function literal: parameter names and a body.
    Function { params: Vec<String>, body: Box<Expr> },
    Return(Box<Expr>),
    /// A variable read, by name.
    VarRef(String),
    /// A call of a named function.
    Call { callee: String, args: Vec<Expr> },
    /// A binary operation, carrying the operator's source text.
    BinaryOp { op: String, lhs: Box<Expr>, rhs: Box<Expr> },
}

/// The mathematical model of an expression.
pub enum ExprV {
    NoneLit,
    Bool(bool),
    Number(i32),
    Block(Seq<ExprV>),
    Function { params: Seq<Seq<char>>, body: Box<ExprV> },
    Return(Box<ExprV>),
    VarRef(Seq<char>),
    Call { callee: Seq<char>, args: Seq<ExprV> },
    BinaryOp { op: Seq<char>, lhs: Box<ExprV>, rhs: Box<ExprV> },
}

/// The views of a sequence of names.
pub open spec fn names_view(ss: Seq<String>) -> Seq<Seq<char>> {
    Seq::new(ss.len(), |i: int| ss[i]@)
}

pub open spec fn expr_view(e: Expr) -> ExprV
    decreases e,
{
    match e {
        Expr::NoneLit => ExprV::NoneLit,
        Expr::Bool(b) => ExprV::Bool(b),
        Expr::Number(x) => ExprV::Number(x),
        Expr::Block(es) => ExprV::Block(exprs_view(es@)),
        Expr::Function { params, body } => ExprV::Function {
            params: names_view(params@),
            body: Box::new(expr_view(*body)),
        },
        Expr::Return(e) => ExprV::Return(Box::new(expr_view(*e))),
        Expr::VarRef(s) => ExprV::VarRef(s@),
        Expr::Call { callee, args } => ExprV::Call {
            callee: callee@,
            args: exprs_view(args@),
        },
        Expr::BinaryOp { op, lhs, rhs } => ExprV::BinaryOp {
            op: op@,
            lhs: Box::new(expr_view(*lhs)),
            rhs: Box::new(expr_view(*rhs)),
        },
    }
}

pub open spec fn exprs_view(es: Seq<Expr>) -> Seq<ExprV>
    decreases es,
{
    if es.len() == 0 {
        Seq::empty()
    } else {
        exprs_view(es.drop_last()).push(expr_view(es.last()))
    }
}

impl View for Expr {
    type V = ExprV;

    open spec fn view(&self) -> ExprV {
        expr_view(*self)
    }
}

/// The view of a parsing result.
pub open spec fn parse_res_view(r: SRes<Expr>) -> Result<ExprV, SError> {
    match r {
        Ok(e) => Ok(e@),
        Err(er) => Err(er),
    }
}

// ---------------------------------------------------------------------------
// Numeric literals.
// ---------------------------------------------------------------------------

pub open spec fn all_digits(s: Seq<char>) -> bool {
    forall|i: int| 0 <= i < s.len() ==> crate::lexer::token::is_digit_char(#[trigger] s[i])
}

pub open spec fn digit_val(c: char) -> int {
    c as u32 - 48
}

/// The value of a digit string read in base ten.
pub open spec fn digits_val(s: Seq<char>) -> int
    decreases s.len(),
{
    if s.len() == 0 {
        0
    } else {
        digits_val(s.drop_last()) * 10 + digit_val(s.last())
    }
}

/// What a numeric literal's text denotes: its base-ten value, provided the
/// text is a non-empty digit string and the value fits in an `i32`.
pub open spec fn sp_parse_number(s: Seq<char>) -> Result<ExprV, SError> {
    if s.len() > 0 && all_digits(s) && digits_val(s) <= i32::MAX {
        Ok(ExprV::Number(digits_val(s) as i32))
    } else {
        Err(SError::ParserInvalidNumber)
    }
}

pub proof fn lemma_digits_val_nonneg(s: Seq<char>)
    requires
        all_digits(s),
    ensures
        digits_val(s) >= 0,
    decreases s.len(),
{
    if s.len() > 0 {
        assert(all_digits(s.drop_last())) by {
            assert forall|i: int| 0 <= i < s.drop_last().len() implies
                crate::lexer::token::is_digit_char(#[trigger] s.drop_last()[i]) by {
                assert(s.drop_last()[i] == s[i]);
            }
        }
        lemma_digits_val_nonneg(s.drop_last());
        assert(crate::lexer::token::is_digit_char(s.last()));
    }
}

/// Reading one more digit multiplies the value by ten and adds the digit.
pub proof fn lemma_digits_val_push(s: Seq<char>, c: char)
    ensures
        digits_val(s.push(c)) == digits_val(s) * 10 + digit_val(c),
{
    assert(s.push(c).drop_last() =~= s);
    assert(s.push(c).last() == c);
}

/// A digit string's value only grows as more digits follow.
pub proof fn lemma_digits_val_prefix_le(s: Seq<char>, i: int)
    requires
        all_digits(s),
        0 <= i <= s.len(),
    ensures
        digits_val(s.subrange(0, i)) <= digits_val(s),
    decreases s.len() - i,
{
    if i < s.len() {
        assert(s.subrange(0, i + 1).drop_last() =~= s.subrange(0, i));
        assert(s.subrange(0, i + 1).last() == s[i]);
        assert(all_digits(s.subrange(0, i))) by {
            assert forall|j: int| 0 <= j < i implies crate::lexer::token::is_digit_char(
                #[trigger] s.subrange(0, i)[j],
            ) by {
                assert(s.subrange(0, i)[j] == s[j]);
            }
        }
        lemma_digits_val_nonneg(s.subrange(0, i));
        assert(crate::lexer::token::is_digit_char(s[i]));
        assert(digits_val(s.subrange(0, i + 1)) >= digits_val(s.subrange(0, i)));
        lemma_digits_val_prefix_le(s, i + 1);
    } else {
        assert(s.subrange(0, i) =~= s);
    }
}

/// The lengths and elements of a viewed expression sequence.
pub proof fn lemma_exprs_view_index(es: Seq<Expr>)
    ensures
        exprs_view(es).len() == es.len(),
        forall|i: int| 0 <= i < es.len() ==> exprs_view(es)[i] == #[trigger] es[i]@,
    decreases es.len(),
{
    if es.len() > 0 {
        lemma_exprs_view_index(es.drop_last());
        assert forall|i: int| 0 <= i < es.len() implies exprs_view(es)[i] == #[trigger] es[i]@ by {
            if i < es.len() - 1 {
                assert(es.drop_last()[i] == es[i]);
            }
        }
    }
}

// ---------------------------------------------------------------------------
// The spec-level parser.
//
// Each function takes the token sequence, the failure that ended tokenization
// (`term`), and a position, and returns the parse result together with the
// position just past what it consumed. Running out of tokens surfaces `term`:
// only the ordinary end of input is ever benign, and only where the grammar
// allows the expression to end; a stream cut short by an unknown character
// fails with that error wherever the parser reaches its end. The functions
// mirror the grammar exactly; the second `decreases` component orders the
// mutually recursive calls that stay at one position. Where a recursive call
// continues at a position computed by a sub-parse, the position runs through
// `sp_clamp`, whose bounds the executable parser proves it never exceeds, so
// the clamp never changes a value that actually occurs.
// ---------------------------------------------------------------------------

/// How the parser reports a lexer failure of its token source.
pub open spec fn sp_term_error(e: LexerError) -> SError {
    match e {
        LexerError::EOF => SError::LexerEOF,
        LexerError::UnknownToken => SError::LexerUnknownToken,
    }
}

pub open spec fn sp_clamp(p: int, lo: int, hi: int) -> int {
    let q = if p < lo {
        lo
    } else {
        p
    };
    if q > hi {
        hi
    } else {
        q
    }
}

/// Parses one expression starting with the next token of the stream.
pub open spec fn sp_parse(t: Seq<TokenV>, term: SError, p: int) -> (Result<ExprV, SError>, int)
    decreases t.len() - p, 0int,
{
    if !(0 <= p && p < t.len()) {
        (Err(term), p)
    } else {
        sp_parse_tok(t[p], t, term, p + 1)
    }
}

/// Parses one expression whose first token has already been consumed: a
/// primary expression, then a climb through any binary operators after it.
/// The stream ending right after a complete primary is well-formed only when
/// it ended in the ordinary way.
pub open spec fn sp_parse_tok(tok: TokenV, t: Seq<TokenV>, term: SError, p: int) -> (
    Result<ExprV, SError>,
    int,
)
    decreases t.len() - p, 3int,
{
    let pr = sp_parse_primary(tok, t, term, p);
    match pr.0 {
        Err(e) => (Err(e), pr.1),
        Ok(lhs) => {
            let p1 = sp_clamp(pr.1, p, t.len() as int);
            if !(p1 < t.len()) {
                if term == SError::LexerEOF {
                    (Ok(lhs), p1)
                } else {
                    (Err(term), p1)
                }
            } else {
                sp_parse_binop_rhs(0, lhs, t, term, p1)
            }
        },
    }
}

/// Dispatches on an already-consumed token: literal, block, parenthesized
/// expression, function statement, return, or identifier. The reserved words
/// `none`, `true` and `false` read as literals, never as variables.
pub open spec fn sp_parse_primary(tok: TokenV, t: Seq<TokenV>, term: SError, p: int) -> (
    Result<ExprV, SError>,
    int,
)
    decreases t.len() - p, 2int,
{
    match tok {
        TokenV::Number(s) => (sp_parse_number(s), p),
        TokenV::Identifier(s) => {
            if s == "none"@ {
                (Ok(ExprV::NoneLit), p)
            } else if s == "true"@ {
                (Ok(ExprV::Bool(true)), p)
            } else if s == "false"@ {
                (Ok(ExprV::Bool(false)), p)
            } else {
                sp_parse_identifier(s, t, term, p)
            }
        },
        TokenV::LBrack => {
            let r = sp_block_items(t, term, p);
            match r.0 {
                Err(e) => (Err(e), r.1),
                Ok(es) => (Ok(ExprV::Block(es)), r.1),
            }
        },
        TokenV::LParen => sp_parse_paren(t, term, p),
        TokenV::Function => sp_parse_function(t, term, p),
        TokenV::Return => sp_parse_return(t, term, p),
        _ => (Err(SError::ParserUnexpectedToken), p),
    }
}

/// The expressions of a block, one after another, up to the closing `}`. A
/// stream that ends inside the block is a failure: the terminator, whichever
/// it was.
pub open spec fn sp_block_items(t: Seq<TokenV>, term: SError, p: int) -> (
    Result<Seq<ExprV>, SError>,
    int,
)
    decreases t.len() - p, 1int,
{
    if !(0 <= p && p < t.len()) {
        (Err(term), p)
    } else if t[p] is RBrack {
        (Ok(Seq::empty()), p + 1)
    } else {
        let r = sp_parse_tok(t[p], t, term, p + 1);
        match r.0 {
            Err(e) => (Err(e), r.1),
            Ok(e0) => {
                let p1 = sp_clamp(r.1, p + 1, t.len() as int);
                let rr = sp_block_items(t, term, p1);
                match rr.0 {
                    Err(e) => (Err(e), rr.1),
                    Ok(rest) => (Ok(seq![e0] + rest), rr.1),
                }
            },
        }
    }
}

/// A parenthesized sub-expression, which owes its closing `)`: the ordinary
/// end of input here is the missing-parenthesis error, any other terminator
/// keeps its own name.
pub open spec fn sp_parse_paren(t: Seq<TokenV>, term: SError, p: int) -> (
    Result<ExprV, SError>,
    int,
)
    decreases t.len() - p, 1int,
{
    let r = sp_parse(t, term, p);
    match r.0 {
        Err(e) => (Err(e), r.1),
        Ok(expr) => {
            if 0 <= r.1 && r.1 < t.len() {
                if t[r.1] is RParen {
                    (Ok(expr), r.1 + 1)
                } else {
                    (Err(SError::ParserExpectedClosingParen), r.1 + 1)
                }
            } else if term == SError::LexerEOF {
                (Err(SError::ParserExpectedClosingParen), r.1)
            } else {
                (Err(term), r.1)
            }
        },
    }
}

/// The inside of a parameter list. `first` says no token of the list has been
/// read yet; `expect_id` says a parameter name is owed next (at the start, and
/// after each comma).
pub open spec fn sp_params_inner(
    t: Seq<TokenV>,
    term: SError,
    p: int,
    first: bool,
    expect_id: bool,
    acc: Seq<Seq<char>>,
) -> (Result<Seq<Seq<char>>, SError>, int)
    decreases t.len() - p, 1int,
{
    if !(0 <= p && p < t.len()) {
        (Err(term), p)
    } else {
        match t[p] {
            TokenV::Identifier(s) => {
                if expect_id {
                    sp_params_inner(t, term, p + 1, false, false, acc.push(s))
                } else {
                    (Err(SError::ParserInvalidFunctionMissingComma), p + 1)
                }
            },
            TokenV::Comma => {
                if !expect_id {
                    sp_params_inner(t, term, p + 1, false, true, acc)
                } else {
                    (Err(SError::ParserInvalidFunctionExtraComma), p + 1)
                }
            },
            TokenV::RParen => {
                if !expect_id || first {
                    (Ok(acc), p + 1)
                } else {
                    (Err(SError::ParserInvalidFunctionExpectedParam), p + 1)
                }
            },
            _ => (Err(SError::ParserInvalidFunctionInvalidToken), p + 1),
        }
    }
}

/// A parenthesized, comma-separated parameter-name list: empty is legal;
/// leading, doubled and trailing commas, missing commas, and foreign tokens
/// are each their own error.
pub open spec fn sp_parse_params(t: Seq<TokenV>, term: SError, p: int) -> (
    Result<Seq<Seq<char>>, SError>,
    int,
)
    decreases t.len() - p, 1int,
{
    if !(0 <= p && p < t.len()) {
        (Err(term), p)
    } else if !(t[p] is LParen) {
        (Err(SError::ParserInvalidFunctionNoLParen), p + 1)
    } else {
        sp_params_inner(t, term, p + 1, true, true, Seq::empty())
    }
}

/// A function statement: name, parameter list, body. It desugars into an
/// assignment of a function literal to a variable of the same name.
pub open spec fn sp_parse_function(t: Seq<TokenV>, term: SError, p: int) -> (
    Result<ExprV, SError>,
    int,
)
    decreases t.len() - p, 1int,
{
    if !(0 <= p && p < t.len()) {
        (Err(term), p)
    } else {
        match t[p] {
            TokenV::Identifier(name) => {
                let pr = sp_parse_params(t, term, p + 1);
                match pr.0 {
                    Err(e) => (Err(e), pr.1),
                    Ok(params) => {
                        let p1 = sp_clamp(pr.1, p + 1, t.len() as int);
                        let br = sp_parse(t, term, p1);
                        match br.0 {
                            Err(e) => (Err(e), br.1),
                            Ok(body) => (
                                Ok(
                                    ExprV::BinaryOp {
                                        op: "="@,
                                        lhs: Box::new(ExprV::VarRef(name)),
                                        rhs: Box::new(
                                            ExprV::Function { params, body: Box::new(body) },
                                        ),
                                    },
                                ),
                                br.1,
                            ),
                        }
                    },
                }
            },
            _ => (Err(SError::ParserInvalidFunctionNoName), p + 1),
        }
    }
}

/// `return` wrapping a parsed sub-expression.
pub open spec fn sp_parse_return(t: Seq<TokenV>, term: SError, p: int) -> (
    Result<ExprV, SError>,
    int,
)
    decreases t.len() - p, 1int,
{
    let r = sp_parse(t, term, p);
    match r.0 {
        Err(e) => (Err(e), r.1),
        Ok(e) => (Ok(ExprV::Return(Box::new(e))), r.1),
    }
}

/// An identifier in expression position: a call when `(` follows at once,
/// else a variable reference.
pub open spec fn sp_parse_identifier(s: Seq<char>, t: Seq<TokenV>, term: SError, p: int) -> (
    Result<ExprV, SError>,
    int,
)
    decreases t.len() - p, 1int,
{
    if 0 <= p && p < t.len() && t[p] is LParen {
        let ar = sp_parse_call_args(t, term, p + 1);
        match ar.0 {
            Err(e) => (Err(e), ar.1),
            Ok(args) => (Ok(ExprV::Call { callee: s, args }), ar.1),
        }
    } else {
        (Ok(ExprV::VarRef(s)), p)
    }
}

/// A call's argument list after its `(`: either an immediate `)`, or
/// comma-separated expressions up to a `)`.
pub open spec fn sp_parse_call_args(t: Seq<TokenV>, term: SError, p: int) -> (
    Result<Seq<ExprV>, SError>,
    int,
)
    decreases t.len() - p, 2int,
{
    if 0 <= p && p < t.len() && t[p] is RParen {
        (Ok(Seq::empty()), p + 1)
    } else {
        sp_call_args_rest(t, term, p)
    }
}

/// One or more call arguments: an expression, then `)` to finish or `,` to
/// continue. Anything else after an argument is a missing comma.
pub open spec fn sp_call_args_rest(t: Seq<TokenV>, term: SError, p: int) -> (
    Result<Seq<ExprV>, SError>,
    int,
)
    decreases t.len() - p, 1int,
{
    let r = sp_parse(t, term, p);
    match r.0 {
        Err(e) => (Err(e), r.1),
        Ok(a0) => {
            let p1 = sp_clamp(r.1, p + 1, t.len() as int);
            if !(p1 < t.len()) {
                (Err(term), p1)
            } else if t[p1] is RParen {
                (Ok(seq![a0]), p1 + 1)
            } else if t[p1] is Comma {
                let rr = sp_call_args_rest(t, term, p1 + 1);
                match rr.0 {
                    Err(e) => (Err(e), rr.1),
                    Ok(rest) => (Ok(seq![a0] + rest), rr.1),
                }
            } else {
                (Err(SError::ParserInvalidCallMissingComma), p1 + 1)
            }
        },
    }
}

/// Precedence climbing above a parsed left operand. While the next token is
/// an operator binding at least as tightly as `min_prec`, it is consumed with
/// its right operand; a tighter operator after that climbs first, so equal
/// precedence groups to the left and higher precedence binds closer. The
/// stream's ordinary end before any pending operator is the well-formed end
/// of the expression; its end once an operator has been consumed, where an
/// operand was owed, is a terminal failure.
pub open spec fn sp_parse_binop_rhs(
    min_prec: int,
    lhs: ExprV,
    t: Seq<TokenV>,
    term: SError,
    p: int,
) -> (Result<ExprV, SError>, int)
    decreases t.len() - p, 1int,
{
    if !(0 <= p && p < t.len()) {
        if term == SError::LexerEOF {
            (Ok(lhs), p)
        } else {
            (Err(term), p)
        }
    } else {
        let tok_prec = spec_precedence(t[p]);
        if tok_prec < min_prec {
            (Ok(lhs), p)
        } else {
            let op = sp_token_text(t[p]);
            if !(p + 1 < t.len()) {
                (Err(term), p + 1)
            } else {
                let pr = sp_parse_primary(t[p + 1], t, term, p + 2);
                match pr.0 {
                    Err(e) => (Err(e), pr.1),
                    Ok(rhs0) => {
                        let p2 = sp_clamp(pr.1, p + 2, t.len() as int);
                        let next_prec = if p2 < t.len() {
                            spec_precedence(t[p2])
                        } else {
                            -1
                        };
                        if tok_prec < next_prec {
                            let cr = sp_parse_binop_rhs(tok_prec + 1, rhs0, t, term, p2);
                            match cr.0 {
                                Err(e) => (Err(e), cr.1),
                                Ok(rhs1) => {
                                    let p3 = sp_clamp(cr.1, p2, t.len() as int);
                                    sp_parse_binop_rhs(
                                        min_prec,
                                        ExprV::BinaryOp {
                                            op,
                                            lhs: Box::new(lhs),
                                            rhs: Box::new(rhs1),
                                        },
                                        t,
                                        term,
                                        p3,
                                    )
                                },
                            }
                        } else {
                            sp_parse_binop_rhs(
                                min_prec,
                                ExprV::BinaryOp { op, lhs: Box::new(lhs), rhs: Box::new(rhs0) },
                                t,
                                term,
                                p2,
                            )
                        }
                    },
                }
            }
        }
    }
}

// ---------------------------------------------------------------------------
// The executable parser, proved equal to the spec-level parser.
// ---------------------------------------------------------------------------

/// The view of a parsed parameter list.
pub open spec fn params_res_view(r: SRes<Vec<String>>) -> Result<Seq<Seq<char>>, SError> {
    match r {
        Ok(v) => Ok(names_view(v@)),
        Err(e) => Err(e),
    }
}

/// The view of a parsed expression list.
pub open spec fn exprs_res_view(r: SRes<Vec<Expr>>) -> Result<Seq<ExprV>, SError> {
    match r {
        Ok(v) => Ok(exprs_view(v@)),
        Err(e) => Err(e),
    }
}

/// The failure the stream ended with, in the parser's vocabulary.
fn stream_end_error(toks: &Tokens) -> (e: SError)
    ensures
        e == sp_term_error(toks.term()),
{
    match toks.terminator() {
        LexerError::EOF => SError::LexerEOF,
        LexerError::UnknownToken => SError::LexerUnknownToken,
    }
}

/// The next token without consuming it; the stream's end reports the failure
/// that ended tokenization.
fn peektok(toks: &Tokens) -> (r: SRes<Token>)
    requires
        toks.wf(),
    ensures
        match r {
            Ok(t) => toks.at() < toks.all().len() && t@ == toks.all()[toks.at()],
            Err(e) => e == sp_term_error(toks.term()) && toks.at() == toks.all().len(),
        },
{
    match toks.peek() {
        Some(t) => Ok(t.duplicate()),
        None => Err(stream_end_error(toks)),
    }
}

/// The next token, consumed; the stream's end reports the failure that ended
/// tokenization.
fn nexttok(toks: &mut Tokens) -> (r: SRes<Token>)
    requires
        old(toks).wf(),
    ensures
        final(toks).wf(),
        final(toks).all() == old(toks).all(),
        final(toks).term() == old(toks).term(),
        match r {
            Ok(t) => old(toks).at() < old(toks).all().len() && t@ == old(toks).all()[old(
                toks,
            ).at()] && final(toks).at() == old(toks).at() + 1,
            Err(e) => e == sp_term_error(old(toks).term()) && old(toks).at() == old(
                toks,
            ).all().len() && final(toks).at() == old(toks).at(),
        },
{
    match toks.next() {
        Some(t) => Ok(t),
        None => Err(stream_end_error(toks)),
    }
}

/// The `none` literal.
fn parse_none() -> (r: SRes<Expr>)
    ensures
        parse_res_view(r) == Ok::<ExprV, SError>(ExprV::NoneLit),
{
    Ok(Expr::NoneLit)
}

/// A boolean literal.
fn parse_bool(value: bool) -> (r: SRes<Expr>)
    ensures
        parse_res_view(r) == Ok::<ExprV, SError>(ExprV::Bool(value)),
{
    Ok(Expr::Bool(value))
}

/// Converts a numeric literal's text to its value, rejecting empty or
/// non-digit text and values over `i32::MAX`.
pub fn parse_number(s: &String) -> (r: SRes<Expr>)
    ensures
        parse_res_view(r) == sp_parse_number(s@),
{
    let n = s.as_str().unicode_len();
    if n == 0 {
        return Err(SError::ParserInvalidNumber);
    }
    let mut acc: i32 = 0;
    let mut i: usize = 0;
    while i < n
        invariant
            n == s@.len(),
            i <= n,
            all_digits(s@.subrange(0, i as int)),
            acc as int == digits_val(s@.subrange(0, i as int)),
            0 <= acc,
        decreases n - i,
    {
        let c = s.as_str().get_char(i);
        if !crate::lexer::token::digit_char(c) {
            proof {
                assert(!all_digits(s@));
            }
            return Err(SError::ParserInvalidNumber);
        }
        let d = (c as u32) as i32 - 48;
        if acc > (i32::MAX - d) / 10 {
            proof {
                assert(acc * 10 + d > i32::MAX);
                assert(s@.subrange(0, i as int).push(s@[i as int]) =~= s@.subrange(0, i + 1));
                lemma_digits_val_push(s@.subrange(0, i as int), s@[i as int]);
                assert(digits_val(s@.subrange(0, i + 1)) > i32::MAX);
                if all_digits(s@) {
                    lemma_digits_val_prefix_le(s@, i + 1);
                    assert(digits_val(s@) > i32::MAX);
                }
            }
            return Err(SError::ParserInvalidNumber);
        }
        proof {
            assert(acc * 10 + d <= i32::MAX);
            assert(s@.subrange(0, i as int).push(s@[i as int]) =~= s@.subrange(0, i + 1));
            lemma_digits_val_push(s@.subrange(0, i as int), s@[i as int]);
        }
        acc = acc * 10 + d;
        i = i + 1;
    }
    proof {
        assert(s@.subrange(0, n as int) =~= s@);
    }
    Ok(Expr::Number(acc))
}

/// Parses one expression from the front of the stream. The stream need not be
/// consumed entirely: what follows a complete expression is left in place.
pub fn parse(toks: &mut Tokens) -> (r: SRes<Expr>)
    requires
        old(toks).wf(),
    ensures
        final(toks).wf(),
        final(toks).all() == old(toks).all(),
        final(toks).term() == old(toks).term(),
        old(toks).at() <= final(toks).at() <= final(toks).all().len(),
        (parse_res_view(r), final(toks).at()) == sp_parse(
            old(toks).all(),
            sp_term_error(old(toks).term()),
            old(toks).at(),
        ),
        r is Ok ==> old(toks).at() < final(toks).at(),
    decreases toks.all().len() - toks.at(), 0int,
{
    let t = match nexttok(toks) {
        Ok(t) => t,
        Err(e) => {
            return Err(e);
        },
    };
    parse_tok(t, toks)
}

/// Parses an expression whose first token was already consumed.
fn parse_tok(t: Token, toks: &mut Tokens) -> (r: SRes<Expr>)
    requires
        old(toks).wf(),
    ensures
        final(toks).wf(),
        final(toks).all() == old(toks).all(),
        final(toks).term() == old(toks).term(),
        old(toks).at() <= final(toks).at() <= final(toks).all().len(),
        (parse_res_view(r), final(toks).at()) == sp_parse_tok(
            t@,
            old(toks).all(),
            sp_term_error(old(toks).term()),
            old(toks).at(),
        ),
    decreases toks.all().len() - toks.at(), 4int,
{
    let lhs = match parse_primary(t, toks) {
        Ok(e) => e,
        Err(e) => {
            return Err(e);
        },
    };
    match peektok(toks) {
        Err(SError::LexerEOF) => Ok(lhs),
        Err(e) => Err(e),
        Ok(_) => parse_binop_rhs(0, lhs, toks),
    }
}

/// Dispatches on an already-consumed token to the matching grammar rule.
fn parse_primary(t: Token, toks: &mut Tokens) -> (r: SRes<Expr>)
    requires
        old(toks).wf(),
    ensures
        final(toks).wf(),
        final(toks).all() == old(toks).all(),
        final(toks).term() == old(toks).term(),
        old(toks).at() <= final(toks).at() <= final(toks).all().len(),
        (parse_res_view(r), final(toks).at()) == sp_parse_primary(
            t@,
            old(toks).all(),
            sp_term_error(old(toks).term()),
            old(toks).at(),
        ),
    decreases toks.all().len() - toks.at(), 3int,
{
    match t {
        Token::Number(s) => parse_number(&s),
        Token::Identifier(s) => {
            if str_eq(s.as_str(), "none") {
                parse_none()
            } else if str_eq(s.as_str(), "true") {
                parse_bool(true)
            } else if str_eq(s.as_str(), "false") {
                parse_bool(false)
            } else {
                parse_identifier(&s, toks)
            }
        },
        Token::LBrack => parse_block(toks),
        Token::LParen => parse_paren(toks),
        Token::Function => parse_function(toks),
        Token::Return => parse_return(toks),
        _ => Err(SError::ParserUnexpectedToken),
    }
}

/// The expressions of a block, collected up to the closing brace.
fn collect_block_items(toks: &mut Tokens) -> (r: SRes<Vec<Expr>>)
    requires
        old(toks).wf(),
    ensures
        final(toks).wf(),
        final(toks).all() == old(toks).all(),
        final(toks).term() == old(toks).term(),
        old(toks).at() <= final(toks).at() <= final(toks).all().len(),
        (exprs_res_view(r), final(toks).at()) == sp_block_items(
            old(toks).all(),
            sp_term_error(old(toks).term()),
            old(toks).at(),
        ),
    decreases toks.all().len() - toks.at(), 1int,
{
    match nexttok(toks) {
        Err(e) => Err(e),
        Ok(Token::RBrack) => {
            let v: Vec<Expr> = Vec::new();
            proof {
                assert(exprs_view(v@) =~= Seq::<ExprV>::empty());
            }
            Ok(v)
        },
        Ok(t) => {
            let e0 = match parse_tok(t, toks) {
                Ok(e) => e,
                Err(e) => {
                    return Err(e);
                },
            };
            let mut rest = match collect_block_items(toks) {
                Ok(v) => v,
                Err(e) => {
                    return Err(e);
                },
            };
            let ghost before = rest@;
            rest.insert(0, e0);
            proof {
                assert(rest@ =~= seq![rest@[0]] + before);
                lemma_exprs_view_index(before);
                lemma_exprs_view_index(rest@);
                assert forall|j: int| 0 <= j < exprs_view(rest@).len() implies exprs_view(
                    rest@,
                )[j] == (seq![rest@[0]@] + exprs_view(before))[j] by {
                    assert(exprs_view(rest@)[j] == rest@[j]@);
                    if j > 0 {
                        assert(rest@[j] == before[j - 1]);
                        assert(exprs_view(before)[j - 1] == before[j - 1]@);
                    }
                }
                assert(exprs_view(rest@) =~= seq![rest@[0]@] + exprs_view(before));
            }
            Ok(rest)
        },
    }
}

/// A block expression.
fn parse_block(toks: &mut Tokens) -> (r: SRes<Expr>)
    requires
        old(toks).wf(),
    ensures
        final(toks).wf(),
        final(toks).all() == old(toks).all(),
        final(toks).term() == old(toks).term(),
        old(toks).at() <= final(toks).at() <= final(toks).all().len(),
        ({
            let br = sp_block_items(
                old(toks).all(),
                sp_term_error(old(toks).term()),
                old(toks).at(),
            );
            (parse_res_view(r), final(toks).at()) == (
                match br.0 {
                    Ok(es) => Ok::<ExprV, SError>(ExprV::Block(es)),
                    Err(e) => Err::<ExprV, SError>(e),
                },
                br.1,
            )
        }),
    decreases toks.all().len() - toks.at(), 2int,
{
    let items = match collect_block_items(toks) {
        Ok(v) => v,
        Err(e) => {
            return Err(e);
        },
    };
    Ok(Expr::Block(items))
}

/// A parenthesized expression, requiring its closing parenthesis.
fn parse_paren(toks: &mut Tokens) -> (r: SRes<Expr>)
    requires
        old(toks).wf(),
    ensures
        final(toks).wf(),
        final(toks).all() == old(toks).all(),
        final(toks).term() == old(toks).term(),
        old(toks).at() <= final(toks).at() <= final(toks).all().len(),
        (parse_res_view(r), final(toks).at()) == sp_parse_paren(
            old(toks).all(),
            sp_term_error(old(toks).term()),
            old(toks).at(),
        ),
    decreases toks.all().len() - toks.at(), 1int,
{
    let expr = match parse(toks) {
        Ok(e) => e,
        Err(e) => {
            return Err(e);
        },
    };
    match nexttok(toks) {
        Ok(Token::RParen) => Ok(expr),
        Ok(_) => Err(SError::ParserExpectedClosingParen),
        Err(SError::LexerEOF) => Err(SError::ParserExpectedClosingParen),
        Err(e) => Err(e),
    }
}

/// The inside of a parameter list; see `sp_params_inner` for the two state
/// flags.
fn parse_params_inner(toks: &mut Tokens, first: bool, expect_id: bool, params: Vec<String>) -> (r:
    SRes<Vec<String>>)
    requires
        old(toks).wf(),
    ensures
        final(toks).wf(),
        final(toks).all() == old(toks).all(),
        final(toks).term() == old(toks).term(),
        old(toks).at() <= final(toks).at() <= final(toks).all().len(),
        (params_res_view(r), final(toks).at()) == sp_params_inner(
            old(toks).all(),
            sp_term_error(old(toks).term()),
            old(toks).at(),
            first,
            expect_id,
            names_view(params@),
        ),
    decreases toks.all().len() - toks.at(), 1int,
{
    match nexttok(toks) {
        Err(e) => Err(e),
        Ok(Token::Identifier(s)) => {
            if expect_id {
                let mut ps = params;
                let ghost before = ps@;
                ps.push(s);
                proof {
                    assert(names_view(ps@) =~= names_view(before).push(ps@.last()@));
                }
                parse_params_inner(toks, false, false, ps)
            } else {
                Err(SError::ParserInvalidFunctionMissingComma)
            }
        },
        Ok(Token::Comma) => {
            if !expect_id {
                parse_params_inner(toks, false, true, params)
            } else {
                Err(SError::ParserInvalidFunctionExtraComma)
            }
        },
        Ok(Token::RParen) => {
            if !expect_id || first {
                Ok(params)
            } else {
                Err(SError::ParserInvalidFunctionExpectedParam)
            }
        },
        Ok(_) => Err(SError::ParserInvalidFunctionInvalidToken),
    }
}

/// A function's parameter-name list, parentheses included.
fn parse_params(toks: &mut Tokens) -> (r: SRes<Vec<String>>)
    requires
        old(toks).wf(),
    ensures
        final(toks).wf(),
        final(toks).all() == old(toks).all(),
        final(toks).term() == old(toks).term(),
        old(toks).at() <= final(toks).at() <= final(toks).all().len(),
        (params_res_view(r), final(toks).at()) == sp_parse_params(
            old(toks).all(),
            sp_term_error(old(toks).term()),
            old(toks).at(),
        ),
    decreases toks.all().len() - toks.at(), 2int,
{
    match nexttok(toks) {
        Err(e) => Err(e),
        Ok(Token::LParen) => {
            let params: Vec<String> = Vec::new();
            proof {
                assert(names_view(params@) =~= Seq::<Seq<char>>::empty());
            }
            parse_params_inner(toks, true, true, params)
        },
        Ok(_) => Err(SError::ParserInvalidFunctionNoLParen),
    }
}

/// A function statement, desugared into `name = fn(...) body`.
fn parse_function(toks: &mut Tokens) -> (r: SRes<Expr>)
    requires
        old(toks).wf(),
    ensures
        final(toks).wf(),
        final(toks).all() == old(toks).all(),
        final(toks).term() == old(toks).term(),
        old(toks).at() <= final(toks).at() <= final(toks).all().len(),
        (parse_res_view(r), final(toks).at()) == sp_parse_function(
            old(toks).all(),
            sp_term_error(old(toks).term()),
            old(toks).at(),
        ),
    decreases toks.all().len() - toks.at(), 1int,
{
    let name = match nexttok(toks) {
        Err(e) => {
            return Err(e);
        },
        Ok(Token::Identifier(s)) => s,
        Ok(_) => {
            return Err(SError::ParserInvalidFunctionNoName);
        },
    };
    let params = match parse_params(toks) {
        Ok(p) => p,
        Err(e) => {
            return Err(e);
        },
    };
    let body = match parse(toks) {
        Ok(b) => b,
        Err(e) => {
            return Err(e);
        },
    };
    let ghost name_v = name@;
    let ghost params_v = names_view(params@);
    let ghost body_v = body@;
    let lhs_e = Expr::VarRef(name);
    let rhs_e = Expr::Function { params, body: Box::new(body) };
    proof {
        assert(lhs_e@ == ExprV::VarRef(name_v));
        assert(rhs_e@ == ExprV::Function { params: params_v, body: Box::new(body_v) });
    }
    let result = Expr::BinaryOp {
        op: String::from_str("="),
        lhs: Box::new(lhs_e),
        rhs: Box::new(rhs_e),
    };
    proof {
        assert(result@ == ExprV::BinaryOp {
            op: "="@,
            lhs: Box::new(ExprV::VarRef(name_v)),
            rhs: Box::new(ExprV::Function { params: params_v, body: Box::new(body_v) }),
        });
    }
    Ok(result)
}

/// `return` wrapping the expression after it.
fn parse_return(toks: &mut Tokens) -> (r: SRes<Expr>)
    requires
        old(toks).wf(),
    ensures
        final(toks).wf(),
        final(toks).all() == old(toks).all(),
        final(toks).term() == old(toks).term(),
        old(toks).at() <= final(toks).at() <= final(toks).all().len(),
        (parse_res_view(r), final(toks).at()) == sp_parse_return(
            old(toks).all(),
            sp_term_error(old(toks).term()),
            old(toks).at(),
        ),
    decreases toks.all().len() - toks.at(), 1int,
{
    match parse(toks) {
        Ok(e) => Ok(Expr::Return(Box::new(e))),
        Err(e) => Err(e),
    }
}

/// An identifier in expression position: a call when `(` follows at once,
/// else a variable reference.
fn parse_identifier(s: &String, toks: &mut Tokens) -> (r: SRes<Expr>)
    requires
        old(toks).wf(),
    ensures
        final(toks).wf(),
        final(toks).all() == old(toks).all(),
        final(toks).term() == old(toks).term(),
        old(toks).at() <= final(toks).at() <= final(toks).all().len(),
        (parse_res_view(r), final(toks).at()) == sp_parse_identifier(
            s@,
            old(toks).all(),
            sp_term_error(old(toks).term()),
            old(toks).at(),
        ),
    decreases toks.all().len() - toks.at(), 1int,
{
    let is_lp = match toks.peek() {
        Some(t) => matches!(t, Token::LParen),
        None => false,
    };
    if is_lp {
        let _ = nexttok(toks);
        let args = match parse_call_args(toks) {
            Ok(a) => a,
            Err(e) => {
                return Err(e);
            },
        };
        Ok(Expr::Call { callee: s.clone(), args })
    } else {
        Ok(Expr::VarRef(s.clone()))
    }
}

/// A call's argument list after its opening parenthesis.
fn parse_call_args(toks: &mut Tokens) -> (r: SRes<Vec<Expr>>)
    requires
        old(toks).wf(),
    ensures
        final(toks).wf(),
        final(toks).all() == old(toks).all(),
        final(toks).term() == old(toks).term(),
        old(toks).at() <= final(toks).at() <= final(toks).all().len(),
        (exprs_res_view(r), final(toks).at()) == sp_parse_call_args(
            old(toks).all(),
            sp_term_error(old(toks).term()),
            old(toks).at(),
        ),
    decreases toks.all().len() - toks.at(), 2int,
{
    let is_rp = match toks.peek() {
        Some(t) => matches!(t, Token::RParen),
        None => false,
    };
    if is_rp {
        let _ = nexttok(toks);
        let v: Vec<Expr> = Vec::new();
        proof {
            assert(exprs_view(v@) =~= Seq::<ExprV>::empty());
        }
        Ok(v)
    } else {
        parse_call_args_rest(toks)
    }
}

/// One or more call arguments: an expression, then `)` or `,`.
fn parse_call_args_rest(toks: &mut Tokens) -> (r: SRes<Vec<Expr>>)
    requires
        old(toks).wf(),
    ensures
        final(toks).wf(),
        final(toks).all() == old(toks).all(),
        final(toks).term() == old(toks).term(),
        old(toks).at() <= final(toks).at() <= final(toks).all().len(),
        (exprs_res_view(r), final(toks).at()) == sp_call_args_rest(
            old(toks).all(),
            sp_term_error(old(toks).term()),
            old(toks).at(),
        ),
    decreases toks.all().len() - toks.at(), 1int,
{
    let a0 = match parse(toks) {
        Ok(e) => e,
        Err(e) => {
            return Err(e);
        },
    };
    match nexttok(toks) {
        Err(e) => Err(e),
        Ok(Token::RParen) => {
            let mut v: Vec<Expr> = Vec::new();
            v.push(a0);
            proof {
                lemma_exprs_view_index(v@);
                assert(exprs_view(v@) =~= seq![v@[0]@]);
            }
            Ok(v)
        },
        Ok(Token::Comma) => {
            let mut rest = match parse_call_args_rest(toks) {
                Ok(v) => v,
                Err(e) => {
                    return Err(e);
                },
            };
            let ghost before = rest@;
            rest.insert(0, a0);
            proof {
                assert(rest@ =~= seq![rest@[0]] + before);
                lemma_exprs_view_index(before);
                lemma_exprs_view_index(rest@);
                assert forall|j: int| 0 <= j < exprs_view(rest@).len() implies exprs_view(
                    rest@,
                )[j] == (seq![rest@[0]@] + exprs_view(before))[j] by {
                    assert(exprs_view(rest@)[j] == rest@[j]@);
                    if j > 0 {
                        assert(rest@[j] == before[j - 1]);
                        assert(exprs_view(before)[j - 1] == before[j - 1]@);
                    }
                }
                assert(exprs_view(rest@) =~= seq![rest@[0]@] + exprs_view(before));
            }
            Ok(rest)
        },
        Ok(_) => Err(SError::ParserInvalidCallMissingComma),
    }
}

/// Precedence climbing above a parsed left operand; see `sp_parse_binop_rhs`.
fn parse_binop_rhs(expr_prec: i32, lhs: Expr, toks: &mut Tokens) -> (r: SRes<Expr>)
    requires
        old(toks).wf(),
        0 <= expr_prec,
    ensures
        final(toks).wf(),
        final(toks).all() == old(toks).all(),
        final(toks).term() == old(toks).term(),
        old(toks).at() <= final(toks).at() <= final(toks).all().len(),
        (parse_res_view(r), final(toks).at()) == sp_parse_binop_rhs(
            expr_prec as int,
            lhs@,
            old(toks).all(),
            sp_term_error(old(toks).term()),
            old(toks).at(),
        ),
    decreases toks.all().len() - toks.at(), 1int,
{
    let tok_prec: i32 = match toks.peek() {
        Some(t) => t.get_precedence(),
        None => {
            match stream_end_error(toks) {
                SError::LexerEOF => -1,
                e => {
                    return Err(e);
                },
            }
        },
    };
    if tok_prec < expr_prec {
        return Ok(lhs);
    }
    let op_tok = match nexttok(toks) {
        Ok(t) => t,
        Err(_) => {
            proof {
                assert(false);
            }
            return Ok(lhs);
        },
    };
    let op = op_tok.text();
    match nexttok(toks) {
        Err(e) => Err(e),
        Ok(t2) => {
            let rhs0 = match parse_primary(t2, toks) {
                Ok(e) => e,
                Err(e) => {
                    return Err(e);
                },
            };
            let next_prec: i32 = match toks.peek() {
                Some(t) => t.get_precedence(),
                None => -1,
            };
            if tok_prec < next_prec {
                proof {
                    assert(spec_precedence(op_tok@) <= 40);
                }
                let rhs1 = match parse_binop_rhs(tok_prec + 1, rhs0, toks) {
                    Ok(e) => e,
                    Err(e) => {
                        return Err(e);
                    },
                };
                parse_binop_rhs(
                    expr_prec,
                    Expr::BinaryOp { op, lhs: Box::new(lhs), rhs: Box::new(rhs1) },
                    toks,
                )
            } else {
                parse_binop_rhs(
                    expr_prec,
                    Expr::BinaryOp { op, lhs: Box::new(lhs), rhs: Box::new(rhs0) },
                    toks,
                )
            }
        },
    }
}

/// Parses the first expression of a source string. A lexically malformed text
/// fails: an unknown character anywhere the parse reaches surfaces as
/// `LexerUnknownToken`.
pub fn parse_str(s: &str) -> (r: SRes<Expr>)
    ensures
        parse_res_view(r) == ({
            let lx = sp_lex(s@, 0);
            sp_parse(lx.0, sp_term_error(lx.1), 0).0
        }),
{
    let mut toks = tokenize(s);
    parse(&mut toks)
}

/// Parses the first expression of an owned source string.
pub fn parse_string(s: &String) -> (r: SRes<Expr>)
    ensures
        parse_res_view(r) == ({
            let lx = sp_lex(s@, 0);
            sp_parse(lx.0, sp_term_error(lx.1), 0).0
        }),
{
    parse_str(s.as_str())
}

// ---------------------------------------------------------------------------
// Copying expressions. The evaluator copies a function literal into a value
// and a value's body back out for a call, so the tree itself stays immutable
// and reusable across calls.
// ---------------------------------------------------------------------------

/// An owned copy of a name list, with the same view.
pub fn clone_names(v: &Vec<String>) -> (r: Vec<String>)
    ensures
        r@ == v@,
{
    let mut r: Vec<String> = Vec::new();
    let mut i: usize = 0;
    while i < v.len()
        invariant
            i <= v@.len(),
            r@.len() == i as int,
            forall|j: int| 0 <= j < i ==> r@[j] == v@[j],
        decreases v@.len() - i,
    {
        r.push(v[i].clone());
        i = i + 1;
    }
    proof {
        assert(r@ =~= v@);
    }
    r
}

/// An owned copy of an expression, with the same view.
pub fn clone_expr(e: &Expr) -> (r: Expr)
    ensures
        r@ == e@,
    decreases e, 0int,
{
    match e {
        Expr::NoneLit => Expr::NoneLit,
        Expr::Bool(b) => Expr::Bool(*b),
        Expr::Number(x) => Expr::Number(*x),
        Expr::Block(es) => {
            proof {
                assert(es@.subrange(0, es@.len() as int) =~= es@);
            }
            let items = clone_exprs_from(es, 0);
            proof {
                lemma_exprs_view_index(items@);
                lemma_exprs_view_index(es@);
                assert forall|j: int| 0 <= j < exprs_view(items@).len() implies exprs_view(
                    items@,
                )[j] == exprs_view(es@)[j] by {
                    assert(exprs_view(items@)[j] == items@[j]@);
                    assert(exprs_view(es@)[j] == es@[j]@);
                    assert(items@[j]@ == es@[0 + j]@);
                }
                assert(exprs_view(items@) =~= exprs_view(es@));
            }
            Expr::Block(items)
        },
        Expr::Function { params, body } => Expr::Function {
            params: clone_names(params),
            body: Box::new(clone_expr(body)),
        },
        Expr::Return(b) => Expr::Return(Box::new(clone_expr(b))),
        Expr::VarRef(s) => Expr::VarRef(s.clone()),
        Expr::Call { callee, args } => {
            proof {
                assert(args@.subrange(0, args@.len() as int) =~= args@);
            }
            let items = clone_exprs_from(args, 0);
            proof {
                lemma_exprs_view_index(items@);
                lemma_exprs_view_index(args@);
                assert forall|j: int| 0 <= j < exprs_view(items@).len() implies exprs_view(
                    items@,
                )[j] == exprs_view(args@)[j] by {
                    assert(exprs_view(items@)[j] == items@[j]@);
                    assert(exprs_view(args@)[j] == args@[j]@);
                    assert(items@[j]@ == args@[0 + j]@);
                }
                assert(exprs_view(items@) =~= exprs_view(args@));
            }
            Expr::Call { callee: callee.clone(), args: items }
        },
        Expr::BinaryOp { op, lhs, rhs } => Expr::BinaryOp {
            op: op.clone(),
            lhs: Box::new(clone_expr(lhs)),
            rhs: Box::new(clone_expr(rhs)),
        },
    }
}

/// Owned copies of the expressions from index `i` on, each with the same
/// view.
fn clone_exprs_from(v: &Vec<Expr>, i: usize) -> (r: Vec<Expr>)
    requires
        i <= v@.len(),
    ensures
        r@.len() == v@.len() - i,
        forall|j: int| 0 <= j < r@.len() ==> r@[j]@ == #[trigger] v@[i + j]@,
    decreases v@.subrange(i as int, v@.len() as int), 1int,
{
    if i == v.len() {
        Vec::new()
    } else {
        proof {
            assert(v@.subrange(i as int, v@.len() as int)[0] == v@[i as int]);
        }
        let e0 = clone_expr(&v[i]);
        proof {
            assert(v@.subrange(i + 1, v@.len() as int) =~= v@.subrange(
                i as int,
                v@.len() as int,
            ).subrange(1, v@.len() - i));
        }
        let mut rest = clone_exprs_from(v, i + 1);
        let ghost before = rest@;
        rest.insert(0, e0);
        proof {
            assert forall|j: int| 0 <= j < rest@.len() implies rest@[j]@ == #[trigger] v@[i + j]@
                by {
                if j > 0 {
                    assert(rest@[j] == before[j - 1]);
                    assert(before[j - 1]@ == v@[(i + 1) + (j - 1)]@);
                } else {
                    assert(rest@[0] == e0);
                }
            }
        }
        rest
    }
}

} // verus!
