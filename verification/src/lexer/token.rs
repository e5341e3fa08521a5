//! Tokens, the character cursor, and one tokenization step.
//!
//! The executable lexer `gettok` is proved equal to the spec-level lexer
//! `sp_gettok`, which reads one token from a character sequence at a position.

use vstd::prelude::*;
use vstd::string::{StrSliceExecFns, StringExecFns};
use crate::lexer::error::{LexerError, LexerRes};
use crate::utils::str_eq;

verus! {

/// One lexical unit of source text.
#[derive(Debug, PartialEq)]
pub enum Token {
    /// A run of decimal digits, kept as raw text; the parser converts it.
    Number(String),
    Identifier(String),
    /// The keyword `fn`.
    Function,
    /// The keyword `return`.
    Return,
    /// The keyword `let`.
    Let,
    /// The keywords `and`, `or`, `not`.
    LAnd,
    LOr,
    LNot,
    LParen,
    RParen,
    LBrack,
    RBrack,
    Comma,
    SemiColon,
    /// `=`
    Assign,
    /// `!`
    Not,
    /// `+` and `-`
    Add,
    Sub,
    /// `*` and `/`
    Mul,
    Div,
    /// `==` and `!=`
    Equals,
    Nequals,
    /// `<` and `<=`
    LeThan,
    LeqThan,
    /// `>` and `>=`
    GeThan,
    GeqThan,
}

/// The mathematical model of a token: text payloads become character
/// sequences.
pub enum TokenV {
    Number(Seq<char>),
    Identifier(Seq<char>),
    Function,
    Return,
    Let,
    LAnd,
    LOr,
    LNot,
    LParen,
    RParen,
    LBrack,
    RBrack,
    Comma,
    SemiColon,
    Assign,
    Not,
    Add,
    Sub,
    Mul,
    Div,
    Equals,
    Nequals,
    LeThan,
    LeqThan,
    GeThan,
    GeqThan,
}

impl View for Token {
    type V = TokenV;

    open spec fn view(&self) -> TokenV {
        match self {
            Token::Number(s) => TokenV::Number(s@),
            Token::Identifier(s) => TokenV::Identifier(s@),
            Token::Function => TokenV::Function,
            Token::Return => TokenV::Return,
            Token::Let => TokenV::Let,
            Token::LAnd => TokenV::LAnd,
            Token::LOr => TokenV::LOr,
            Token::LNot => TokenV::LNot,
            Token::LParen => TokenV::LParen,
            Token::RParen => TokenV::RParen,
            Token::LBrack => TokenV::LBrack,
            Token::RBrack => TokenV::RBrack,
            Token::Comma => TokenV::Comma,
            Token::SemiColon => TokenV::SemiColon,
            Token::Assign => TokenV::Assign,
            Token::Not => TokenV::Not,
            Token::Add => TokenV::Add,
            Token::Sub => TokenV::Sub,
            Token::Mul => TokenV::Mul,
            Token::Div => TokenV::Div,
            Token::Equals => TokenV::Equals,
            Token::Nequals => TokenV::Nequals,
            Token::LeThan => TokenV::LeThan,
            Token::LeqThan => TokenV::LeqThan,
            Token::GeThan => TokenV::GeThan,
            Token::GeqThan => TokenV::GeqThan,
        }
    }
}

/// What a binary-operator token binds like; `-1` marks a token that is no
/// binary operator and never starts a climb.
pub open spec fn spec_precedence(t: TokenV) -> int {
    match t {
        TokenV::Assign => 2,
        TokenV::LAnd => 9,
        TokenV::LOr => 9,
        TokenV::Equals => 10,
        TokenV::Nequals => 10,
        TokenV::LeThan => 10,
        TokenV::LeqThan => 10,
        TokenV::GeThan => 10,
        TokenV::GeqThan => 10,
        TokenV::Add => 20,
        TokenV::Sub => 20,
        TokenV::Mul => 40,
        TokenV::Div => 40,
        _ => -1,
    }
}

pub open spec fn spec_is_binary_operator(t: TokenV) -> bool {
    match t {
        TokenV::Assign | TokenV::LAnd | TokenV::LOr | TokenV::LNot | TokenV::Add
            | TokenV::Sub | TokenV::Mul | TokenV::Div | TokenV::Equals | TokenV::Nequals
            | TokenV::LeThan | TokenV::LeqThan | TokenV::GeThan | TokenV::GeqThan => true,
        _ => false,
    }
}

/// The source text a token was written as; for operator tokens this is the
/// operator symbol the parser stores in the tree.
pub open spec fn sp_token_text(t: TokenV) -> Seq<char> {
    match t {
        TokenV::Number(s) => s,
        TokenV::Identifier(s) => s,
        TokenV::Function => "fn"@,
        TokenV::Return => "return"@,
        TokenV::Let => "let"@,
        TokenV::LAnd => "and"@,
        TokenV::LOr => "or"@,
        TokenV::LNot => "not"@,
        TokenV::LParen => "("@,
        TokenV::RParen => ")"@,
        TokenV::LBrack => "{"@,
        TokenV::RBrack => "}"@,
        TokenV::Comma => ","@,
        TokenV::SemiColon => ";"@,
        TokenV::Assign => "="@,
        TokenV::Not => "!"@,
        TokenV::Add => "+"@,
        TokenV::Sub => "-"@,
        TokenV::Mul => "*"@,
        TokenV::Div => "/"@,
        TokenV::Equals => "=="@,
        TokenV::Nequals => "!="@,
        TokenV::LeThan => "<"@,
        TokenV::LeqThan => "<="@,
        TokenV::GeThan => ">"@,
        TokenV::GeqThan => ">="@,
    }
}

impl Token {
    pub fn is_binary_operator(&self) -> (r: bool)
        ensures
            r == spec_is_binary_operator(self@),
    {
        match self {
            Token::Assign | Token::LAnd | Token::LOr | Token::LNot | Token::Add
                | Token::Sub | Token::Mul | Token::Div | Token::Equals | Token::Nequals
                | Token::LeThan | Token::LeqThan | Token::GeThan | Token::GeqThan => true,
            _ => false,
        }
    }

    pub fn get_precedence(&self) -> (r: i32)
        ensures
            r as int == spec_precedence(self@),
    {
        match self {
            Token::Assign => 2,
            Token::LAnd | Token::LOr => 9,
            Token::Equals | Token::Nequals | Token::LeThan | Token::LeqThan
                | Token::GeThan | Token::GeqThan => 10,
            Token::Add | Token::Sub => 20,
            Token::Mul | Token::Div => 40,
            _ => -1,
        }
    }

    /// An owned copy whose view is the same token.
    pub fn duplicate(&self) -> (r: Token)
        ensures
            r@ == self@,
    {
        match self {
            Token::Number(s) => Token::Number(s.clone()),
            Token::Identifier(s) => Token::Identifier(s.clone()),
            Token::Function => Token::Function,
            Token::Return => Token::Return,
            Token::Let => Token::Let,
            Token::LAnd => Token::LAnd,
            Token::LOr => Token::LOr,
            Token::LNot => Token::LNot,
            Token::LParen => Token::LParen,
            Token::RParen => Token::RParen,
            Token::LBrack => Token::LBrack,
            Token::RBrack => Token::RBrack,
            Token::Comma => Token::Comma,
            Token::SemiColon => Token::SemiColon,
            Token::Assign => Token::Assign,
            Token::Not => Token::Not,
            Token::Add => Token::Add,
            Token::Sub => Token::Sub,
            Token::Mul => Token::Mul,
            Token::Div => Token::Div,
            Token::Equals => Token::Equals,
            Token::Nequals => Token::Nequals,
            Token::LeThan => Token::LeThan,
            Token::LeqThan => Token::LeqThan,
            Token::GeThan => Token::GeThan,
            Token::GeqThan => Token::GeqThan,
        }
    }

    /// The source text of this token, as an owned string.
    pub fn text(&self) -> (s: String)
        ensures
            s@ == sp_token_text(self@),
    {
        match self {
            Token::Number(s) => s.clone(),
            Token::Identifier(s) => s.clone(),
            Token::Function => String::from_str("fn"),
            Token::Return => String::from_str("return"),
            Token::Let => String::from_str("let"),
            Token::LAnd => String::from_str("and"),
            Token::LOr => String::from_str("or"),
            Token::LNot => String::from_str("not"),
            Token::LParen => String::from_str("("),
            Token::RParen => String::from_str(")"),
            Token::LBrack => String::from_str("{"),
            Token::RBrack => String::from_str("}"),
            Token::Comma => String::from_str(","),
            Token::SemiColon => String::from_str(";"),
            Token::Assign => String::from_str("="),
            Token::Not => String::from_str("!"),
            Token::Add => String::from_str("+"),
            Token::Sub => String::from_str("-"),
            Token::Mul => String::from_str("*"),
            Token::Div => String::from_str("/"),
            Token::Equals => String::from_str("=="),
            Token::Nequals => String::from_str("!="),
            Token::LeThan => String::from_str("<"),
            Token::LeqThan => String::from_str("<="),
            Token::GeThan => String::from_str(">"),
            Token::GeqThan => String::from_str(">="),
        }
    }
}

// ---------------------------------------------------------------------------
// Character classes. The language's lexical alphabet is ASCII, by definition:
// where the grammar says "whitespace" it means exactly space, tab, carriage
// return and line feed, and where it says "alphabetic" it means exactly the
// ASCII letters, so identifiers are ASCII words of letters, digits and `_`.
// Every character outside these sets and the punctuation table, a non-ASCII
// letter or space included, is an unknown-token failure, which tokenization
// surfaces to its consumer.
// ---------------------------------------------------------------------------

pub open spec fn is_space_char(c: char) -> bool {
    c == ' ' || c == '\t' || c == '\n' || c == '\r'
}

pub open spec fn is_digit_char(c: char) -> bool {
    48 <= c as u32 && c as u32 <= 57
}

pub open spec fn is_alpha_char(c: char) -> bool {
    (97 <= c as u32 && c as u32 <= 122) || (65 <= c as u32 && c as u32 <= 90)
}

/// Characters that may continue an identifier: letters, digits, `_`.
pub open spec fn is_ident_char(c: char) -> bool {
    is_alpha_char(c) || is_digit_char(c) || c == '_'
}

pub fn space_char(c: char) -> (r: bool)
    ensures
        r == is_space_char(c),
{
    c == ' ' || c == '\t' || c == '\n' || c == '\r'
}

pub fn digit_char(c: char) -> (r: bool)
    ensures
        r == is_digit_char(c),
{
    let u = c as u32;
    48 <= u && u <= 57
}

pub fn alpha_char(c: char) -> (r: bool)
    ensures
        r == is_alpha_char(c),
{
    let u = c as u32;
    (97 <= u && u <= 122) || (65 <= u && u <= 90)
}

pub fn ident_char(c: char) -> (r: bool)
    ensures
        r == is_ident_char(c),
{
    alpha_char(c) || digit_char(c) || c == '_'
}

// ---------------------------------------------------------------------------
// The character cursor: a forward-only reader with one-character lookahead.
// ---------------------------------------------------------------------------

/// A position inside a borrowed source string.
pub struct CharCursor<'a> {
    s: &'a str,
    len: usize,
    pos: usize,
}

impl<'a> CharCursor<'a> {
    /// The whole character sequence being read.
    pub closed spec fn text(&self) -> Seq<char> {
        self.s@
    }

    /// How many characters have been consumed.
    pub closed spec fn at(&self) -> int {
        self.pos as int
    }

    /// The stored length matches the text; an internal fact.
    pub closed spec fn len_ok(&self) -> bool {
        self.len == self.s@.len()
    }

    pub open spec fn wf(&self) -> bool {
        0 <= self.at() <= self.text().len() && self.len_ok()
    }

    pub fn new(s: &'a str) -> (c: Self)
        ensures
            c.wf(),
            c.text() == s@,
            c.at() == 0,
    {
        let len = s.unicode_len();
        CharCursor { s, len, pos: 0 }
    }

    /// The character under the cursor, if any, without consuming it.
    pub fn peek(&self) -> (r: Option<char>)
        requires
            self.wf(),
        ensures
            match r {
                Some(c) => self.at() < self.text().len() && c == self.text()[self.at()],
                None => self.at() == self.text().len(),
            },
    {
        if self.pos < self.len {
            Some(self.s.get_char(self.pos))
        } else {
            None
        }
    }

    /// Consumes one character.
    pub fn advance(&mut self)
        requires
            old(self).wf(),
            old(self).at() < old(self).text().len(),
        ensures
            final(self).wf(),
            final(self).text() == old(self).text(),
            final(self).at() == old(self).at() + 1,
    {
        self.pos = self.pos + 1;
    }

    /// The current position, to cut a slice from later.
    pub fn mark(&self) -> (r: usize)
        requires
            self.wf(),
        ensures
            r as int == self.at(),
    {
        self.pos
    }

    /// The characters between a mark and the cursor, borrowed.
    pub fn slice_from(&self, start: usize) -> (r: &'a str)
        requires
            self.wf(),
            start as int <= self.at(),
        ensures
            r@ == self.text().subrange(start as int, self.at()),
    {
        self.s.substring_char(start, self.pos)
    }

    /// The characters between a mark and the cursor, owned.
    pub fn take_from(&self, start: usize) -> (r: String)
        requires
            self.wf(),
            start as int <= self.at(),
        ensures
            r@ == self.text().subrange(start as int, self.at()),
    {
        self.slice_from(start).to_owned()
    }
}

// ---------------------------------------------------------------------------
// The spec-level lexer.
// ---------------------------------------------------------------------------

/// The first position at or after `p` holding a non-whitespace character, or
/// the end of the text.
pub open spec fn sp_skip_ws(s: Seq<char>, p: int) -> int
    decreases s.len() - p,
{
    if 0 <= p && p < s.len() {
        if is_space_char(s[p]) {
            sp_skip_ws(s, p + 1)
        } else {
            p
        }
    } else {
        p
    }
}

/// The end of the maximal digit run starting at `p`.
pub open spec fn sp_end_digits(s: Seq<char>, p: int) -> int
    decreases s.len() - p,
{
    if 0 <= p && p < s.len() && is_digit_char(s[p]) {
        sp_end_digits(s, p + 1)
    } else {
        p
    }
}

/// The end of the maximal identifier-character run starting at `p`.
pub open spec fn sp_end_ident(s: Seq<char>, p: int) -> int
    decreases s.len() - p,
{
    if 0 <= p && p < s.len() && is_ident_char(s[p]) {
        sp_end_ident(s, p + 1)
    } else {
        p
    }
}

/// Which token a maximal identifier run denotes: one of the six reserved
/// keywords, or an identifier carrying its text.
pub open spec fn sp_keyword(text: Seq<char>) -> TokenV {
    if text == "fn"@ {
        TokenV::Function
    } else if text == "return"@ {
        TokenV::Return
    } else if text == "let"@ {
        TokenV::Let
    } else if text == "and"@ {
        TokenV::LAnd
    } else if text == "or"@ {
        TokenV::LOr
    } else if text == "not"@ {
        TokenV::LNot
    } else {
        TokenV::Identifier(text)
    }
}

/// One tokenization step: the token read at position `p` of `s` (after
/// skipping whitespace) and the position just past it. End of input yields
/// `EOF`; a character outside the language yields `UnknownToken`, with the
/// offending character consumed.
pub open spec fn sp_gettok(s: Seq<char>, p: int) -> (Result<TokenV, LexerError>, int) {
    let q = sp_skip_ws(s, p);
    if !(0 <= q && q < s.len()) {
        (Err(LexerError::EOF), q)
    } else {
        let c = s[q];
        if is_digit_char(c) {
            let e = sp_end_digits(s, q);
            (Ok(TokenV::Number(s.subrange(q, e))), e)
        } else if is_alpha_char(c) {
            let e = sp_end_ident(s, q);
            (Ok(sp_keyword(s.subrange(q, e))), e)
        } else if c == '(' {
            (Ok(TokenV::LParen), q + 1)
        } else if c == ')' {
            (Ok(TokenV::RParen), q + 1)
        } else if c == '{' {
            (Ok(TokenV::LBrack), q + 1)
        } else if c == '}' {
            (Ok(TokenV::RBrack), q + 1)
        } else if c == ',' {
            (Ok(TokenV::Comma), q + 1)
        } else if c == ';' {
            (Ok(TokenV::SemiColon), q + 1)
        } else if c == '+' {
            (Ok(TokenV::Add), q + 1)
        } else if c == '-' {
            (Ok(TokenV::Sub), q + 1)
        } else if c == '*' {
            (Ok(TokenV::Mul), q + 1)
        } else if c == '/' {
            (Ok(TokenV::Div), q + 1)
        } else if c == '=' {
            if q + 1 < s.len() && s[q + 1] == '=' {
                (Ok(TokenV::Equals), q + 2)
            } else {
                (Ok(TokenV::Assign), q + 1)
            }
        } else if c == '!' {
            if q + 1 < s.len() && s[q + 1] == '=' {
                (Ok(TokenV::Nequals), q + 2)
            } else {
                (Ok(TokenV::Not), q + 1)
            }
        } else if c == '<' {
            if q + 1 < s.len() && s[q + 1] == '=' {
                (Ok(TokenV::LeqThan), q + 2)
            } else {
                (Ok(TokenV::LeThan), q + 1)
            }
        } else if c == '>' {
            if q + 1 < s.len() && s[q + 1] == '=' {
                (Ok(TokenV::GeqThan), q + 2)
            } else {
                (Ok(TokenV::GeThan), q + 1)
            }
        } else {
            (Err(LexerError::UnknownToken), q + 1)
        }
    }
}

pub proof fn lemma_end_digits_ge(s: Seq<char>, p: int)
    ensures
        sp_end_digits(s, p) >= p,
    decreases s.len() - p,
{
    if 0 <= p && p < s.len() && is_digit_char(s[p]) {
        lemma_end_digits_ge(s, p + 1);
    }
}

pub proof fn lemma_end_ident_ge(s: Seq<char>, p: int)
    ensures
        sp_end_ident(s, p) >= p,
    decreases s.len() - p,
{
    if 0 <= p && p < s.len() && is_ident_char(s[p]) {
        lemma_end_ident_ge(s, p + 1);
    }
}

/// The view of a tokenization step's result.
pub open spec fn tok_res_view(r: LexerRes<Token>) -> Result<TokenV, LexerError> {
    match r {
        Ok(t) => Ok(t@),
        Err(e) => Err(e),
    }
}

// ---------------------------------------------------------------------------
// The executable lexer.
// ---------------------------------------------------------------------------

/// Advances past whitespace; returns the first meaningful character without
/// consuming it, or `EOF` when none is left.
fn skip_whitespace(cur: &mut CharCursor) -> (r: LexerRes<char>)
    requires
        old(cur).wf(),
    ensures
        final(cur).wf(),
        final(cur).text() == old(cur).text(),
        final(cur).at() == sp_skip_ws(old(cur).text(), old(cur).at()),
        old(cur).at() <= final(cur).at() <= final(cur).text().len(),
        match r {
            Ok(c) => final(cur).at() < final(cur).text().len() && c == final(cur).text()[final(cur).at()]
                && !is_space_char(c),
            Err(e) => e == LexerError::EOF && final(cur).at() == final(cur).text().len(),
        },
{
    loop
        invariant
            cur.wf(),
            cur.text() == old(cur).text(),
            old(cur).at() <= cur.at() <= cur.text().len(),
            sp_skip_ws(old(cur).text(), old(cur).at()) == sp_skip_ws(cur.text(), cur.at()),
        decreases cur.text().len() - cur.at(),
    {
        if cur.pos == cur.len {
            return Err(LexerError::EOF);
        }
        let c = cur.s.get_char(cur.pos);
        if !space_char(c) {
            return Ok(c);
        }
        cur.pos = cur.pos + 1;
    }
}

/// Consumes the maximal digit run at the cursor and emits a numeric token
/// carrying exactly that text.
fn get_number(cur: &mut CharCursor) -> (r: LexerRes<Token>)
    requires
        old(cur).wf(),
    ensures
        final(cur).wf(),
        final(cur).text() == old(cur).text(),
        final(cur).at() == sp_end_digits(old(cur).text(), old(cur).at()),
        old(cur).at() <= final(cur).at() <= final(cur).text().len(),
        tok_res_view(r) == Ok::<TokenV, LexerError>(
            TokenV::Number(old(cur).text().subrange(old(cur).at(), final(cur).at())),
        ),
{
    let start = cur.pos;
    loop
        invariant
            cur.wf(),
            cur.text() == old(cur).text(),
            old(cur).at() <= cur.at() <= cur.text().len(),
            start == old(cur).pos,
            sp_end_digits(old(cur).text(), old(cur).at()) == sp_end_digits(cur.text(), cur.at()),
        ensures
            cur.wf(),
            cur.text() == old(cur).text(),
            start == old(cur).pos,
            old(cur).at() <= cur.at() <= cur.text().len(),
            cur.at() == sp_end_digits(old(cur).text(), old(cur).at()),
        decreases cur.text().len() - cur.at(),
    {
        if cur.pos == cur.len {
            break;
        }
        let c = cur.s.get_char(cur.pos);
        if !digit_char(c) {
            break;
        }
        cur.pos = cur.pos + 1;
    }
    let text = cur.s.substring_char(start, cur.pos);
    Ok(Token::Number(text.to_owned()))
}

/// Consumes the maximal identifier run at the cursor; reserved words become
/// keyword tokens, anything else an identifier carrying its text.
fn get_ident(cur: &mut CharCursor) -> (r: LexerRes<Token>)
    requires
        old(cur).wf(),
    ensures
        final(cur).wf(),
        final(cur).text() == old(cur).text(),
        final(cur).at() == sp_end_ident(old(cur).text(), old(cur).at()),
        old(cur).at() <= final(cur).at() <= final(cur).text().len(),
        tok_res_view(r) == Ok::<TokenV, LexerError>(
            sp_keyword(old(cur).text().subrange(old(cur).at(), final(cur).at())),
        ),
{
    let start = cur.pos;
    loop
        invariant
            cur.wf(),
            cur.text() == old(cur).text(),
            old(cur).at() <= cur.at() <= cur.text().len(),
            start == old(cur).pos,
            sp_end_ident(old(cur).text(), old(cur).at()) == sp_end_ident(cur.text(), cur.at()),
        ensures
            cur.wf(),
            cur.text() == old(cur).text(),
            start == old(cur).pos,
            old(cur).at() <= cur.at() <= cur.text().len(),
            cur.at() == sp_end_ident(old(cur).text(), old(cur).at()),
        decreases cur.text().len() - cur.at(),
    {
        if cur.pos == cur.len {
            break;
        }
        let c = cur.s.get_char(cur.pos);
        if !ident_char(c) {
            break;
        }
        cur.pos = cur.pos + 1;
    }
    let text = cur.s.substring_char(start, cur.pos);
    let tok = if str_eq(text, "fn") {
        Token::Function
    } else if str_eq(text, "return") {
        Token::Return
    } else if str_eq(text, "let") {
        Token::Let
    } else if str_eq(text, "and") {
        Token::LAnd
    } else if str_eq(text, "or") {
        Token::LOr
    } else if str_eq(text, "not") {
        Token::LNot
    } else {
        Token::Identifier(text.to_owned())
    };
    Ok(tok)
}

/// Resolves a two-character operator by one character of lookahead: if the
/// next character is `next`, consumes it and yields `option_a`, else yields
/// `option_b` with nothing consumed.
fn two_char_op(next: char, option_a: Token, option_b: Token, cur: &mut CharCursor) -> (r: LexerRes<
    Token,
>)
    requires
        old(cur).wf(),
    ensures
        final(cur).wf(),
        final(cur).text() == old(cur).text(),
        if old(cur).at() < old(cur).text().len() && old(cur).text()[old(cur).at()] == next {
            r == Ok::<Token, LexerError>(option_a) && final(cur).at() == old(cur).at() + 1
        } else {
            r == Ok::<Token, LexerError>(option_b) && final(cur).at() == old(cur).at()
        },
{
    if cur.pos < cur.len {
        let c = cur.s.get_char(cur.pos);
        if c == next {
            cur.pos = cur.pos + 1;
            return Ok(option_a);
        }
    }
    Ok(option_b)
}

/// Reads one token from the cursor, exactly as `sp_gettok` describes.
pub fn gettok(cur: &mut CharCursor) -> (r: LexerRes<Token>)
    requires
        old(cur).wf(),
    ensures
        final(cur).wf(),
        final(cur).text() == old(cur).text(),
        old(cur).at() <= final(cur).at() <= final(cur).text().len(),
        sp_gettok(old(cur).text(), old(cur).at()) == (
            tok_res_view(r),
            final(cur).at(),
        ),
        r is Ok ==> old(cur).at() < final(cur).at(),
{
    let c = match skip_whitespace(cur) {
        Ok(c) => c,
        Err(e) => {
            return Err(e);
        },
    };
    if digit_char(c) {
        proof {
            lemma_end_digits_ge(cur.text(), cur.at() + 1);
        }
        return get_number(cur);
    }
    if alpha_char(c) {
        proof {
            lemma_end_ident_ge(cur.text(), cur.at() + 1);
        }
        return get_ident(cur);
    }
    cur.pos = cur.pos + 1;
    match c {
        '(' => Ok(Token::LParen),
        ')' => Ok(Token::RParen),
        '{' => Ok(Token::LBrack),
        '}' => Ok(Token::RBrack),
        ',' => Ok(Token::Comma),
        ';' => Ok(Token::SemiColon),
        '+' => Ok(Token::Add),
        '-' => Ok(Token::Sub),
        '*' => Ok(Token::Mul),
        '/' => Ok(Token::Div),
        '=' => two_char_op('=', Token::Equals, Token::Assign, cur),
        '!' => two_char_op('=', Token::Nequals, Token::Not, cur),
        '<' => two_char_op('=', Token::LeqThan, Token::LeThan, cur),
        '>' => two_char_op('=', Token::GeqThan, Token::GeThan, cur),
        _ => Err(LexerError::UnknownToken),
    }
}

/// Reads the first token of a string slice.
pub fn gettok_str(s: &str) -> (r: LexerRes<Token>)
    ensures
        tok_res_view(r) == sp_gettok(s@, 0).0,
{
    let mut cur = CharCursor::new(s);
    gettok(&mut cur)
}

/// Reads the first token of an owned string.
pub fn gettok_string(s: &String) -> (r: LexerRes<Token>)
    ensures
        tok_res_view(r) == sp_gettok(s@, 0).0,
{
    gettok_str(s.as_str())
}

} // verus!
