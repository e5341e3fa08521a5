//! An early, minimal lexer kept beside the parser: only numbers, identifiers
//! and the two keywords `fn` and `return`. The full lexer lives in
//! [`crate::lexer`]; this one survives as the parser's first draft.

use vstd::prelude::*;
use vstd::string::StrSliceExecFns;
use crate::lexer::token::{
    is_alpha_char, is_digit_char, sp_end_digits, sp_end_ident, sp_skip_ws, digit_char, ident_char,
    space_char, CharCursor,
};
use crate::utils::str_eq;

verus! {

/// The only failure this draft lexer reports: no characters left.
#[derive(Debug, PartialEq, Eq, Clone, Copy)]
pub enum LexerError {
    EOF,
}

/// The draft lexer's tokens.
#[derive(Debug, PartialEq)]
pub enum Token {
    Number(String),
    Identifier(String),
    Function,
    Return,
}

pub type LexerRes<T> = Result<T, LexerError>;

/// The model of a draft token.
pub enum DraftTokenV {
    Number(Seq<char>),
    Identifier(Seq<char>),
    Function,
    Return,
}

impl View for Token {
    type V = DraftTokenV;

    open spec fn view(&self) -> DraftTokenV {
        match self {
            Token::Number(s) => DraftTokenV::Number(s@),
            Token::Identifier(s) => DraftTokenV::Identifier(s@),
            Token::Function => DraftTokenV::Function,
            Token::Return => DraftTokenV::Return,
        }
    }
}

/// Which draft token an identifier run denotes.
pub open spec fn sp_draft_keyword(text: Seq<char>) -> DraftTokenV {
    if text == "fn"@ {
        DraftTokenV::Function
    } else if text == "return"@ {
        DraftTokenV::Return
    } else {
        DraftTokenV::Identifier(text)
    }
}

/// What the draft lexer reads at position `p`: nothing at end of input, else
/// the digit or identifier run that starts there. It knows no other tokens,
/// so its callers owe it a text of numbers, words and whitespace.
pub open spec fn sp_draft_gettok(s: Seq<char>, p: int) -> (Result<DraftTokenV, LexerError>, int) {
    let q = sp_skip_ws(s, p);
    if !(0 <= q && q < s.len()) {
        (Err(LexerError::EOF), q)
    } else if is_digit_char(s[q]) {
        let e = sp_end_digits(s, q);
        (Ok(DraftTokenV::Number(s.subrange(q, e))), e)
    } else {
        let e = sp_end_ident(s, q);
        (Ok(sp_draft_keyword(s.subrange(q, e))), e)
    }
}

fn skip_whitespace(cur: &mut CharCursor) -> (r: LexerRes<char>)
    requires
        old(cur).wf(),
    ensures
        final(cur).wf(),
        final(cur).text() == old(cur).text(),
        final(cur).at() == sp_skip_ws(old(cur).text(), old(cur).at()),
        old(cur).at() <= final(cur).at() <= final(cur).text().len(),
        match r {
            Ok(c) => final(cur).at() < final(cur).text().len() && c
                == final(cur).text()[final(cur).at()],
            Err(e) => e == LexerError::EOF && final(cur).at() == final(cur).text().len(),
        },
{
    loop
        invariant
            cur.wf(),
            cur.text() == old(cur).text(),
            old(cur).at() <= cur.at() <= cur.text().len(),
            sp_skip_ws(old(cur).text(), old(cur).at()) == sp_skip_ws(cur.text(), cur.at()),
        decreases cur.text().len() - cur.at(),
    {
        match cur.peek() {
            None => {
                return Err(LexerError::EOF);
            },
            Some(c) => {
                if !space_char(c) {
                    return Ok(c);
                }
            },
        }
        cur.advance();
    }
}

fn get_number(cur: &mut CharCursor) -> (r: LexerRes<Token>)
    requires
        old(cur).wf(),
    ensures
        final(cur).wf(),
        final(cur).text() == old(cur).text(),
        final(cur).at() == sp_end_digits(old(cur).text(), old(cur).at()),
        old(cur).at() <= final(cur).at() <= final(cur).text().len(),
        match r {
            Ok(t) => t@ == DraftTokenV::Number(
                old(cur).text().subrange(old(cur).at(), final(cur).at()),
            ),
            Err(_) => false,
        },
{
    let start = cur.mark();
    loop
        invariant
            cur.wf(),
            cur.text() == old(cur).text(),
            old(cur).at() <= cur.at() <= cur.text().len(),
            start == old(cur).at(),
            sp_end_digits(old(cur).text(), old(cur).at()) == sp_end_digits(cur.text(), cur.at()),
        ensures
            cur.wf(),
            cur.text() == old(cur).text(),
            start == old(cur).at(),
            old(cur).at() <= cur.at() <= cur.text().len(),
            cur.at() == sp_end_digits(old(cur).text(), old(cur).at()),
        decreases cur.text().len() - cur.at(),
    {
        match cur.peek() {
            None => {
                break;
            },
            Some(c) => {
                if !digit_char(c) {
                    break;
                }
            },
        }
        cur.advance();
    }
    Ok(Token::Number(cur.take_from(start)))
}

fn get_ident(cur: &mut CharCursor) -> (r: LexerRes<Token>)
    requires
        old(cur).wf(),
    ensures
        final(cur).wf(),
        final(cur).text() == old(cur).text(),
        final(cur).at() == sp_end_ident(old(cur).text(), old(cur).at()),
        old(cur).at() <= final(cur).at() <= final(cur).text().len(),
        match r {
            Ok(t) => t@ == sp_draft_keyword(
                old(cur).text().subrange(old(cur).at(), final(cur).at()),
            ),
            Err(_) => false,
        },
{
    let start = cur.mark();
    loop
        invariant
            cur.wf(),
            cur.text() == old(cur).text(),
            old(cur).at() <= cur.at() <= cur.text().len(),
            start == old(cur).at(),
            sp_end_ident(old(cur).text(), old(cur).at()) == sp_end_ident(cur.text(), cur.at()),
        ensures
            cur.wf(),
            cur.text() == old(cur).text(),
            start == old(cur).at(),
            old(cur).at() <= cur.at() <= cur.text().len(),
            cur.at() == sp_end_ident(old(cur).text(), old(cur).at()),
        decreases cur.text().len() - cur.at(),
    {
        match cur.peek() {
            None => {
                break;
            },
            Some(c) => {
                if !ident_char(c) {
                    break;
                }
            },
        }
        cur.advance();
    }
    let text = cur.slice_from(start);
    let tok = if str_eq(text, "fn") {
        Token::Function
    } else if str_eq(text, "return") {
        Token::Return
    } else {
        Token::Identifier(text.to_owned())
    };
    Ok(tok)
}

/// Reads the number or word at the cursor. Any other kind of character is
/// outside this draft's language, so the caller keeps those out.
pub fn gettok(cur: &mut CharCursor) -> (r: LexerRes<Token>)
    requires
        old(cur).wf(),
        ({
            let q = sp_skip_ws(old(cur).text(), old(cur).at());
            q < old(cur).text().len() ==> is_digit_char(old(cur).text()[q]) || is_alpha_char(
                old(cur).text()[q],
            )
        }),
    ensures
        final(cur).wf(),
        final(cur).text() == old(cur).text(),
        old(cur).at() <= final(cur).at() <= final(cur).text().len(),
        sp_draft_gettok(old(cur).text(), old(cur).at()) == (
            match r {
                Ok(t) => Ok::<DraftTokenV, LexerError>(t@),
                Err(e) => Err::<DraftTokenV, LexerError>(e),
            },
            final(cur).at(),
        ),
{
    let c = match skip_whitespace(cur) {
        Ok(c) => c,
        Err(e) => {
            return Err(e);
        },
    };
    if digit_char(c) {
        get_number(cur)
    } else {
        get_ident(cur)
    }
}

} // verus!
