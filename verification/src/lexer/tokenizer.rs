//! Whole-text tokenization: a token stream over a source string.

use vstd::prelude::*;
use crate::lexer::error::LexerError;
use crate::lexer::token::{
    gettok, is_digit_char, is_space_char, sp_end_digits, sp_gettok, sp_skip_ws, CharCursor, Token,
    TokenV,
};

verus! {

/// The token sequence of a whole source text, together with the failure that
/// ended tokenization: the ordinary end of input, or an unknown character.
/// The terminating failure is part of the stream, never dropped: the parser
/// reports it to its own caller when it reaches the stream's end.
pub open spec fn sp_lex(s: Seq<char>, p: int) -> (Seq<TokenV>, LexerError)
    decreases s.len() - p,
{
    let step = sp_gettok(s, p);
    match step.0 {
        Err(e) => (Seq::empty(), e),
        Ok(t) => {
            let p2 = if step.1 <= p {
                p + 1
            } else {
                step.1
            };
            if p2 > s.len() {
                (seq![t], LexerError::EOF)
            } else {
                let rest = sp_lex(s, p2);
                (seq![t] + rest.0, rest.1)
            }
        },
    }
}

/// The views of a token sequence.
pub open spec fn tok_views(ts: Seq<Token>) -> Seq<TokenV> {
    Seq::new(ts.len(), |i: int| ts[i]@)
}

/// Tokenizes everything reachable from the cursor, returning the tokens and
/// the failure that ended the run.
fn lex_from(cur: &mut CharCursor) -> (r: (Vec<Token>, LexerError))
    requires
        old(cur).wf(),
    ensures
        tok_views(r.0@) == sp_lex(old(cur).text(), old(cur).at()).0,
        r.1 == sp_lex(old(cur).text(), old(cur).at()).1,
    decreases old(cur).text().len() - old(cur).at(),
{
    match gettok(cur) {
        Err(e) => {
            let v: Vec<Token> = Vec::new();
            proof {
                assert(tok_views(v@) =~= sp_lex(old(cur).text(), old(cur).at()).0);
            }
            (v, e)
        },
        Ok(t) => {
            let ghost text = old(cur).text();
            let ghost p = old(cur).at();
            let ghost p2 = cur.at();
            let (mut rest, term) = lex_from(cur);
            rest.insert(0, t);
            proof {
                assert(tok_views(rest@) =~= seq![t@] + sp_lex(text, p2).0);
                assert(tok_views(rest@) =~= sp_lex(text, p).0);
            }
            (rest, term)
        },
    }
}

/// The tokens of a source text, read front to back, together with the
/// failure that ended tokenization. Reaching the stream's end is reported as
/// that failure: a stream cut short by an unknown character never passes for
/// one that merely ran out of input.
pub struct Tokens {
    toks: Vec<Token>,
    term: LexerError,
    pos: usize,
}

impl Tokens {
    /// The whole token sequence, consumed and remaining.
    pub closed spec fn all(&self) -> Seq<TokenV> {
        tok_views(self.toks@)
    }

    /// The failure that ended tokenization.
    pub closed spec fn term(&self) -> LexerError {
        self.term
    }

    /// How many tokens have been consumed.
    pub closed spec fn at(&self) -> int {
        self.pos as int
    }

    pub open spec fn wf(&self) -> bool {
        0 <= self.at() <= self.all().len()
    }

    /// The failure that ended tokenization, for the stream's consumer.
    pub fn terminator(&self) -> (e: LexerError)
        ensures
            e == self.term(),
    {
        self.term
    }

    /// The next token, if one is left, consuming it.
    pub fn next(&mut self) -> (r: Option<Token>)
        requires
            old(self).wf(),
        ensures
            final(self).wf(),
            final(self).all() == old(self).all(),
            final(self).term() == old(self).term(),
            match r {
                Some(t) => old(self).at() < old(self).all().len() && t@ == old(self).all()[old(
                    self,
                ).at()] && final(self).at() == old(self).at() + 1,
                None => old(self).at() == old(self).all().len() && final(self).at() == old(
                    self,
                ).at(),
            },
    {
        if self.pos < self.toks.len() {
            let t = self.toks[self.pos].duplicate();
            self.pos = self.pos + 1;
            Some(t)
        } else {
            None
        }
    }

    /// The next token, if one is left, without consuming it.
    pub fn peek(&self) -> (r: Option<&Token>)
        requires
            self.wf(),
        ensures
            match r {
                Some(t) => self.at() < self.all().len() && t@ == self.all()[self.at()],
                None => self.at() == self.all().len(),
            },
    {
        if self.pos < self.toks.len() {
            Some(&self.toks[self.pos])
        } else {
            None
        }
    }

    /// All remaining tokens, in order, consuming the stream.
    pub fn into_vec(self) -> (v: Vec<Token>)
        requires
            self.wf(),
        ensures
            tok_views(v@) == self.all().skip(self.at()),
    {
        let Tokens { mut toks, term, pos } = self;
        let ghost whole = toks@;
        let mut v: Vec<Token> = Vec::new();
        let mut i: usize = pos;
        proof {
            assert(tok_views(v@) =~= tok_views(whole).subrange(pos as int, pos as int));
        }
        while i < toks.len()
            invariant
                pos <= i <= toks@.len(),
                toks@ == whole,
                tok_views(v@) == tok_views(whole).subrange(pos as int, i as int),
            decreases toks@.len() - i,
        {
            let t = toks[i].duplicate();
            let ghost prev = v@;
            v.push(t);
            proof {
                assert(v@ == prev.push(t));
                assert(t@ == whole[i as int]@);
                assert(tok_views(prev).len() == prev.len());
                assert(tok_views(whole).subrange(pos as int, i as int).len() == i - pos);
                assert(prev.len() == i - pos);
                assert(v@.len() == i + 1 - pos);
                assert forall|j: int| 0 <= j < v@.len() implies tok_views(v@)[j] == tok_views(
                    whole,
                ).subrange(pos as int, i + 1)[j] by {
                    assert(tok_views(v@)[j] == v@[j]@);
                    assert(0 <= pos + j < whole.len());
                    assert(tok_views(whole).subrange(pos as int, i + 1)[j] == tok_views(whole)[pos
                        + j]);
                    assert(tok_views(whole)[pos + j] == whole[pos + j]@);
                    if j < prev.len() {
                        assert(v@[j] == prev[j]);
                        assert(tok_views(prev)[j] == prev[j]@);
                        assert(tok_views(prev)[j] == tok_views(whole).subrange(
                            pos as int,
                            i as int,
                        )[j]);
                        assert(tok_views(whole).subrange(pos as int, i as int)[j] == tok_views(
                            whole,
                        )[pos + j]);
                        assert(prev[j]@ == whole[pos + j]@);
                    } else {
                        assert(v@[j] == t);
                        assert(pos + j == i as int);
                    }
                }
                assert(tok_views(v@) =~= tok_views(whole).subrange(pos as int, i + 1));
            }
            i = i + 1;
        }
        proof {
            assert(tok_views(whole).subrange(pos as int, whole.len() as int) =~= tok_views(
                whole,
            ).skip(pos as int));
        }
        v
    }
}

/// Tokenizes a whole source text, keeping the failure that ended the run.
pub fn tokenize(s: &str) -> (t: Tokens)
    ensures
        t.wf(),
        t.all() == sp_lex(s@, 0).0,
        t.term() == sp_lex(s@, 0).1,
        t.at() == 0,
{
    let mut cur = CharCursor::new(s);
    let (toks, term) = lex_from(&mut cur);
    Tokens { toks, term, pos: 0 }
}

// ---------------------------------------------------------------------------
// Laws of the lexer.
// ---------------------------------------------------------------------------

proof fn lemma_end_digits_all(s: Seq<char>, p: int)
    requires
        0 <= p <= s.len(),
        forall|i: int| p <= i < s.len() ==> is_digit_char(s[i]),
    ensures
        sp_end_digits(s, p) == s.len(),
    decreases s.len() - p,
{
    if p < s.len() {
        lemma_end_digits_all(s, p + 1);
    }
}

/// Law: a non-empty string of decimal digits, with nothing around them,
/// tokenizes to exactly one numeric token whose text is the whole string.
pub proof fn lemma_lex_digit_string(s: Seq<char>)
    requires
        s.len() > 0,
        forall|i: int| 0 <= i < s.len() ==> is_digit_char(#[trigger] s[i]),
    ensures
        sp_lex(s, 0) == (seq![TokenV::Number(s)], LexerError::EOF),
{
    assert(!is_space_char(s[0]));
    assert(sp_skip_ws(s, 0) == 0);
    lemma_end_digits_all(s, 0);
    assert(s.subrange(0, s.len() as int) =~= s);
    assert(sp_gettok(s, 0) == (Ok::<TokenV, LexerError>(TokenV::Number(s)), s.len() as int));
    assert(sp_skip_ws(s, s.len() as int) == s.len() as int);
    assert(sp_lex(s, s.len() as int).0 =~= Seq::<TokenV>::empty());
    assert(sp_lex(s, s.len() as int).1 == LexerError::EOF);
    assert(sp_lex(s, 0).0 =~= seq![TokenV::Number(s)]);
}

} // verus!
