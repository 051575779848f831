//! Composable token rules: a literal, an alternative and a sequence.
//!
//! Every rule is transactional: when it fails, the cursor is where it was.
use vstd::prelude::*;
use vstd::string::*;

use crate::text::{skip_space, lemma_span_end_bounds, is_space};
use crate::token::{Token, TokenKind, TokenView, location_at};
use crate::tokenizer::Tokenizer;

verus! {

pub trait Rule {
    /// What an attempt at `pos` in `text`, with reserved `words`, yields: the
    /// token and the position just past what it consumed.
    spec fn outcome(&self, text: Seq<char>, words: Seq<Seq<char>>, pos: int) -> Option<(TokenView, int)>;

    fn parse(&self, state: &mut Tokenizer) -> (r: Option<Token>)
        requires
            old(state).wf(),
        ensures
            final(state).wf(),
            final(state).same_source(old(state)),
            final(state).stack@ == old(state).stack@,
            old(state).pos <= final(state).pos,
            self.outcome(old(state).input@, old(state).words(), old(state).pos as int) == match r {
                Some(t) => Some((t@, final(state).pos as int)),
                None => None::<(TokenView, int)>,
            },
            r is None ==> final(state).pos == old(state).pos,
    ;
}

/// What a literal rule for `lit` yields at `pos`: after whitespace, the exact text
/// `lit`, a keyword if it is a reserved word.
pub open spec fn lit_outcome(text: Seq<char>, words: Seq<Seq<char>>, pos: int, lit: Seq<char>) -> Option<(TokenView, int)> {
    let start = skip_space(text, pos);
    if start + lit.len() <= text.len() && text.subrange(start, start + lit.len()) == lit {
        Some((TokenView {
            kind: if words.contains(lit) { TokenKind::Keyword } else { TokenKind::Unknown },
            literal: lit,
            location: location_at(text, start),
        }, start + lit.len()))
    } else {
        None
    }
}

/// Matches a fixed piece of text.
#[derive(Debug)]
pub struct Lit(pub &'static str);

impl Rule for Lit {
    open spec fn outcome(&self, text: Seq<char>, words: Seq<Seq<char>>, pos: int) -> Option<(TokenView, int)> {
        lit_outcome(text, words, pos, self.0@)
    }

    fn parse(&self, state: &mut Tokenizer) -> (r: Option<Token>) {
        let ghost text = state.input@;
        let ghost lit = self.0@;
        state.push();
        state.ignore_whitespace();
        let start = state.pos;
        let location = state.location;
        proof {
            lemma_span_end_bounds(text, old(state).pos as int, |c: char| is_space(c));
        }
        let n = self.0.unicode_len();
        let mut i: usize = 0;
        while i < n
            invariant
                state.wf(),
                state.same_source(old(state)),
                state.stack@ == old(state).stack@.push((old(state).pos, old(state).location)),
                text == state.input@,
                lit == self.0@,
                n == lit.len(),
                i <= n,
                start == skip_space(text, old(state).pos as int),
                state.pos == start + i,
                text.subrange(start as int, start + i) == lit.subrange(0, i as int),
            decreases n - i,
        {
            let expected = self.0.get_char(i);
            match state.peek() {
                Some(c) => {
                    if c != expected {
                        proof {
                            if start + lit.len() <= text.len() {
                                assert(text.subrange(start as int, start + lit.len())[i as int] != lit[i as int]);
                            }
                        }
                        state.pop();
                        return None;
                    }
                },
                None => {
                    state.pop();
                    return None;
                },
            }
            state.consume();
            proof {
                assert(text.subrange(start as int, start + i + 1) == text.subrange(start as int, start + i).push(text[start + i]));
                assert(lit.subrange(0, i + 1) == lit.subrange(0, i as int).push(lit[i as int]));
            }
            i = i + 1;
        }
        state.commit();
        proof {
            assert(lit.subrange(0, n as int) == lit);
        }
        let kind = if state.is_keyword(self.0) {
            TokenKind::Keyword
        } else {
            TokenKind::Unknown
        };
        Some(Token { kind, literal: self.0.to_owned(), location })
    }
}

/// Tries the first rule, and the second where the first fails.
#[derive(Debug)]
pub struct Or<T, U>(pub T, pub U);

impl<T: Rule, U: Rule> Rule for Or<T, U> {
    open spec fn outcome(&self, text: Seq<char>, words: Seq<Seq<char>>, pos: int) -> Option<(TokenView, int)> {
        match self.0.outcome(text, words, skip_space(text, pos)) {
            Some((t, end)) => Some((t, skip_space(text, end))),
            None => self.1.outcome(text, words, pos),
        }
    }

    fn parse(&self, state: &mut Tokenizer) -> (r: Option<Token>) {
        state.push();
        state.ignore_whitespace();
        proof {
            lemma_span_end_bounds(state.input@, old(state).pos as int, |c: char| is_space(c));
        }
        if let Some(res) = self.0.parse(state) {
            let ghost mid = state.pos as int;
            proof {
                lemma_span_end_bounds(state.input@, mid, |c: char| is_space(c));
            }
            state.ignore_whitespace();
            state.commit();
            return Some(res);
        }
        state.pop();
        self.1.parse(state)
    }
}

/// Matches the first rule, then the second; all or nothing.
#[derive(Debug)]
pub struct And<T, U>(pub T, pub U);

impl<T: Rule, U: Rule> Rule for And<T, U> {
    open spec fn outcome(&self, text: Seq<char>, words: Seq<Seq<char>>, pos: int) -> Option<(TokenView, int)> {
        match self.0.outcome(text, words, skip_space(text, pos)) {
            Some((a, mid)) => match self.1.outcome(text, words, skip_space(text, mid)) {
                Some((b, end)) => Some((TokenView {
                    kind: TokenKind::Unknown,
                    literal: a.literal + b.literal,
                    location: a.location,
                }, end)),
                None => None,
            },
            None => None,
        }
    }

    fn parse(&self, state: &mut Tokenizer) -> (r: Option<Token>) {
        state.push();
        state.ignore_whitespace();
        proof {
            lemma_span_end_bounds(state.input@, old(state).pos as int, |c: char| is_space(c));
        }
        let res_a = self.0.parse(state);
        if let Some(a) = res_a {
            proof {
                lemma_span_end_bounds(state.input@, state.pos as int, |c: char| is_space(c));
            }
            state.ignore_whitespace();
            let res_b = self.1.parse(state);
            if let Some(b) = res_b {
                state.commit();
                return Some(Token {
                    kind: TokenKind::Unknown,
                    literal: a.literal.concat(b.literal.as_str()),
                    location: a.location,
                });
            }
        }
        state.pop();
        None
    }
}

} // verus!
