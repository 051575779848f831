//! A small front end for a toy language: a tokenizer with transactional
//! backtracking, a combinator algebra of token rules, and a recursive-descent
//! parser that builds a tree of statements and expressions.
//!
//! At this root stands the plain form of the rule algebra: a cursor without
//! locations, and rules that yield the matched text.
use vstd::prelude::*;
use vstd::string::*;

pub mod text;
pub mod token;
pub mod tokenizer;
pub mod rules;
pub mod lexer;
pub mod ast;
pub mod parser;
pub mod laws;

use crate::text::{is_space, lemma_span_end_bounds, lemma_span_end_unique, skip_space, whitespace};

verus! {

pub struct ParserState {
    pub input: String,
    /// Index, in characters, of the next character to read.
    pub pos: usize,
    /// Saved positions, last pushed on top.
    pub stack: Vec<usize>,
}

impl ParserState {
    /// The cursor, and every saved position, lies inside the text.
    pub open spec fn wf(&self) -> bool {
        &&& self.input@.len() <= usize::MAX
        &&& self.pos <= self.input@.len()
        &&& forall|i: int| 0 <= i < self.stack@.len() ==> #[trigger] self.stack@[i] <= self.input@.len()
    }

    pub fn new(input: &str) -> (r: Self)
        ensures
            r.wf(),
            r.input@ == input@,
            r.pos == 0,
            r.stack@.len() == 0,
    {
        let _n = input.unicode_len();
        ParserState { input: input.to_owned(), pos: 0, stack: Vec::new() }
    }

    /// Consumes the longest run of characters that satisfy `pred` and returns it.
    pub fn consume_while(&mut self, pred: impl Fn(char) -> bool) -> (r: String)
        requires
            old(self).wf(),
            forall|c: char| pred.requires((c,)),
        ensures
            final(self).wf(),
            final(self).input@ == old(self).input@,
            final(self).stack@ == old(self).stack@,
            old(self).pos <= final(self).pos,
            r@ == old(self).input@.subrange(old(self).pos as int, final(self).pos as int),
            forall|i: int|
                old(self).pos <= i < final(self).pos ==> pred.ensures(
                    (#[trigger] old(self).input@[i],),
                    true,
                ),
            final(self).pos == old(self).input@.len() || pred.ensures(
                (old(self).input@[final(self).pos as int],),
                false,
            ),
    {
        let start = self.pos;
        let len = self.input.as_str().unicode_len();
        let ghost text = self.input@;
        loop
            invariant
                self.wf(),
                self.input@ == old(self).input@,
                self.stack@ == old(self).stack@,
                text == self.input@,
                len == text.len(),
                start == old(self).pos,
                start <= self.pos,
                forall|c: char| pred.requires((c,)),
                forall|i: int| start <= i < self.pos ==> pred.ensures((#[trigger] text[i],), true),
            ensures
                self.wf(),
                self.input@ == old(self).input@,
                self.stack@ == old(self).stack@,
                start <= self.pos,
                forall|i: int| start <= i < self.pos ==> pred.ensures((#[trigger] text[i],), true),
                self.pos == text.len() || pred.ensures((text[self.pos as int],), false),
            decreases len - self.pos,
        {
            if self.pos >= len {
                break;
            }
            let c = self.input.as_str().get_char(self.pos);
            if !pred(c) {
                break;
            }
            self.pos = self.pos + 1;
        }
        self.input.as_str().substring_char(start, self.pos).to_owned()
    }

    /// Skips the longest run of whitespace.
    pub fn ignore_whitespace(&mut self)
        requires
            old(self).wf(),
        ensures
            final(self).wf(),
            final(self).input@ == old(self).input@,
            final(self).stack@ == old(self).stack@,
            final(self).pos == skip_space(old(self).input@, old(self).pos as int),
    {
        let ghost p = |c: char| is_space(c);
        let _ = self.consume_while(|c: char| -> (r: bool) ensures r == is_space(c) { whitespace(c) });
        proof {
            lemma_span_end_unique(old(self).input@, old(self).pos as int, self.pos as int, p);
        }
    }

    pub fn eof(&self) -> (r: bool)
        requires
            self.wf(),
        ensures
            r == (self.pos >= self.input@.len()),
    {
        self.pos >= self.input.as_str().unicode_len()
    }

    pub fn peek(&self) -> (r: Option<char>)
        requires
            self.wf(),
        ensures
            r == (if self.pos < self.input@.len() {
                Some(self.input@[self.pos as int])
            } else {
                None
            }),
    {
        if self.pos < self.input.as_str().unicode_len() {
            Some(self.input.as_str().get_char(self.pos))
        } else {
            None
        }
    }

    /// Reads the next character, if there is one, and moves past it.
    pub fn consume(&mut self) -> (r: Option<char>)
        requires
            old(self).wf(),
        ensures
            final(self).wf(),
            final(self).input@ == old(self).input@,
            final(self).stack@ == old(self).stack@,
            r == (if old(self).pos < old(self).input@.len() {
                Some(old(self).input@[old(self).pos as int])
            } else {
                None
            }),
            final(self).pos == (if r is Some { old(self).pos + 1 } else { old(self).pos as int }),
    {
        let c = self.peek();
        if c.is_some() {
            self.pos = self.pos + 1;
        }
        c
    }

    /// Saves the current position.
    pub fn push(&mut self)
        requires
            old(self).wf(),
        ensures
            final(self).wf(),
            final(self).input@ == old(self).input@,
            final(self).pos == old(self).pos,
            final(self).stack@ == old(self).stack@.push(old(self).pos),
    {
        self.stack.push(self.pos);
    }

    /// Returns to the last saved position and forgets it.
    pub fn pop(&mut self)
        requires
            old(self).wf(),
            old(self).stack@.len() > 0,
        ensures
            final(self).wf(),
            final(self).input@ == old(self).input@,
            final(self).pos == old(self).stack@.last(),
            final(self).stack@ == old(self).stack@.drop_last(),
    {
        let ghost top = self.stack@.len() - 1;
        let p = self.stack.pop().unwrap();
        proof {
            assert(old(self).stack@[top] == p);
        }
        self.pos = p;
    }

    /// Forgets the last saved position, staying where the cursor is.
    pub fn commit(&mut self)
        requires
            old(self).wf(),
        ensures
            final(self).wf(),
            final(self).input@ == old(self).input@,
            final(self).pos == old(self).pos,
            final(self).stack@ == (if old(self).stack@.len() > 0 {
                old(self).stack@.drop_last()
            } else {
                old(self).stack@
            }),
    {
        let _ = self.stack.pop();
    }
}

/// A rule over the plain cursor: it yields the text it matched.
pub trait Rule {
    /// What an attempt at `pos` in `text` yields: the matched text and the
    /// position just past what it consumed.
    spec fn outcome(&self, text: Seq<char>, pos: int) -> Option<(Seq<char>, int)>;

    fn parse(&self, state: &mut ParserState) -> (r: Option<String>)
        requires
            old(state).wf(),
        ensures
            final(state).wf(),
            final(state).input@ == old(state).input@,
            final(state).stack@ == old(state).stack@,
            old(state).pos <= final(state).pos,
            self.outcome(old(state).input@, old(state).pos as int) == match r {
                Some(s) => Some((s@, final(state).pos as int)),
                None => None::<(Seq<char>, int)>,
            },
            r is None ==> final(state).pos == old(state).pos,
    ;
}

/// What the literal `value` yields at `pos`: after whitespace, exactly `value`.
pub open spec fn text_outcome(text: Seq<char>, pos: int, value: Seq<char>) -> Option<(Seq<char>, int)> {
    let start = skip_space(text, pos);
    if start + value.len() <= text.len() && text.subrange(start, start + value.len()) == value {
        Some((value, start + value.len()))
    } else {
        None
    }
}

/// Matches a fixed piece of text.
pub struct Literal {
    value: String,
}

impl Literal {
    pub closed spec fn text(&self) -> Seq<char> {
        self.value@
    }
}

impl Rule for Literal {
    open spec fn outcome(&self, text: Seq<char>, pos: int) -> Option<(Seq<char>, int)> {
        text_outcome(text, pos, self.text())
    }

    fn parse(&self, state: &mut ParserState) -> (r: Option<String>) {
        let ghost text = state.input@;
        let ghost lit = self.value@;
        state.push();
        state.ignore_whitespace();
        let start = state.pos;
        proof {
            lemma_span_end_bounds(text, old(state).pos as int, |c: char| is_space(c));
        }
        let n = self.value.as_str().unicode_len();
        let mut i: usize = 0;
        while i < n
            invariant
                state.wf(),
                state.input@ == text,
                text == old(state).input@,
                state.stack@ == old(state).stack@.push(old(state).pos),
                lit == self.value@,
                n == lit.len(),
                i <= n,
                start == skip_space(text, old(state).pos as int),
                state.pos == start + i,
                text.subrange(start as int, start + i) == lit.subrange(0, i as int),
            decreases n - i,
        {
            let expected = self.value.as_str().get_char(i);
            match state.peek() {
                Some(c) => {
                    if c != expected {
                        proof {
                            if start + lit.len() <= text.len() {
                                assert(text.subrange(start as int, start + lit.len())[i as int] != lit[i as int]);
                            }
                        }
                        state.pop();
                        return None;
                    }
                },
                None => {
                    state.pop();
                    return None;
                },
            }
            state.consume();
            proof {
                assert(text.subrange(start as int, start + i + 1) == text.subrange(start as int, start + i).push(text[start + i]));
                assert(lit.subrange(0, i + 1) == lit.subrange(0, i as int).push(lit[i as int]));
            }
            i = i + 1;
        }
        state.commit();
        proof {
            assert(lit.subrange(0, n as int) == lit);
        }
        Some(self.value.clone())
    }
}

/// Tries the first rule, and the second where the first fails.
pub struct Alternative<T, U>(pub T, pub U);

impl<T: Rule, U: Rule> Rule for Alternative<T, U> {
    open spec fn outcome(&self, text: Seq<char>, pos: int) -> Option<(Seq<char>, int)> {
        match self.0.outcome(text, skip_space(text, pos)) {
            Some((s, end)) => Some((s, skip_space(text, end))),
            None => self.1.outcome(text, pos),
        }
    }

    fn parse(&self, state: &mut ParserState) -> (r: Option<String>) {
        state.push();
        state.ignore_whitespace();
        proof {
            lemma_span_end_bounds(state.input@, old(state).pos as int, |c: char| is_space(c));
        }
        if let Some(res) = self.0.parse(state) {
            proof {
                lemma_span_end_bounds(state.input@, state.pos as int, |c: char| is_space(c));
            }
            state.ignore_whitespace();
            state.commit();
            return Some(res);
        }
        state.pop();
        self.1.parse(state)
    }
}

/// Matches the first rule, then the second; all or nothing.
pub struct Sequence<T, U>(pub T, pub U);

impl<T: Rule, U: Rule> Rule for Sequence<T, U> {
    open spec fn outcome(&self, text: Seq<char>, pos: int) -> Option<(Seq<char>, int)> {
        match self.0.outcome(text, skip_space(text, pos)) {
            Some((a, mid)) => match self.1.outcome(text, skip_space(text, mid)) {
                Some((b, end)) => Some((a + b, end)),
                None => None,
            },
            None => None,
        }
    }

    fn parse(&self, state: &mut ParserState) -> (r: Option<String>) {
        state.push();
        state.ignore_whitespace();
        proof {
            lemma_span_end_bounds(state.input@, old(state).pos as int, |c: char| is_space(c));
        }
        if let Some(a) = self.0.parse(state) {
            proof {
                lemma_span_end_bounds(state.input@, state.pos as int, |c: char| is_space(c));
            }
            state.ignore_whitespace();
            if let Some(b) = self.1.parse(state) {
                state.commit();
                return Some(a.concat(b.as_str()));
            }
        }
        state.pop();
        None
    }
}

/// Runs `rule` at the cursor.
pub fn exec<T: Rule>(rule: T, state: &mut ParserState) -> (r: Option<String>)
    requires
        old(state).wf(),
    ensures
        final(state).wf(),
        final(state).input@ == old(state).input@,
        final(state).stack@ == old(state).stack@,
        rule.outcome(old(state).input@, old(state).pos as int) == match r {
            Some(s) => Some((s@, final(state).pos as int)),
            None => None::<(Seq<char>, int)>,
        },
        r is None ==> final(state).pos == old(state).pos,
{
    rule.parse(state)
}

/// The rule that matches `value`.
pub fn lit(value: &str) -> (r: impl Rule)
    ensures
        forall|text: Seq<char>, pos: int| #[trigger] r.outcome(text, pos) == text_outcome(text, pos, value@),
{
    Literal { value: value.to_owned() }
}

/// The rule that tries `a`, then `b` where `a` fails.
pub fn or<T: Rule, U: Rule>(a: T, b: U) -> (r: impl Rule)
    ensures
        forall|text: Seq<char>, pos: int| #[trigger] r.outcome(text, pos) == Alternative(a, b).outcome(text, pos),
{
    Alternative(a, b)
}

/// The rule that matches `a`, then `b`.
pub fn and<T: Rule, U: Rule>(a: T, b: U) -> (r: impl Rule)
    ensures
        forall|text: Seq<char>, pos: int| #[trigger] r.outcome(text, pos) == Sequence(a, b).outcome(text, pos),
{
    Sequence(a, b)
}

} // verus!
