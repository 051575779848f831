//! The cursor over source text, with a stack of checkpoints for backtracking.
use vstd::prelude::*;
use vstd::string::*;

use crate::text::{lemma_line_col_bound, span_end, lemma_span_end_unique, is_space, whitespace};
use crate::token::{Location, location_at};

verus! {

pub struct Tokenizer {
    pub input: String,
    /// Index, in characters, of the next character to read.
    pub pos: usize,
    /// Saved positions, each with its location, last pushed on top.
    pub stack: Vec<(usize, Location)>,
    pub location: Location,
    pub keywords: Vec<&'static str>,
}

impl Tokenizer {
    /// The reserved words as character sequences.
    pub open spec fn words(&self) -> Seq<Seq<char>> {
        self.keywords@.map_values(|k: &'static str| k@)
    }

    /// The cursor is inside the text and its location is that of its position;
    /// so are the saved checkpoints.
    pub open spec fn wf(&self) -> bool {
        &&& self.input@.len() < usize::MAX
        &&& self.pos <= self.input@.len()
        &&& self.location == location_at(self.input@, self.pos as int)
        &&& forall|i: int|
            0 <= i < self.stack@.len() ==> {
                &&& (#[trigger] self.stack@[i]).0 <= self.input@.len()
                &&& self.stack@[i].1 == location_at(self.input@, self.stack@[i].0 as int)
            }
    }

    /// Both read the same text against the same reserved words.
    pub open spec fn same_source(&self, other: &Tokenizer) -> bool {
        &&& self.input@ == other.input@
        &&& self.keywords@ == other.keywords@
    }

    pub fn new(input: &str, keywords: Vec<&'static str>) -> (r: Self)
        requires
            input@.len() < usize::MAX,
        ensures
            r.wf(),
            r.input@ == input@,
            r.pos == 0,
            r.stack@.len() == 0,
            r.keywords@ == keywords@,
    {
        Tokenizer {
            input: input.to_owned(),
            pos: 0,
            stack: Vec::new(),
            location: Location { line: 1, column: 1 },
            keywords,
        }
    }

    /// Moves one character on, keeping the location in step.
    fn advance(&mut self, c: char)
        requires
            old(self).wf(),
            old(self).pos < old(self).input@.len(),
            c == old(self).input@[old(self).pos as int],
        ensures
            final(self).wf(),
            final(self).same_source(old(self)),
            final(self).stack@ == old(self).stack@,
            final(self).pos == old(self).pos + 1,
    {
        proof {
            lemma_line_col_bound(self.input@, self.pos as int);
            lemma_line_col_bound(self.input@, self.pos + 1);
        }
        self.pos = self.pos + 1;
        if c == '\n' {
            self.location.line = self.location.line + 1;
            self.location.column = 1;
        } else {
            self.location.column = self.location.column + 1;
        }
    }

    /// Consumes the longest run of characters that satisfy `pred` and returns it.
    pub fn consume_while(&mut self, pred: impl Fn(char) -> bool) -> (r: String)
        requires
            old(self).wf(),
            forall|c: char| pred.requires((c,)),
        ensures
            final(self).wf(),
            final(self).same_source(old(self)),
            final(self).stack@ == old(self).stack@,
            old(self).pos <= final(self).pos,
            r@ == old(self).input@.subrange(old(self).pos as int, final(self).pos as int),
            forall|i: int|
                old(self).pos <= i < final(self).pos ==> pred.ensures(
                    (#[trigger] old(self).input@[i],),
                    true,
                ),
            final(self).pos == old(self).input@.len() || pred.ensures(
                (old(self).input@[final(self).pos as int],),
                false,
            ),
    {
        let start = self.pos;
        let len = self.input.as_str().unicode_len();
        let ghost text = self.input@;
        loop
            invariant
                self.wf(),
                self.same_source(old(self)),
                self.stack@ == old(self).stack@,
                text == self.input@,
                len == text.len(),
                start == old(self).pos,
                start <= self.pos,
                forall|c: char| pred.requires((c,)),
                forall|i: int| start <= i < self.pos ==> pred.ensures((#[trigger] text[i],), true),
            ensures
                self.wf(),
                self.same_source(old(self)),
                self.stack@ == old(self).stack@,
                start <= self.pos,
                forall|i: int| start <= i < self.pos ==> pred.ensures((#[trigger] text[i],), true),
                self.pos == text.len() || pred.ensures((text[self.pos as int],), false),
            decreases len - self.pos,
        {
            if self.pos >= len {
                break;
            }
            let c = self.input.as_str().get_char(self.pos);
            if !pred(c) {
                break;
            }
            self.advance(c);
        }
        self.input.as_str().substring_char(start, self.pos).to_owned()
    }

    /// Skips the longest run of whitespace.
    pub fn ignore_whitespace(&mut self)
        requires
            old(self).wf(),
        ensures
            final(self).wf(),
            final(self).same_source(old(self)),
            final(self).stack@ == old(self).stack@,
            final(self).pos == span_end(old(self).input@, old(self).pos as int, |c: char| is_space(c)),
    {
        let ghost p = |c: char| is_space(c);
        let _ = self.consume_while(|c: char| -> (r: bool) ensures r == is_space(c) { whitespace(c) });
        proof {
            lemma_span_end_unique(old(self).input@, old(self).pos as int, self.pos as int, p);
        }
    }

    pub fn eof(&self) -> (r: bool)
        requires
            self.wf(),
        ensures
            r == (self.pos >= self.input@.len()),
    {
        self.pos >= self.input.as_str().unicode_len()
    }

    pub fn peek(&self) -> (r: Option<char>)
        requires
            self.wf(),
        ensures
            r == (if self.pos < self.input@.len() {
                Some(self.input@[self.pos as int])
            } else {
                None
            }),
    {
        if self.pos < self.input.as_str().unicode_len() {
            Some(self.input.as_str().get_char(self.pos))
        } else {
            None
        }
    }

    /// Reads the next character, if there is one, and moves past it.
    pub fn consume(&mut self) -> (r: Option<char>)
        requires
            old(self).wf(),
        ensures
            final(self).wf(),
            final(self).same_source(old(self)),
            final(self).stack@ == old(self).stack@,
            r == (if old(self).pos < old(self).input@.len() {
                Some(old(self).input@[old(self).pos as int])
            } else {
                None
            }),
            final(self).pos == (if r is Some { old(self).pos + 1 } else { old(self).pos as int }),
    {
        let c = self.peek();
        if let Some(ch) = c {
            self.advance(ch);
        }
        c
    }

    /// Whether `s` is one of the reserved words.
    pub fn is_keyword(&self, s: &str) -> (r: bool)
        ensures
            r == self.words().contains(s@),
    {
        let mut i: usize = 0;
        while i < self.keywords.len()
            invariant
                i <= self.keywords@.len(),
                forall|j: int| 0 <= j < i ==> self.keywords@[j]@ != s@,
            decreases self.keywords@.len() - i,
        {
            if same_text(self.keywords[i], s) {
                proof {
                    assert(self.words()[i as int] == s@);
                }
                return true;
            }
            i = i + 1;
        }
        proof {
            if self.words().contains(s@) {
                let j = choose|j: int| 0 <= j < self.words().len() && self.words()[j] == s@;
                assert(self.keywords@[j]@ == s@);
            }
        }
        false
    }

    /// Saves the current position and location.
    pub fn push(&mut self)
        requires
            old(self).wf(),
        ensures
            final(self).wf(),
            final(self).same_source(old(self)),
            final(self).pos == old(self).pos,
            final(self).stack@ == old(self).stack@.push((old(self).pos, old(self).location)),
    {
        self.stack.push((self.pos, self.location));
    }

    /// Returns to the last saved position and location, and forgets them.
    pub fn pop(&mut self)
        requires
            old(self).wf(),
            old(self).stack@.len() > 0,
        ensures
            final(self).wf(),
            final(self).same_source(old(self)),
            final(self).pos == old(self).stack@.last().0,
            final(self).stack@ == old(self).stack@.drop_last(),
    {
        let ghost top = self.stack@.len() - 1;
        let (p, l) = self.stack.pop().unwrap();
        proof {
            assert(old(self).stack@[top] == (p, l));
        }
        self.pos = p;
        self.location = l;
    }

    /// Forgets the last saved position, staying where the cursor is.
    pub fn commit(&mut self)
        requires
            old(self).wf(),
        ensures
            final(self).wf(),
            final(self).same_source(old(self)),
            final(self).pos == old(self).pos,
            final(self).stack@ == (if old(self).stack@.len() > 0 {
                old(self).stack@.drop_last()
            } else {
                old(self).stack@
            }),
    {
        let _ = self.stack.pop();
    }
}

/// Whether two strings hold the same characters.
pub fn same_text(a: &str, b: &str) -> (r: bool)
    ensures
        r == (a@ == b@),
{
    let n = a.unicode_len();
    if n != b.unicode_len() {
        return false;
    }
    let mut i: usize = 0;
    while i < n
        invariant
            n == a@.len(),
            n == b@.len(),
            i <= n,
            a@.subrange(0, i as int) == b@.subrange(0, i as int),
        decreases n - i,
    {
        if a.get_char(i) != b.get_char(i) {
            return false;
        }
        proof {
            assert(a@.subrange(0, i + 1) == a@.subrange(0, i as int).push(a@[i as int]));
            assert(b@.subrange(0, i + 1) == b@.subrange(0, i as int).push(b@[i as int]));
        }
        i = i + 1;
    }
    proof {
        assert(a@ == a@.subrange(0, n as int));
        assert(b@ == b@.subrange(0, n as int));
    }
    true
}

} // verus!
