//! Character classes and the positional model of source text.
use vstd::prelude::*;

verus! {

/// What `char::is_whitespace` answers for a character.
pub uninterp spec fn is_space(c: char) -> bool;

/// What `char::is_alphabetic` answers for a character.
pub uninterp spec fn is_letter(c: char) -> bool;

/// What `char::is_alphanumeric` answers for a character.
pub uninterp spec fn is_letter_or_digit(c: char) -> bool;

/// What `char::is_numeric` answers for a character.
pub uninterp spec fn is_numeral(c: char) -> bool;

/// Relies on `char::is_whitespace`, which depends on the character alone.
#[verifier::external_body]
pub(crate) fn whitespace(c: char) -> (r: bool)
    ensures
        r == is_space(c),
{
    c.is_whitespace()
}

/// Relies on `char::is_alphabetic`, which depends on the character alone.
#[verifier::external_body]
pub(crate) fn alphabetic(c: char) -> (r: bool)
    ensures
        r == is_letter(c),
{
    c.is_alphabetic()
}

/// Relies on `char::is_alphanumeric`, which depends on the character alone.
#[verifier::external_body]
pub(crate) fn alphanumeric(c: char) -> (r: bool)
    ensures
        r == is_letter_or_digit(c),
{
    c.is_alphanumeric()
}

/// Relies on `char::is_numeric`, which depends on the character alone.
#[verifier::external_body]
pub(crate) fn numeric(c: char) -> (r: bool)
    ensures
        r == is_numeral(c),
{
    c.is_numeric()
}

/// A character that may continue an identifier.
pub open spec fn is_word_char(c: char) -> bool {
    is_letter_or_digit(c) || c == '_'
}

/// The index just past the longest run of characters from `start` on that satisfy `p`.
pub open spec fn span_end(text: Seq<char>, start: int, p: spec_fn(char) -> bool) -> int
    decreases text.len() - start,
{
    if 0 <= start < text.len() && p(text[start]) {
        span_end(text, start + 1, p)
    } else {
        start
    }
}

/// The position reached from `pos` by skipping whitespace.
pub open spec fn skip_space(text: Seq<char>, pos: int) -> int {
    span_end(text, pos, |c: char| is_space(c))
}

pub proof fn lemma_span_end_bounds(text: Seq<char>, start: int, p: spec_fn(char) -> bool)
    requires
        0 <= start <= text.len(),
    ensures
        start <= span_end(text, start, p) <= text.len(),
        forall|i: int| start <= i < span_end(text, start, p) ==> p(#[trigger] text[i]),
        span_end(text, start, p) == text.len() || !p(text[span_end(text, start, p)]),
    decreases text.len() - start,
{
    if start < text.len() && p(text[start]) {
        lemma_span_end_bounds(text, start + 1, p);
    }
}

/// A run that holds `p` throughout and stops where `p` fails, or at the end, is the longest one.
pub proof fn lemma_span_end_unique(text: Seq<char>, start: int, end: int, p: spec_fn(char) -> bool)
    requires
        0 <= start <= end <= text.len(),
        forall|i: int| start <= i < end ==> p(#[trigger] text[i]),
        end == text.len() || !p(text[end]),
    ensures
        span_end(text, start, p) == end,
    decreases end - start,
{
    if start < end {
        lemma_span_end_unique(text, start + 1, end, p);
    }
}

/// Line and column, both from 1, of the character at index `n`.
pub open spec fn line_col(text: Seq<char>, n: int) -> (int, int)
    decreases n,
{
    if n <= 0 {
        (1, 1)
    } else {
        let prev = line_col(text, n - 1);
        if text[n - 1] == '\n' {
            (prev.0 + 1, 1)
        } else {
            (prev.0, prev.1 + 1)
        }
    }
}

pub proof fn lemma_line_col_bound(text: Seq<char>, n: int)
    requires
        0 <= n,
    ensures
        line_col(text, n).0 >= 1,
        line_col(text, n).1 >= 1,
        line_col(text, n).0 + line_col(text, n).1 <= n + 2,
    decreases n,
{
    if n > 0 {
        lemma_line_col_bound(text, n - 1);
    }
}

} // verus!
