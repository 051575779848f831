//! Laws of the rule algebra.
use vstd::prelude::*;

use crate::lexer::{Ident, Number, Str};
use crate::parser::{expr_at, primary_at, product_at, program_at, stmt_at, sum_at};
use crate::rules::{And, Lit, Or, Rule};
use crate::text::{is_letter, is_numeral, is_space, skip_space};
use crate::token::{TokenKind, TokenView};
use crate::{Alternative, Sequence};
use crate::Rule as PlainRule;

verus! {

/// An alternative behaves as its first rule wherever that rule matches (then
/// skipping the whitespace after it), and as its second rule, failure
/// included, wherever the first does not.
pub proof fn or_is_first_else_second<A: Rule, B: Rule>(a: A, b: B, text: Seq<char>, words: Seq<Seq<char>>, pos: int)
    ensures
        a.outcome(text, words, skip_space(text, pos)) matches Some((t, end)) ==> Or(a, b).outcome(text, words, pos)
            == Some((t, skip_space(text, end))),
        a.outcome(text, words, skip_space(text, pos)) is None ==> Or(a, b).outcome(text, words, pos)
            == b.outcome(text, words, pos),
{
}

/// A sequence matches exactly when its first rule matches after whitespace and
/// its second matches after the whitespace that follows; its token then joins
/// the two texts, is unclassified, and starts where the first one does.
pub proof fn and_needs_both<A: Rule, B: Rule>(a: A, b: B, text: Seq<char>, words: Seq<Seq<char>>, pos: int)
    ensures
        And(a, b).outcome(text, words, pos) is Some <==> (a.outcome(text, words, skip_space(text, pos)) matches Some((_, mid))
            && b.outcome(text, words, skip_space(text, mid)) is Some),
        And(a, b).outcome(text, words, pos) matches Some((t, end)) ==> ({
            let (ta, mid) = a.outcome(text, words, skip_space(text, pos))->Some_0;
            let (tb, e) = b.outcome(text, words, skip_space(text, mid))->Some_0;
            &&& t == TokenView { kind: TokenKind::Unknown, literal: ta.literal + tb.literal, location: ta.location }
            &&& end == e
        }),
{
}

/// The plain alternative behaves as its first rule wherever that rule
/// matches, and as its second rule, failure included, wherever it does not.
pub proof fn alternative_is_first_else_second<A: PlainRule, B: PlainRule>(a: A, b: B, text: Seq<char>, pos: int)
    ensures
        a.outcome(text, skip_space(text, pos)) matches Some((s, end)) ==> Alternative(a, b).outcome(text, pos)
            == Some((s, skip_space(text, end))),
        a.outcome(text, skip_space(text, pos)) is None ==> Alternative(a, b).outcome(text, pos)
            == b.outcome(text, pos),
{
}

/// The plain sequence matches exactly when both rules match one after the
/// other, with whitespace between; it yields the two texts joined.
pub proof fn sequence_needs_both<A: PlainRule, B: PlainRule>(a: A, b: B, text: Seq<char>, pos: int)
    ensures
        Sequence(a, b).outcome(text, pos) is Some <==> (a.outcome(text, skip_space(text, pos)) matches Some((_, mid))
            && b.outcome(text, skip_space(text, mid)) is Some),
        Sequence(a, b).outcome(text, pos) matches Some((s, end)) ==> ({
            let (sa, mid) = a.outcome(text, skip_space(text, pos))->Some_0;
            let (sb, e) = b.outcome(text, skip_space(text, mid))->Some_0;
            s == sa + sb && end == e
        }),
{
}

/// A text whose first character can begin no token of the grammar (it is not
/// whitespace, a letter, `_`, a numeral, `"` or `(`) yields no statement, and
/// reading stops there without a complaint about line breaks.
pub proof fn unknown_start_yields_nothing(text: Seq<char>, words: Seq<Seq<char>>)
    requires
        text.len() > 0,
        !is_space(text[0]),
        !is_letter(text[0]),
        text[0] != '_',
        !is_numeral(text[0]),
        text[0] != '"',
        text[0] != '(',
    ensures
        program_at(text, words, 0) == (Seq::<crate::ast::Stmt>::empty(), false),
{
    reveal_strlit("(");
    assert(skip_space(text, 0) == 0);
    assert(Number.outcome(text, words, 0) is None);
    assert(Ident.outcome(text, words, 0) is None);
    assert(Str.outcome(text, words, 0) is None);
    assert(Lit("(").outcome(text, words, 0) is None) by {
        if 1 <= text.len() {
            assert(text.subrange(0, 1)[0] == text[0]);
        }
    }
    assert(primary_at(text, words, 0) is None);
    assert(product_at(text, words, 0) is None);
    assert(sum_at(text, words, 0) is None);
    assert(expr_at(text, words, 0) is None);
    assert(stmt_at(text, words, 0) is None);
}

/// A name that the identifier rule reads is a keyword exactly when the table
/// of reserved words holds it, and an identifier otherwise.
pub proof fn name_kind_follows_table(text: Seq<char>, words: Seq<Seq<char>>, pos: int)
    ensures
        Ident.outcome(text, words, pos) matches Some((t, _)) ==> {
            &&& words.contains(t.literal) ==> t.kind == TokenKind::Keyword
            &&& !words.contains(t.literal) ==> t.kind == TokenKind::Ident
        },
{
}

} // verus!
