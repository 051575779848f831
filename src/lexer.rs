//! The atomic lexical rules: identifiers, numbers and quoted strings.
use vstd::prelude::*;
use vstd::string::*;

use crate::rules::Rule;
use crate::text::{
    alphabetic, alphanumeric, is_letter, is_numeral, is_space, is_word_char, lemma_span_end_bounds,
    lemma_span_end_unique, numeric, skip_space, span_end,
};
use crate::token::{Token, TokenKind, TokenView, location_at};
use crate::tokenizer::Tokenizer;

verus! {

/// An identifier, or a keyword where the name is reserved.
pub struct Ident;

/// A run of numeric characters.
pub struct Number;

/// Text between double quotes; the token holds the text without them.
pub struct Str;

impl Rule for Ident {
    open spec fn outcome(&self, text: Seq<char>, words: Seq<Seq<char>>, pos: int) -> Option<(TokenView, int)> {
        let start = skip_space(text, pos);
        let end = span_end(text, start, |c: char| is_word_char(c));
        if start < text.len() && (is_letter(text[start]) || text[start] == '_') && start < end {
            let name = text.subrange(start, end);
            Some((TokenView {
                kind: if words.contains(name) { TokenKind::Keyword } else { TokenKind::Ident },
                literal: name,
                location: location_at(text, start),
            }, end))
        } else {
            None
        }
    }

    fn parse(&self, state: &mut Tokenizer) -> (r: Option<Token>) {
        let ghost text = state.input@;
        state.push();
        state.ignore_whitespace();
        let start = state.pos;
        let location = state.location;
        proof {
            lemma_span_end_bounds(text, old(state).pos as int, |c: char| is_space(c));
        }
        let first = match state.peek() {
            Some(c) => c,
            None => {
                state.pop();
                return None;
            },
        };
        if !alphabetic(first) && first != '_' {
            state.pop();
            return None;
        }
        let ident = state.consume_while(
            |c: char| -> (r: bool) ensures r == is_word_char(c) { alphanumeric(c) || c == '_' },
        );
        proof {
            lemma_span_end_unique(text, start as int, state.pos as int, |c: char| is_word_char(c));
        }
        if ident.as_str().unicode_len() == 0 {
            state.pop();
            return None;
        }
        state.commit();
        let kind = if state.is_keyword(ident.as_str()) {
            TokenKind::Keyword
        } else {
            TokenKind::Ident
        };
        Some(Token { kind, literal: ident, location })
    }
}

impl Rule for Number {
    open spec fn outcome(&self, text: Seq<char>, words: Seq<Seq<char>>, pos: int) -> Option<(TokenView, int)> {
        let start = skip_space(text, pos);
        let end = span_end(text, start, |c: char| is_numeral(c));
        if start < end {
            Some((TokenView {
                kind: TokenKind::Value,
                literal: text.subrange(start, end),
                location: location_at(text, start),
            }, end))
        } else {
            None
        }
    }

    fn parse(&self, state: &mut Tokenizer) -> (r: Option<Token>) {
        let ghost text = state.input@;
        state.push();
        state.ignore_whitespace();
        let start = state.pos;
        let location = state.location;
        proof {
            lemma_span_end_bounds(text, old(state).pos as int, |c: char| is_space(c));
        }
        let number = state.consume_while(
            |c: char| -> (r: bool) ensures r == is_numeral(c) { numeric(c) },
        );
        proof {
            lemma_span_end_unique(text, start as int, state.pos as int, |c: char| is_numeral(c));
        }
        if number.as_str().unicode_len() == 0 {
            state.pop();
            return None;
        }
        state.commit();
        Some(Token { kind: TokenKind::Value, literal: number, location })
    }
}

impl Rule for Str {
    open spec fn outcome(&self, text: Seq<char>, words: Seq<Seq<char>>, pos: int) -> Option<(TokenView, int)> {
        let start = skip_space(text, pos);
        let end = span_end(text, start + 1, |c: char| c != '"');
        if start < text.len() && text[start] == '"' && end < text.len() {
            Some((TokenView {
                kind: TokenKind::Value,
                literal: text.subrange(start + 1, end),
                location: location_at(text, start),
            }, end + 1))
        } else {
            None
        }
    }

    fn parse(&self, state: &mut Tokenizer) -> (r: Option<Token>) {
        let ghost text = state.input@;
        state.push();
        state.ignore_whitespace();
        let start = state.pos;
        let location = state.location;
        proof {
            lemma_span_end_bounds(text, old(state).pos as int, |c: char| is_space(c));
        }
        match state.peek() {
            Some(c) => {
                if c != '"' {
                    state.pop();
                    return None;
                }
            },
            None => {
                state.pop();
                return None;
            },
        }
        state.consume();
        let string = state.consume_while(
            |c: char| -> (r: bool) ensures r == (c != '"') { c != '"' },
        );
        proof {
            lemma_span_end_unique(text, start + 1, state.pos as int, |c: char| c != '"');
        }
        if state.consume() != Some('"') {
            state.pop();
            return None;
        }
        state.commit();
        Some(Token { kind: TokenKind::Value, literal: string, location })
    }
}

} // verus!
