//! Tokens: a classification, the matched text and where it started.
use vstd::prelude::*;

use crate::text::line_col;

verus! {

/// A line and a column in the source, both counted from 1.
#[derive(Clone, Copy, Debug, PartialEq, Eq, Structural)]
pub struct Location {
    pub line: usize,
    pub column: usize,
}

/// The location of the character at index `n` of `text`.
pub open spec fn location_at(text: Seq<char>, n: int) -> Location {
    Location { line: line_col(text, n).0 as usize, column: line_col(text, n).1 as usize }
}

#[derive(Clone, Copy, Debug, PartialEq, Eq, Structural)]
pub enum TokenKind {
    Value,
    Ident,
    Operation,
    Keyword,
    Symbol,
    Unknown,
    EOF,
}

#[derive(Clone, Debug)]
pub struct Token {
    pub kind: TokenKind,
    pub literal: String,
    pub location: Location,
}

/// A token as a mathematical value.
pub struct TokenView {
    pub kind: TokenKind,
    pub literal: Seq<char>,
    pub location: Location,
}

impl View for Token {
    type V = TokenView;

    open spec fn view(&self) -> TokenView {
        TokenView { kind: self.kind, literal: self.literal@, location: self.location }
    }
}

} // verus!
