use vstd::prelude::*;

verus! {

/// A byte range `[start, end)` of the source text.
#[derive(Clone, Copy, Debug, PartialEq, Eq, Structural)]
pub struct Span {
    pub start: usize,
    pub end: usize,
}

impl Span {
    /// The zero-width span used for synthetic tokens.
    pub fn empty() -> (r: Span)
        ensures
            r.start == 0 && r.end == 0,
    {
        Span { start: 0, end: 0 }
    }
}

#[derive(Clone, Copy, Debug, PartialEq, Eq, Structural)]
pub enum TokenKind {
    SOF,
    EOF,
    Int,
    Identifier,
    Plus,
    Minus,
    Asterisk,
    Slash,
    Percent,
    Caret,
    OpenParen,
    CloseParen,
    Comma,
    Semi,
    Equal,
    PlusEqual,
    MinusEqual,
    AsteriskEqual,
    SlashEqual,
    PercentEqual,
    DoubleEqual,
    BangEqual,
    Less,
    LessEqual,
    Greater,
    GreaterEqual,
    Bang,
    Ampersand,
    Pipe,
    DoubleAmpersand,
    DoublePipe,
}

#[derive(Clone, Copy, Debug, PartialEq, Eq, Structural)]
pub struct Token {
    pub kind: TokenKind,
    pub span: Span,
}

pub open spec fn span_of(start: int, end: int) -> Span {
    Span { start: start as usize, end: end as usize }
}

pub open spec fn token_of(kind: TokenKind, start: int, end: int) -> Token {
    Token { kind, span: span_of(start, end) }
}

} // verus!
