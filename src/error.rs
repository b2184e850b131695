use vstd::prelude::*;

use crate::tokens::{Span, TokenKind};

verus! {

/// What went wrong while turning source text into a program.
#[derive(Clone, Copy, Debug, PartialEq, Eq, Structural)]
pub enum ErrorKind {
    /// A byte that starts no token.
    UnexpectedCharacter,
    /// A token of one kind was required and another was found.
    UnexpectedToken { expected: TokenKind, found: TokenKind },
    /// An expression was required and the token found cannot start one.
    ExpectedExpression { found: TokenKind },
    /// An argument of a call was followed by neither `,` nor `)`.
    ExpectedArgumentSeparator { found: TokenKind },
    /// A numeric literal with more than one decimal point.
    InvalidNumber,
}

/// A diagnostic: its kind and the source span it points at.
#[derive(Clone, Copy, Debug, PartialEq, Eq, Structural)]
pub struct CompilerError {
    pub kind: ErrorKind,
    pub span: Span,
}

impl CompilerError {
    pub fn new(kind: ErrorKind, span: Span) -> (r: CompilerError)
        ensures
            r.kind == kind && r.span == span,
    {
        CompilerError { kind, span }
    }
}

} // verus!
