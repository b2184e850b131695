use vstd::prelude::*;
use vstd::slice::slice_to_vec;
use vstd::string::StringSliceAdditionalSpecFns;

use crate::error::{CompilerError, ErrorKind};
use crate::tokens::{span_of, token_of, Span, Token, TokenKind};

verus! {

pub open spec fn is_space(c: u8) -> bool {
    c == 32u8 || c == 9u8 || c == 10u8 || c == 13u8
}

pub open spec fn is_digit(c: u8) -> bool {
    48u8 <= c <= 57u8
}

/// Bytes that a numeric literal is made of: digits and the decimal point.
pub open spec fn is_number_byte(c: u8) -> bool {
    is_digit(c) || c == 46u8
}

pub open spec fn is_ident_start(c: u8) -> bool {
    (65u8 <= c <= 90u8) || (97u8 <= c <= 122u8) || c == 95u8
}

pub open spec fn is_ident_byte(c: u8) -> bool {
    is_ident_start(c) || is_digit(c)
}

/// Where trivia (whitespace and comments) ends.
#[derive(Clone, Copy)]
pub enum Trivia {
    Code,
    LineComment,
    BlockComment,
}

/// The first position at or after `p` that is not trivia, scanning in `mode`.
/// Line comments start with `//` or `\\` and end before a newline; block
/// comments run from `/*` to `*/` or to the end of the text.
pub open spec fn skip_trivia(s: Seq<u8>, p: int, mode: Trivia) -> int
    decreases s.len() - p,
{
    if p < 0 || p >= s.len() {
        p
    } else {
        match mode {
            Trivia::Code => {
                if is_space(s[p]) {
                    skip_trivia(s, p + 1, Trivia::Code)
                } else if p + 1 < s.len() && ((s[p] == 47u8 && s[p + 1] == 47u8) || (s[p] == 92u8
                    && s[p + 1] == 92u8)) {
                    skip_trivia(s, p + 2, Trivia::LineComment)
                } else if p + 1 < s.len() && s[p] == 47u8 && s[p + 1] == 42u8 {
                    skip_trivia(s, p + 2, Trivia::BlockComment)
                } else {
                    p
                }
            },
            Trivia::LineComment => {
                if s[p] == 10u8 {
                    skip_trivia(s, p + 1, Trivia::Code)
                } else {
                    skip_trivia(s, p + 1, Trivia::LineComment)
                }
            },
            Trivia::BlockComment => {
                if p + 1 < s.len() && s[p] == 42u8 && s[p + 1] == 47u8 {
                    skip_trivia(s, p + 2, Trivia::Code)
                } else {
                    skip_trivia(s, p + 1, Trivia::BlockComment)
                }
            },
        }
    }
}

/// The end of the maximal run of numeral bytes starting at `p`.
pub open spec fn number_end(s: Seq<u8>, p: int) -> int
    decreases s.len() - p,
{
    if 0 <= p < s.len() && is_number_byte(s[p]) {
        number_end(s, p + 1)
    } else {
        p
    }
}

/// The end of the maximal run of identifier bytes starting at `p`.
pub open spec fn ident_end(s: Seq<u8>, p: int) -> int
    decreases s.len() - p,
{
    if 0 <= p < s.len() && is_ident_byte(s[p]) {
        ident_end(s, p + 1)
    } else {
        p
    }
}

/// Tokens of one byte.
pub open spec fn single_kind(c: u8) -> Option<TokenKind> {
    if c == 43u8 {
        Some(TokenKind::Plus)
    } else if c == 45u8 {
        Some(TokenKind::Minus)
    } else if c == 42u8 {
        Some(TokenKind::Asterisk)
    } else if c == 47u8 {
        Some(TokenKind::Slash)
    } else if c == 37u8 {
        Some(TokenKind::Percent)
    } else if c == 94u8 {
        Some(TokenKind::Caret)
    } else if c == 40u8 {
        Some(TokenKind::OpenParen)
    } else if c == 41u8 {
        Some(TokenKind::CloseParen)
    } else if c == 44u8 {
        Some(TokenKind::Comma)
    } else if c == 59u8 {
        Some(TokenKind::Semi)
    } else if c == 61u8 {
        Some(TokenKind::Equal)
    } else if c == 60u8 {
        Some(TokenKind::Less)
    } else if c == 62u8 {
        Some(TokenKind::Greater)
    } else if c == 33u8 {
        Some(TokenKind::Bang)
    } else if c == 38u8 {
        Some(TokenKind::Ampersand)
    } else if c == 124u8 {
        Some(TokenKind::Pipe)
    } else {
        None
    }
}

/// Tokens of two bytes.
pub open spec fn double_kind(c: u8, d: u8) -> Option<TokenKind> {
    if d == 61u8 {
        if c == 61u8 {
            Some(TokenKind::DoubleEqual)
        } else if c == 33u8 {
            Some(TokenKind::BangEqual)
        } else if c == 60u8 {
            Some(TokenKind::LessEqual)
        } else if c == 62u8 {
            Some(TokenKind::GreaterEqual)
        } else if c == 43u8 {
            Some(TokenKind::PlusEqual)
        } else if c == 45u8 {
            Some(TokenKind::MinusEqual)
        } else if c == 42u8 {
            Some(TokenKind::AsteriskEqual)
        } else if c == 47u8 {
            Some(TokenKind::SlashEqual)
        } else if c == 37u8 {
            Some(TokenKind::PercentEqual)
        } else {
            None
        }
    } else if c == 38u8 && d == 38u8 {
        Some(TokenKind::DoubleAmpersand)
    } else if c == 124u8 && d == 124u8 {
        Some(TokenKind::DoublePipe)
    } else {
        None
    }
}

/// The token that starts at `p`, where no trivia stands at `p`.
pub open spec fn token_at(s: Seq<u8>, p: int) -> Result<Token, CompilerError> {
    if p >= s.len() {
        Ok(token_of(TokenKind::EOF, s.len() as int, s.len() as int))
    } else if is_number_byte(s[p]) {
        Ok(token_of(TokenKind::Int, p, number_end(s, p)))
    } else if is_ident_start(s[p]) {
        Ok(token_of(TokenKind::Identifier, p, ident_end(s, p)))
    } else if p + 1 < s.len() && double_kind(s[p], s[p + 1]) is Some {
        Ok(token_of(double_kind(s[p], s[p + 1])->Some_0, p, p + 2))
    } else if single_kind(s[p]) is Some {
        Ok(token_of(single_kind(s[p])->Some_0, p, p + 1))
    } else {
        Err(CompilerError { kind: ErrorKind::UnexpectedCharacter, span: span_of(p, p + 1) })
    }
}

/// The next token of `s` at or after position `pos`.
pub open spec fn next_token_spec(s: Seq<u8>, pos: int) -> Result<Token, CompilerError> {
    token_at(s, skip_trivia(s, pos, Trivia::Code))
}

pub proof fn lemma_skip_trivia_bounds(s: Seq<u8>, p: int, mode: Trivia)
    requires
        0 <= p <= s.len(),
    ensures
        p <= skip_trivia(s, p, mode) <= s.len(),
    decreases s.len() - p,
{
    if p < s.len() {
        match mode {
            Trivia::Code => {
                if is_space(s[p]) {
                    lemma_skip_trivia_bounds(s, p + 1, Trivia::Code);
                } else if p + 1 < s.len() && ((s[p] == 47u8 && s[p + 1] == 47u8) || (s[p] == 92u8
                    && s[p + 1] == 92u8)) {
                    lemma_skip_trivia_bounds(s, p + 2, Trivia::LineComment);
                } else if p + 1 < s.len() && s[p] == 47u8 && s[p + 1] == 42u8 {
                    lemma_skip_trivia_bounds(s, p + 2, Trivia::BlockComment);
                }
            },
            Trivia::LineComment => {
                if s[p] == 10u8 {
                    lemma_skip_trivia_bounds(s, p + 1, Trivia::Code);
                } else {
                    lemma_skip_trivia_bounds(s, p + 1, Trivia::LineComment);
                }
            },
            Trivia::BlockComment => {
                if p + 1 < s.len() && s[p] == 42u8 && s[p + 1] == 47u8 {
                    lemma_skip_trivia_bounds(s, p + 2, Trivia::Code);
                } else {
                    lemma_skip_trivia_bounds(s, p + 1, Trivia::BlockComment);
                }
            },
        }
    }
}

pub proof fn lemma_number_end_bounds(s: Seq<u8>, p: int)
    requires
        0 <= p <= s.len(),
    ensures
        p <= number_end(s, p) <= s.len(),
        forall|i: int| p <= i < number_end(s, p) ==> is_number_byte(#[trigger] s[i]),
    decreases s.len() - p,
{
    if p < s.len() && is_number_byte(s[p]) {
        lemma_number_end_bounds(s, p + 1);
    }
}

pub proof fn lemma_ident_end_bounds(s: Seq<u8>, p: int)
    requires
        0 <= p <= s.len(),
    ensures
        p <= ident_end(s, p) <= s.len(),
        forall|i: int| p <= i < ident_end(s, p) ==> is_ident_byte(#[trigger] s[i]),
    decreases s.len() - p,
{
    if p < s.len() && is_ident_byte(s[p]) {
        lemma_ident_end_bounds(s, p + 1);
    }
}

/// A token read from `pos` lies at or after `pos` and within the text; every
/// token but the end of file covers at least one byte.
pub proof fn lemma_next_token_bounds(s: Seq<u8>, pos: int)
    requires
        0 <= pos <= s.len() <= usize::MAX,
    ensures
        next_token_spec(s, pos) matches Ok(t) ==> {
            &&& pos <= t.span.start <= t.span.end <= s.len()
            &&& (t.kind == TokenKind::EOF <==> t.span.start == t.span.end)
            &&& (t.kind == TokenKind::EOF ==> t.span.end == s.len())
            &&& (t.kind == TokenKind::Identifier ==> forall|i: int|
                t.span.start <= i < t.span.end ==> is_ident_byte(#[trigger] s[i]))
            &&& (t.kind == TokenKind::Int ==> forall|i: int|
                t.span.start <= i < t.span.end ==> is_number_byte(#[trigger] s[i]))
        },
{
    lemma_skip_trivia_bounds(s, pos, Trivia::Code);
    let p = skip_trivia(s, pos, Trivia::Code);
    if p < s.len() {
        lemma_number_end_bounds(s, p);
        lemma_ident_end_bounds(s, p);
        if is_number_byte(s[p]) {
            lemma_number_end_bounds(s, p + 1);
        } else if is_ident_start(s[p]) {
            lemma_ident_end_bounds(s, p + 1);
        }
    }
}

fn single_kind_exec(c: u8) -> (r: Option<TokenKind>)
    ensures
        r == single_kind(c),
{
    if c == 43u8 {
        Some(TokenKind::Plus)
    } else if c == 45u8 {
        Some(TokenKind::Minus)
    } else if c == 42u8 {
        Some(TokenKind::Asterisk)
    } else if c == 47u8 {
        Some(TokenKind::Slash)
    } else if c == 37u8 {
        Some(TokenKind::Percent)
    } else if c == 94u8 {
        Some(TokenKind::Caret)
    } else if c == 40u8 {
        Some(TokenKind::OpenParen)
    } else if c == 41u8 {
        Some(TokenKind::CloseParen)
    } else if c == 44u8 {
        Some(TokenKind::Comma)
    } else if c == 59u8 {
        Some(TokenKind::Semi)
    } else if c == 61u8 {
        Some(TokenKind::Equal)
    } else if c == 60u8 {
        Some(TokenKind::Less)
    } else if c == 62u8 {
        Some(TokenKind::Greater)
    } else if c == 33u8 {
        Some(TokenKind::Bang)
    } else if c == 38u8 {
        Some(TokenKind::Ampersand)
    } else if c == 124u8 {
        Some(TokenKind::Pipe)
    } else {
        None
    }
}

fn double_kind_exec(c: u8, d: u8) -> (r: Option<TokenKind>)
    ensures
        r == double_kind(c, d),
{
    if d == 61u8 {
        if c == 61u8 {
            Some(TokenKind::DoubleEqual)
        } else if c == 33u8 {
            Some(TokenKind::BangEqual)
        } else if c == 60u8 {
            Some(TokenKind::LessEqual)
        } else if c == 62u8 {
            Some(TokenKind::GreaterEqual)
        } else if c == 43u8 {
            Some(TokenKind::PlusEqual)
        } else if c == 45u8 {
            Some(TokenKind::MinusEqual)
        } else if c == 42u8 {
            Some(TokenKind::AsteriskEqual)
        } else if c == 47u8 {
            Some(TokenKind::SlashEqual)
        } else if c == 37u8 {
            Some(TokenKind::PercentEqual)
        } else {
            None
        }
    } else if c == 38u8 && d == 38u8 {
        Some(TokenKind::DoubleAmpersand)
    } else if c == 124u8 && d == 124u8 {
        Some(TokenKind::DoublePipe)
    } else {
        None
    }
}

fn space_exec(c: u8) -> (r: bool)
    ensures
        r == is_space(c),
{
    c == 32u8 || c == 9u8 || c == 10u8 || c == 13u8
}

fn number_byte_exec(c: u8) -> (r: bool)
    ensures
        r == is_number_byte(c),
{
    (48u8 <= c && c <= 57u8) || c == 46u8
}

fn ident_start_exec(c: u8) -> (r: bool)
    ensures
        r == is_ident_start(c),
{
    (65u8 <= c && c <= 90u8) || (97u8 <= c && c <= 122u8) || c == 95u8
}

fn ident_byte_exec(c: u8) -> (r: bool)
    ensures
        r == is_ident_byte(c),
{
    ident_start_exec(c) || (48u8 <= c && c <= 57u8)
}

/// A lexer over a retained source text; `pos` is where the next token is read.
pub struct Lexer {
    pub(crate) source: Vec<u8>,
    pub(crate) pos: usize,
}

impl Lexer {
    /// The source text, as bytes.
    pub open(crate) spec fn source_view(&self) -> Seq<u8> {
        self.source@
    }

    /// Where the next token is read.
    pub open(crate) spec fn position(&self) -> int {
        self.pos as int
    }

    pub open(crate) spec fn wf(&self) -> bool {
        self.pos <= self.source.len()
    }

    pub fn new(source: &str) -> (r: Lexer)
        ensures
            r.wf(),
            r.source_view() == source.spec_bytes(),
            r.position() == 0,
    {
        Lexer { source: slice_to_vec(source.as_bytes()), pos: 0 }
    }

    fn skip_trivia_exec(&self) -> (r: usize)
        requires
            self.wf(),
        ensures
            r == skip_trivia(self.source@, self.pos as int, Trivia::Code),
            self.pos <= r <= self.source.len(),
    {
        proof {
            lemma_skip_trivia_bounds(self.source@, self.pos as int, Trivia::Code);
        }
        let s = &self.source;
        let n = s.len();
        let mut i: usize = self.pos;
        let mut mode = Trivia::Code;
        while i < n
            invariant
                self.pos <= i <= n,
                n == s@.len(),
                s == &self.source,
                skip_trivia(s@, i as int, mode) == skip_trivia(s@, self.pos as int, Trivia::Code),
            decreases n - i,
        {
            let c = s[i];
            match mode {
                Trivia::Code => {
                    if space_exec(c) {
                        i = i + 1;
                    } else if i + 1 < n && ((c == 47u8 && s[i + 1] == 47u8) || (c == 92u8 && s[i
                        + 1] == 92u8)) {
                        i = i + 2;
                        mode = Trivia::LineComment;
                    } else if i + 1 < n && c == 47u8 && s[i + 1] == 42u8 {
                        i = i + 2;
                        mode = Trivia::BlockComment;
                    } else {
                        return i;
                    }
                },
                Trivia::LineComment => {
                    if c == 10u8 {
                        mode = Trivia::Code;
                    }
                    i = i + 1;
                },
                Trivia::BlockComment => {
                    if i + 1 < n && c == 42u8 && s[i + 1] == 47u8 {
                        i = i + 2;
                        mode = Trivia::Code;
                    } else {
                        i = i + 1;
                    }
                },
            }
        }
        i
    }

    fn number_end_exec(&self, p: usize) -> (r: usize)
        requires
            p <= self.source.len(),
        ensures
            r == number_end(self.source@, p as int),
    {
        let n = self.source.len();
        let mut i = p;
        while i < n && number_byte_exec(self.source[i])
            invariant
                p <= i <= n,
                n == self.source@.len(),
                number_end(self.source@, i as int) == number_end(self.source@, p as int),
            decreases n - i,
        {
            i = i + 1;
        }
        i
    }

    fn ident_end_exec(&self, p: usize) -> (r: usize)
        requires
            p <= self.source.len(),
        ensures
            r == ident_end(self.source@, p as int),
    {
        let n = self.source.len();
        let mut i = p;
        while i < n && ident_byte_exec(self.source[i])
            invariant
                p <= i <= n,
                n == self.source@.len(),
                ident_end(self.source@, i as int) == ident_end(self.source@, p as int),
            decreases n - i,
        {
            i = i + 1;
        }
        i
    }

    /// Reads the next token and moves past it.
    pub fn next_token(&mut self) -> (r: Result<Token, CompilerError>)
        requires
            old(self).wf(),
        ensures
            final(self).source_view() == old(self).source_view(),
            final(self).wf(),
            r == next_token_spec(old(self).source_view(), old(self).position()),
            r matches Ok(t) ==> final(self).position() == t.span.end,
            r is Err ==> final(self).position() == old(self).position(),
    {
        proof {
            lemma_next_token_bounds(self.source@, self.pos as int);
        }
        let p = self.skip_trivia_exec();
        let n = self.source.len();
        if p >= n {
            self.pos = n;
            return Ok(Token { kind: TokenKind::EOF, span: Span { start: n, end: n } });
        }
        let c = self.source[p];
        let (kind, end) = if number_byte_exec(c) {
            (TokenKind::Int, self.number_end_exec(p))
        } else if ident_start_exec(c) {
            (TokenKind::Identifier, self.ident_end_exec(p))
        } else {
            let double = if p + 1 < n {
                double_kind_exec(c, self.source[p + 1])
            } else {
                None
            };
            match double {
                Some(k) => (k, p + 2),
                None => match single_kind_exec(c) {
                    Some(k) => (k, p + 1),
                    None => {
                        return Err(
                            CompilerError {
                                kind: ErrorKind::UnexpectedCharacter,
                                span: Span { start: p, end: p + 1 },
                            },
                        );
                    },
                },
            }
        };
        self.pos = end;
        Ok(Token { kind, span: Span { start: p, end } })
    }
}

} // verus!

