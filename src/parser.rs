use vstd::prelude::*;
use vstd::string::StringSliceAdditionalSpecFns;

use crate::ast::{
    Assignment, AssignmentOperator, AssignmentTarget, Ast, BinaryExpression, BinaryOperator,
    EelFunction, Expression, ExpressionBlock, FunctionCall, Identifier, NumberLiteral,
    UnaryExpression, UnaryOperator, expr_view, lemma_assign_call_view,
    lemma_block_view, lemma_call_view, views_match,
};
use crate::error::{CompilerError, ErrorKind};
use crate::lexer::{Lexer, is_ident_byte, is_number_byte, lemma_next_token_bounds, next_token_spec};
use crate::tokens::{Span, Token, TokenKind};

verus! {

/// Binding strengths of the infix operators; a larger number binds tighter.
/// All infix operators associate to the left.
pub const LOGICAL_PRECEDENCE: u8 = 1;
pub const BITWISE_PRECEDENCE: u8 = 2;
pub const COMPARISON_PRECEDENCE: u8 = 3;
pub const SUM_PRECEDENCE: u8 = 4;
pub const PRODUCT_PRECEDENCE: u8 = 5;
pub const EXPONENT_PRECEDENCE: u8 = 6;
pub const PREFIX_PRECEDENCE: u8 = 7;

/// A parser position: where the lexer reads next, and the current token.
pub type ParseState = (int, Token);

pub open spec fn initial_state() -> ParseState {
    (0, Token { kind: TokenKind::SOF, span: Span { start: 0, end: 0 } })
}

/// A measure that every consumed token lowers.
pub open spec fn measure(s: Seq<u8>, st: ParseState) -> int {
    2 * (s.len() - st.0) + if st.1.kind == TokenKind::EOF {
        0int
    } else {
        1int
    }
}

pub open spec fn below(s: Seq<u8>, a: ParseState, b: ParseState) -> bool {
    0 <= measure(s, a) < measure(s, b)
}

pub open spec fn advance_spec(s: Seq<u8>, st: ParseState) -> Result<ParseState, CompilerError> {
    match next_token_spec(s, st.0) {
        Ok(t) => Ok((t.span.end as int, t)),
        Err(e) => Err(e),
    }
}

pub open spec fn unexpected(expected: TokenKind, found: Token) -> CompilerError {
    CompilerError {
        kind: ErrorKind::UnexpectedToken { expected, found: found.kind },
        span: found.span,
    }
}

pub open spec fn not_an_expression(found: Token) -> CompilerError {
    CompilerError { kind: ErrorKind::ExpectedExpression { found: found.kind }, span: found.span }
}

pub open spec fn expect_spec(s: Seq<u8>, st: ParseState, k: TokenKind) -> Result<
    ParseState,
    CompilerError,
> {
    if st.1.kind == k {
        advance_spec(s, st)
    } else {
        Err(unexpected(k, st.1))
    }
}

/// Tokens that can begin an expression.
pub open spec fn starts_expression(k: TokenKind) -> bool {
    k == TokenKind::OpenParen || k == TokenKind::Int || k == TokenKind::Plus || k
        == TokenKind::Minus || k == TokenKind::Bang || k == TokenKind::Identifier
}

pub open spec fn prefix_op(k: TokenKind) -> Option<UnaryOperator> {
    match k {
        TokenKind::Plus => Some(UnaryOperator::Plus),
        TokenKind::Minus => Some(UnaryOperator::Minus),
        TokenKind::Bang => Some(UnaryOperator::Not),
        _ => None,
    }
}

/// The infix operator a token stands for, with its binding strength.
pub open spec fn binary_op(k: TokenKind) -> Option<(BinaryOperator, u8)> {
    match k {
        TokenKind::DoubleAmpersand => Some((BinaryOperator::And, LOGICAL_PRECEDENCE)),
        TokenKind::DoublePipe => Some((BinaryOperator::Or, LOGICAL_PRECEDENCE)),
        TokenKind::Ampersand => Some((BinaryOperator::BitAnd, BITWISE_PRECEDENCE)),
        TokenKind::Pipe => Some((BinaryOperator::BitOr, BITWISE_PRECEDENCE)),
        TokenKind::DoubleEqual => Some((BinaryOperator::Eq, COMPARISON_PRECEDENCE)),
        TokenKind::BangEqual => Some((BinaryOperator::Ne, COMPARISON_PRECEDENCE)),
        TokenKind::Less => Some((BinaryOperator::Lt, COMPARISON_PRECEDENCE)),
        TokenKind::LessEqual => Some((BinaryOperator::Le, COMPARISON_PRECEDENCE)),
        TokenKind::Greater => Some((BinaryOperator::Gt, COMPARISON_PRECEDENCE)),
        TokenKind::GreaterEqual => Some((BinaryOperator::Ge, COMPARISON_PRECEDENCE)),
        TokenKind::Plus => Some((BinaryOperator::Add, SUM_PRECEDENCE)),
        TokenKind::Minus => Some((BinaryOperator::Subtract, SUM_PRECEDENCE)),
        TokenKind::Asterisk => Some((BinaryOperator::Multiply, PRODUCT_PRECEDENCE)),
        TokenKind::Slash => Some((BinaryOperator::Divide, PRODUCT_PRECEDENCE)),
        TokenKind::Percent => Some((BinaryOperator::Modulo, EXPONENT_PRECEDENCE)),
        TokenKind::Caret => Some((BinaryOperator::Power, EXPONENT_PRECEDENCE)),
        _ => None,
    }
}

pub open spec fn assign_op(k: TokenKind) -> Option<AssignmentOperator> {
    match k {
        TokenKind::Equal => Some(AssignmentOperator::Equal),
        TokenKind::PlusEqual => Some(AssignmentOperator::PlusEqual),
        TokenKind::MinusEqual => Some(AssignmentOperator::MinusEqual),
        TokenKind::AsteriskEqual => Some(AssignmentOperator::TimesEqual),
        TokenKind::SlashEqual => Some(AssignmentOperator::DivideEqual),
        TokenKind::PercentEqual => Some(AssignmentOperator::ModEqual),
        _ => None,
    }
}

pub open spec fn lower_byte(c: u8) -> u8 {
    if 65u8 <= c <= 90u8 {
        (c + 32) as u8
    } else {
        c
    }
}

pub open spec fn ascii_chars(b: Seq<u8>) -> Seq<char> {
    b.map_values(|c: u8| c as char)
}

pub open spec fn text_of(s: Seq<u8>, sp: Span) -> Seq<u8> {
    s.subrange(sp.start as int, sp.end as int)
}

/// The name an identifier token denotes: its text folded to lower case.
pub open spec fn name_text(s: Seq<u8>, sp: Span) -> Seq<char> {
    ascii_chars(text_of(s, sp).map_values(|c: u8| lower_byte(c)))
}

/// A numeral is well formed when it holds at most one decimal point.
pub open spec fn numeral_ok(b: Seq<u8>) -> bool {
    forall|i: int, j: int| 0 <= i < j < b.len() ==> !(b[i] == 46u8 && b[j] == 46u8)
}

/// The numeral a numeric token denotes: its text, with a `0` put before a
/// leading decimal point.
pub open spec fn number_text(s: Seq<u8>, sp: Span) -> Seq<char> {
    let t = text_of(s, sp);
    if t.len() > 0 && t[0] == 46u8 {
        ascii_chars(seq![48u8] + t)
    } else {
        ascii_chars(t)
    }
}

/// Value used on branches that the measure rules out.
pub open spec fn stuck(st: ParseState) -> CompilerError {
    not_an_expression(st.1)
}

pub type ExprResult = Result<(Ast, ParseState), CompilerError>;

pub type ListResult = Result<(Seq<Ast>, ParseState), CompilerError>;

/// An expression whose operators all bind tighter than `prec`.
pub open spec fn expr_spec(s: Seq<u8>, st: ParseState, prec: u8) -> ExprResult
    decreases measure(s, st), 1int,
{
    match prefix_spec(s, st) {
        Err(e) => Err(e),
        Ok((left, st1)) => if below(s, st1, st) {
            infix_spec(s, left, st1, prec)
        } else {
            Err(stuck(st))
        },
    }
}

/// Extends `left` with infix operators that bind tighter than `prec`.
pub open spec fn infix_spec(s: Seq<u8>, left: Ast, st: ParseState, prec: u8) -> ExprResult
    decreases measure(s, st), 0int,
{
    if binary_op(st.1.kind) is Some && prec < binary_op(st.1.kind)->Some_0.1 {
        let op = binary_op(st.1.kind)->Some_0.0;
        let p = binary_op(st.1.kind)->Some_0.1;
        match advance_spec(s, st) {
            Err(e) => Err(e),
            Ok(st1) => if below(s, st1, st) {
                match expr_spec(s, st1, p) {
                    Err(e) => Err(e),
                    Ok((right, st2)) => if below(s, st2, st) {
                        infix_spec(s, Ast::Binary(op, Box::new(left), Box::new(right)), st2, prec)
                    } else {
                        Err(stuck(st))
                    },
                }
            } else {
                Err(stuck(st))
            },
        }
    } else {
        Ok((left, st))
    }
}

/// A parenthesised block, a number, a prefix operator applied to an
/// expression, or an expression that starts with a name.
pub open spec fn prefix_spec(s: Seq<u8>, st: ParseState) -> ExprResult
    decreases measure(s, st), 0int,
{
    let k = st.1.kind;
    if k == TokenKind::OpenParen {
        match advance_spec(s, st) {
            Err(e) => Err(e),
            Ok(st1) => if below(s, st1, st) {
                match block_spec(s, st1, Seq::empty()) {
                    Err(e) => Err(e),
                    Ok((items, st2)) => match expect_spec(s, st2, TokenKind::CloseParen) {
                        Err(e) => Err(e),
                        Ok(st3) => Ok((Ast::Block(items), st3)),
                    },
                }
            } else {
                Err(stuck(st))
            },
        }
    } else if k == TokenKind::Int {
        if numeral_ok(text_of(s, st.1.span)) {
            match advance_spec(s, st) {
                Err(e) => Err(e),
                Ok(st1) => Ok((Ast::Number(number_text(s, st.1.span)), st1)),
            }
        } else {
            Err(CompilerError { kind: ErrorKind::InvalidNumber, span: st.1.span })
        }
    } else if prefix_op(k) is Some {
        match advance_spec(s, st) {
            Err(e) => Err(e),
            Ok(st1) => if below(s, st1, st) {
                match expr_spec(s, st1, PREFIX_PRECEDENCE) {
                    Err(e) => Err(e),
                    Ok((right, st2)) => Ok((Ast::Unary(prefix_op(k)->Some_0, Box::new(right)), st2)),
                }
            } else {
                Err(stuck(st))
            },
        }
    } else if k == TokenKind::Identifier {
        let name = name_text(s, st.1.span);
        let sp = st.1.span;
        match advance_spec(s, st) {
            Err(e) => Err(e),
            Ok(st1) => if !below(s, st1, st) {
                Err(stuck(st))
            } else if assign_op(st1.1.kind) is Some {
                match advance_spec(s, st1) {
                    Err(e) => Err(e),
                    Ok(st2) => if below(s, st2, st) {
                        match expr_spec(s, st2, 0) {
                            Err(e) => Err(e),
                            Ok((right, st3)) => Ok(
                                (
                                    Ast::AssignName(
                                        name,
                                        sp,
                                        assign_op(st1.1.kind)->Some_0,
                                        Box::new(right),
                                    ),
                                    st3,
                                ),
                            ),
                        }
                    } else {
                        Err(stuck(st))
                    },
                }
            } else if st1.1.kind == TokenKind::OpenParen {
                match advance_spec(s, st1) {
                    Err(e) => Err(e),
                    Ok(st2) => if below(s, st2, st) {
                        match args_spec(s, st2) {
                            Err(e) => Err(e),
                            Ok((args, st3)) => if assign_op(st3.1.kind) is Some {
                                match advance_spec(s, st3) {
                                    Err(e) => Err(e),
                                    Ok(st4) => if below(s, st4, st) {
                                        match expr_spec(s, st4, 0) {
                                            Err(e) => Err(e),
                                            Ok((right, st5)) => Ok(
                                                (
                                                    Ast::AssignCall(
                                                        name,
                                                        sp,
                                                        args,
                                                        assign_op(st3.1.kind)->Some_0,
                                                        Box::new(right),
                                                    ),
                                                    st5,
                                                ),
                                            ),
                                        }
                                    } else {
                                        Err(stuck(st))
                                    },
                                }
                            } else {
                                Ok((Ast::Call(name, sp, args), st3))
                            },
                        }
                    } else {
                        Err(stuck(st))
                    },
                }
            } else {
                Ok((Ast::Name(name, sp), st1))
            },
        }
    } else {
        Err(not_an_expression(st.1))
    }
}

/// The arguments of a call, after its `(`: none and a `)`, or expressions
/// separated by `,` and closed by `)`.
pub open spec fn args_spec(s: Seq<u8>, st: ParseState) -> ListResult
    decreases measure(s, st), 3int,
{
    if st.1.kind == TokenKind::CloseParen {
        match advance_spec(s, st) {
            Err(e) => Err(e),
            Ok(st1) => Ok((Seq::empty(), st1)),
        }
    } else {
        arg_list_spec(s, st, Seq::empty())
    }
}

pub open spec fn arg_list_spec(s: Seq<u8>, st: ParseState, acc: Seq<Ast>) -> ListResult
    decreases measure(s, st), 2int,
{
    match expr_spec(s, st, 0) {
        Err(e) => Err(e),
        Ok((arg, st1)) => if st1.1.kind == TokenKind::Comma {
            match advance_spec(s, st1) {
                Err(e) => Err(e),
                Ok(st2) => if below(s, st2, st) {
                    arg_list_spec(s, st2, acc.push(arg))
                } else {
                    Err(stuck(st))
                },
            }
        } else if st1.1.kind == TokenKind::CloseParen {
            match advance_spec(s, st1) {
                Err(e) => Err(e),
                Ok(st2) => Ok((acc.push(arg), st2)),
            }
        } else {
            Err(
                CompilerError {
                    kind: ErrorKind::ExpectedArgumentSeparator { found: st1.1.kind },
                    span: st1.1.span,
                },
            )
        },
    }
}

/// A block: expressions separated by semicolons, with any number of
/// semicolons allowed before, between and after them.
pub open spec fn block_spec(s: Seq<u8>, st: ParseState, acc: Seq<Ast>) -> ListResult
    decreases measure(s, st), 2int,
{
    if st.1.kind == TokenKind::Semi {
        match advance_spec(s, st) {
            Err(e) => Err(e),
            Ok(st1) => if below(s, st1, st) {
                block_spec(s, st1, acc)
            } else {
                Err(stuck(st))
            },
        }
    } else if starts_expression(st.1.kind) {
        match expr_spec(s, st, 0) {
            Err(e) => Err(e),
            Ok((e, st1)) => if st1.1.kind != TokenKind::Semi {
                Ok((acc.push(e), st1))
            } else if below(s, st1, st) {
                block_spec(s, st1, acc.push(e))
            } else {
                Err(stuck(st))
            },
        }
    } else {
        Ok((acc, st))
    }
}

/// A whole program from state `st`: the start of file, a block, the end of file.
pub open spec fn program_spec(s: Seq<u8>, st: ParseState) -> Result<Seq<Ast>, CompilerError> {
    match expect_spec(s, st, TokenKind::SOF) {
        Err(e) => Err(e),
        Ok(st1) => match block_spec(s, st1, Seq::empty()) {
            Err(e) => Err(e),
            Ok((items, st2)) => match expect_spec(s, st2, TokenKind::EOF) {
                Err(e) => Err(e),
                Ok(_) => Ok(items),
            },
        },
    }
}

/// What parsing the source text `s` gives.
pub open spec fn parse_spec(s: Seq<u8>) -> Result<Seq<Ast>, CompilerError> {
    program_spec(s, initial_state())
}


/// The arguments parsed for a call whose name is the current token of `st`.
pub open spec fn call_args(s: Seq<u8>, st: ParseState) -> Seq<Ast> {
    let st1 = advance_spec(s, st)->Ok_0;
    let st2 = advance_spec(s, st1)->Ok_0;
    args_spec(s, st2)->Ok_0.0
}

pub open spec fn expr_agrees(r: Result<Expression, CompilerError>, sr: ExprResult, st: ParseState) -> bool {
    match sr {
        Ok((a, st1)) => r is Ok && expr_view(r->Ok_0) == a && st == st1,
        Err(e) => r is Err && r->Err_0 == e,
    }
}

pub open spec fn list_agrees(r: Result<Vec<Expression>, CompilerError>, sr: ListResult, st: ParseState) -> bool {
    match sr {
        Ok((a, st1)) => r is Ok && views_match(r->Ok_0@, a) && st == st1,
        Err(e) => r is Err && r->Err_0 == e,
    }
}

pub open spec fn block_agrees(r: Result<ExpressionBlock, CompilerError>, sr: ListResult, st: ParseState) -> bool {
    match sr {
        Ok((a, st1)) => r is Ok && views_match(r->Ok_0.expressions@, a) && st == st1,
        Err(e) => r is Err && r->Err_0 == e,
    }
}

pub open spec fn step_agrees(r: Result<(), CompilerError>, sr: Result<ParseState, CompilerError>, st: ParseState) -> bool {
    match sr {
        Ok(st1) => r is Ok && st == st1,
        Err(e) => r is Err && r->Err_0 == e,
    }
}

pub open spec fn number_agrees(r: Result<NumberLiteral, CompilerError>, s: Seq<u8>, st: ParseState, st2: ParseState) -> bool {
    if st.1.kind != TokenKind::Int {
        r is Err && r->Err_0 == unexpected(TokenKind::Int, st.1)
    } else if numeral_ok(text_of(s, st.1.span)) {
        match advance_spec(s, st) {
            Ok(st1) => r is Ok && r->Ok_0.text@ == number_text(s, st.1.span) && st2 == st1,
            Err(e) => r is Err && r->Err_0 == e,
        }
    } else {
        r is Err && r->Err_0 == CompilerError { kind: ErrorKind::InvalidNumber, span: st.1.span }
    }
}

pub open spec fn identifier_agrees(r: Result<Identifier, CompilerError>, s: Seq<u8>, st: ParseState, st2: ParseState) -> bool {
    if st.1.kind == TokenKind::Identifier {
        match advance_spec(s, st) {
            Ok(st1) => r is Ok && r->Ok_0.name@ == name_text(s, st.1.span) && r->Ok_0.span == st.1.span && st2 == st1,
            Err(e) => r is Err && r->Err_0 == e,
        }
    } else {
        r is Err && r->Err_0 == unexpected(TokenKind::Identifier, st.1)
    }
}

/// The mathematical form of what a parse returned.
pub open spec fn program_result(r: Result<EelFunction, CompilerError>) -> Result<Seq<Ast>, CompilerError> {
    match r {
        Ok(p) => Ok(p.view()),
        Err(e) => Err(e),
    }
}

/// Relies on `String::from_utf8`: ASCII bytes are valid UTF-8, one character each.
#[verifier::external_body]
fn ascii_string(bytes: Vec<u8>) -> (r: String)
    requires
        forall|i: int| 0 <= i < bytes@.len() ==> bytes@[i] < 128,
    ensures
        r@ == ascii_chars(bytes@),
{
    String::from_utf8(bytes).unwrap_or_default()
}

fn lowered_name(s: &Vec<u8>, sp: Span) -> (r: String)
    requires
        sp.start <= sp.end <= s.len(),
        forall|i: int| sp.start <= i < sp.end ==> is_ident_byte(#[trigger] s@[i]),
    ensures
        r@ == name_text(s@, sp),
{
    let mut out: Vec<u8> = Vec::new();
    let mut i: usize = sp.start;
    while i < sp.end
        invariant
            sp.start <= i <= sp.end <= s.len(),
            forall|k: int| sp.start <= k < sp.end ==> is_ident_byte(#[trigger] s@[k]),
            out@ =~= s@.subrange(sp.start as int, i as int).map_values(|c: u8| lower_byte(c)),
            forall|k: int| 0 <= k < out@.len() ==> out@[k] < 128,
        decreases sp.end - i,
    {
        let c = s[i];
        let l: u8 = if 65u8 <= c && c <= 90u8 {
            c + 32
        } else {
            c
        };
        out.push(l);
        proof {
            assert(s@.subrange(sp.start as int, i + 1) =~= s@.subrange(sp.start as int, i as int).push(c));
        }
        i = i + 1;
    }
    ascii_string(out)
}

fn numeral_is_valid(s: &Vec<u8>, sp: Span) -> (r: bool)
    requires
        sp.start <= sp.end <= s.len(),
    ensures
        r == numeral_ok(text_of(s@, sp)),
{
    let mut seen = false;
    let mut i: usize = sp.start;
    while i < sp.end
        invariant
            sp.start <= i <= sp.end <= s.len(),
            seen == exists|k: int| sp.start <= k < i && s@[k] == 46u8,
            numeral_ok(s@.subrange(sp.start as int, i as int)),
        decreases sp.end - i,
    {
        let ghost before = s@.subrange(sp.start as int, i as int);
        let ghost after = s@.subrange(sp.start as int, i + 1);
        if s[i] == 46u8 {
            if seen {
                proof {
                    let k = choose|k: int| sp.start <= k < i && s@[k] == 46u8;
                    let t = text_of(s@, sp);
                    assert(t[k - sp.start] == 46u8 && t[i - sp.start] == 46u8);
                }
                return false;
            }
            seen = true;
        }
        proof {
            assert forall|a: int, b: int| 0 <= a < b < after.len() implies !(after[a] == 46u8 && after[b] == 46u8) by {
                if b < before.len() {
                    assert(after[a] == before[a] && after[b] == before[b]);
                } else {
                    assert(after[a] == s@[sp.start + a]);
                }
            }
        }
        i = i + 1;
    }
    proof {
        assert(s@.subrange(sp.start as int, i as int) =~= text_of(s@, sp));
    }
    true
}

fn numeral_text(s: &Vec<u8>, sp: Span) -> (r: String)
    requires
        sp.start <= sp.end <= s.len(),
        forall|i: int| sp.start <= i < sp.end ==> is_number_byte(#[trigger] s@[i]),
    ensures
        r@ == number_text(s@, sp),
{
    let mut out: Vec<u8> = Vec::new();
    if sp.start < sp.end && s[sp.start] == 46u8 {
        out.push(48u8);
    }
    let ghost lead = out@;
    let mut i: usize = sp.start;
    while i < sp.end
        invariant
            sp.start <= i <= sp.end <= s.len(),
            forall|k: int| sp.start <= k < sp.end ==> is_number_byte(#[trigger] s@[k]),
            lead.len() <= 1,
            forall|k: int| 0 <= k < lead.len() ==> lead[k] == 48u8,
            out@ =~= lead + s@.subrange(sp.start as int, i as int),
            forall|k: int| 0 <= k < out@.len() ==> out@[k] < 128,
        decreases sp.end - i,
    {
        let c = s[i];
        out.push(c);
        proof {
            assert(s@.subrange(sp.start as int, i + 1) =~= s@.subrange(sp.start as int, i as int).push(c));
        }
        i = i + 1;
    }
    proof {
        let t = text_of(s@, sp);
        assert(s@.subrange(sp.start as int, i as int) =~= t);
        if t.len() > 0 && t[0] == 46u8 {
            assert(lead =~= seq![48u8]);
        } else {
            assert(lead =~= Seq::<u8>::empty());
        }
    }
    ascii_string(out)
}

fn prefix_operator(k: TokenKind) -> (r: Option<UnaryOperator>)
    ensures
        r == prefix_op(k),
{
    match k {
        TokenKind::Plus => Some(UnaryOperator::Plus),
        TokenKind::Minus => Some(UnaryOperator::Minus),
        TokenKind::Bang => Some(UnaryOperator::Not),
        _ => None,
    }
}

fn binary_operator(k: TokenKind) -> (r: Option<(BinaryOperator, u8)>)
    ensures
        r == binary_op(k),
{
    match k {
        TokenKind::DoubleAmpersand => Some((BinaryOperator::And, LOGICAL_PRECEDENCE)),
        TokenKind::DoublePipe => Some((BinaryOperator::Or, LOGICAL_PRECEDENCE)),
        TokenKind::Ampersand => Some((BinaryOperator::BitAnd, BITWISE_PRECEDENCE)),
        TokenKind::Pipe => Some((BinaryOperator::BitOr, BITWISE_PRECEDENCE)),
        TokenKind::DoubleEqual => Some((BinaryOperator::Eq, COMPARISON_PRECEDENCE)),
        TokenKind::BangEqual => Some((BinaryOperator::Ne, COMPARISON_PRECEDENCE)),
        TokenKind::Less => Some((BinaryOperator::Lt, COMPARISON_PRECEDENCE)),
        TokenKind::LessEqual => Some((BinaryOperator::Le, COMPARISON_PRECEDENCE)),
        TokenKind::Greater => Some((BinaryOperator::Gt, COMPARISON_PRECEDENCE)),
        TokenKind::GreaterEqual => Some((BinaryOperator::Ge, COMPARISON_PRECEDENCE)),
        TokenKind::Plus => Some((BinaryOperator::Add, SUM_PRECEDENCE)),
        TokenKind::Minus => Some((BinaryOperator::Subtract, SUM_PRECEDENCE)),
        TokenKind::Asterisk => Some((BinaryOperator::Multiply, PRODUCT_PRECEDENCE)),
        TokenKind::Slash => Some((BinaryOperator::Divide, PRODUCT_PRECEDENCE)),
        TokenKind::Percent => Some((BinaryOperator::Modulo, EXPONENT_PRECEDENCE)),
        TokenKind::Caret => Some((BinaryOperator::Power, EXPONENT_PRECEDENCE)),
        _ => None,
    }
}

fn assignment_operator(k: TokenKind) -> (r: Option<AssignmentOperator>)
    ensures
        r == assign_op(k),
{
    match k {
        TokenKind::Equal => Some(AssignmentOperator::Equal),
        TokenKind::PlusEqual => Some(AssignmentOperator::PlusEqual),
        TokenKind::MinusEqual => Some(AssignmentOperator::MinusEqual),
        TokenKind::AsteriskEqual => Some(AssignmentOperator::TimesEqual),
        TokenKind::SlashEqual => Some(AssignmentOperator::DivideEqual),
        TokenKind::PercentEqual => Some(AssignmentOperator::ModEqual),
        _ => None,
    }
}

/// Parsing is deterministic: any two results of parsing the same source text
/// are structurally equal programs, or the same error.
pub proof fn lemma_parse_deterministic(
    src: Seq<u8>,
    r1: Result<EelFunction, CompilerError>,
    r2: Result<EelFunction, CompilerError>,
)
    requires
        program_result(r1) == parse_spec(src),
        program_result(r2) == parse_spec(src),
    ensures
        program_result(r1) == program_result(r2),
{
}

/// A recursive-descent parser with one token of lookahead.
pub struct Parser {
    lexer: Lexer,
    token: Token,
}

/// Parses a whole program from source text.
pub fn parse(src: &str) -> (r: Result<EelFunction, CompilerError>)
    ensures
        program_result(r) == parse_spec(src.spec_bytes()),
{
    let mut parser = Parser::new(src);
    parser.parse()
}

impl Parser {
    pub closed spec fn src(&self) -> Seq<u8> {
        self.lexer.source@
    }

    pub closed spec fn state(&self) -> ParseState {
        (self.lexer.pos as int, self.token)
    }

    /// The lexer position and the current token lie within the source, and
    /// a name or number token covers bytes of its kind.
    pub closed spec fn wf(&self) -> bool {
        &&& self.lexer.pos <= self.lexer.source.len()
        &&& self.token.span.start <= self.token.span.end <= self.lexer.source.len()
        &&& (self.token.kind == TokenKind::Identifier ==> forall|i: int|
            self.token.span.start <= i < self.token.span.end ==> is_ident_byte(#[trigger] self.lexer.source@[i]))
        &&& (self.token.kind == TokenKind::Int ==> forall|i: int|
            self.token.span.start <= i < self.token.span.end ==> is_number_byte(#[trigger] self.lexer.source@[i]))
    }

    pub fn new(source: &str) -> (r: Parser)
        ensures
            r.wf(),
            r.src() == source.spec_bytes(),
            r.state() == initial_state(),
    {
        Parser {
            lexer: Lexer::new(source),
            token: Token { kind: TokenKind::SOF, span: Span::empty() },
        }
    }

    fn advance(&mut self) -> (r: Result<(), CompilerError>)
        requires
            old(self).wf(),
        ensures
            final(self).wf(),
            final(self).src() == old(self).src(),
            step_agrees(r, advance_spec(old(self).src(), old(self).state()), final(self).state()),
            r is Err ==> final(self).state() == old(self).state(),
            r is Ok ==> measure(final(self).src(), final(self).state()) <= measure(old(self).src(), old(self).state()),
            r is Ok && old(self).token.kind != TokenKind::EOF ==> below(final(self).src(), final(self).state(), old(self).state()),
    {
        proof {
            lemma_next_token_bounds(self.src(), self.lexer.pos as int);
        }
        match self.lexer.next_token() {
            Ok(t) => {
                self.token = t;
                Ok(())
            },
            Err(e) => Err(e),
        }
    }

    fn expect_kind(&mut self, expected: TokenKind) -> (r: Result<(), CompilerError>)
        requires
            old(self).wf(),
        ensures
            final(self).wf(),
            final(self).src() == old(self).src(),
            step_agrees(r, expect_spec(old(self).src(), old(self).state(), expected), final(self).state()),
            r is Err ==> final(self).state() == old(self).state(),
            r is Ok ==> measure(final(self).src(), final(self).state()) <= measure(old(self).src(), old(self).state()),
            r is Ok && expected != TokenKind::EOF ==> below(final(self).src(), final(self).state(), old(self).state()),
    {
        if self.token.kind == expected {
            self.advance()
        } else {
            Err(CompilerError::new(ErrorKind::UnexpectedToken { expected, found: self.token.kind }, self.token.span))
        }
    }

    /// Parses a program: the start of file, a block, the end of file.
    pub fn parse(&mut self) -> (r: Result<EelFunction, CompilerError>)
        requires
            old(self).wf(),
        ensures
            final(self).wf(),
            final(self).src() == old(self).src(),
            program_result(r) == program_spec(old(self).src(), old(self).state()),
    {
        match self.expect_kind(TokenKind::SOF) {
            Ok(()) => {},
            Err(e) => return Err(e),
        }
        let program = match self.parse_program() {
            Ok(p) => p,
            Err(e) => return Err(e),
        };
        match self.expect_kind(TokenKind::EOF) {
            Ok(()) => {},
            Err(e) => return Err(e),
        }
        Ok(program)
    }

    /// Parses a block as the body of a program.
    pub fn parse_program(&mut self) -> (r: Result<EelFunction, CompilerError>)
        requires
            old(self).wf(),
        ensures
            final(self).wf(),
            final(self).src() == old(self).src(),
            match block_spec(old(self).src(), old(self).state(), Seq::empty()) {
                Ok((a, st)) => r is Ok && r->Ok_0.view() == a && final(self).state() == st,
                Err(e) => r is Err && r->Err_0 == e,
            },
    {
        match self.parse_expression_block() {
            Ok(b) => {
                proof {
                    lemma_block_view(b, block_spec(self.src(), old(self).state(), Seq::empty())->Ok_0.0);
                }
                Ok(EelFunction { expressions: b })
            },
            Err(e) => Err(e),
        }
    }

    /// Parses a block: expressions separated by semicolons.
    pub fn parse_expression_block(&mut self) -> (r: Result<ExpressionBlock, CompilerError>)
        requires
            old(self).wf(),
        ensures
            final(self).wf(),
            final(self).src() == old(self).src(),
            block_agrees(r, block_spec(old(self).src(), old(self).state(), Seq::empty()), final(self).state()),
            r is Ok ==> measure(final(self).src(), final(self).state()) <= measure(old(self).src(), old(self).state()),
        decreases measure(old(self).src(), old(self).state()), 3int,
    {
        let mut expressions: Vec<Expression> = Vec::new();
        let ghost acc: Seq<Ast> = Seq::empty();
        loop
            invariant
                self.wf(),
                self.src() == old(self).src(),
                views_match(expressions@, acc),
                block_spec(self.src(), self.state(), acc) == block_spec(old(self).src(), old(self).state(), Seq::empty()),
                measure(self.src(), self.state()) <= measure(old(self).src(), old(self).state()),
            decreases measure(self.src(), self.state()),
        {
            if self.token.kind == TokenKind::Semi {
                match self.advance() {
                    Ok(()) => {},
                    Err(e) => return Err(e),
                }
            } else if self.peek_expression() {
                let e = match self.parse_expression(0) {
                    Ok(e) => e,
                    Err(e) => return Err(e),
                };
                let ghost ev = expr_view(e);
                expressions.push(e);
                proof {
                    acc = acc.push(ev);
                }
                if self.token.kind != TokenKind::Semi {
                    return Ok(ExpressionBlock { expressions });
                }
            } else {
                return Ok(ExpressionBlock { expressions });
            }
        }
    }

    fn peek_expression(&self) -> (r: bool)
        ensures
            r == starts_expression(self.token.kind),
    {
        match self.token.kind {
            TokenKind::OpenParen | TokenKind::Int | TokenKind::Plus | TokenKind::Minus
            | TokenKind::Bang | TokenKind::Identifier => true,
            _ => false,
        }
    }

    fn parse_expression(&mut self, precedence: u8) -> (r: Result<Expression, CompilerError>)
        requires
            old(self).wf(),
        ensures
            final(self).wf(),
            final(self).src() == old(self).src(),
            expr_agrees(r, expr_spec(old(self).src(), old(self).state(), precedence), final(self).state()),
            r is Ok ==> below(final(self).src(), final(self).state(), old(self).state()),
        decreases measure(old(self).src(), old(self).state()), 2int,
    {
        let left = match self.parse_prefix() {
            Ok(e) => e,
            Err(e) => return Err(e),
        };
        self.maybe_parse_infix(left, precedence)
    }

    fn parse_prefix(&mut self) -> (r: Result<Expression, CompilerError>)
        requires
            old(self).wf(),
        ensures
            final(self).wf(),
            final(self).src() == old(self).src(),
            expr_agrees(r, prefix_spec(old(self).src(), old(self).state()), final(self).state()),
            r is Ok ==> below(final(self).src(), final(self).state(), old(self).state()),
        decreases measure(old(self).src(), old(self).state()), 1int,
    {
        match self.token.kind {
            TokenKind::OpenParen => {
                match self.advance() {
                    Ok(()) => {},
                    Err(e) => return Err(e),
                }
                let block = match self.parse_expression_block() {
                    Ok(b) => b,
                    Err(e) => return Err(e),
                };
                match self.expect_kind(TokenKind::CloseParen) {
                    Ok(()) => {},
                    Err(e) => return Err(e),
                }
                proof {
                    let st1 = advance_spec(self.src(), old(self).state())->Ok_0;
                    lemma_block_view(block, block_spec(self.src(), st1, Seq::empty())->Ok_0.0);
                }
                Ok(Expression::ExpressionBlock(block))
            },
            TokenKind::Int => match self.parse_int() {
                Ok(n) => Ok(Expression::NumberLiteral(n)),
                Err(e) => Err(e),
            },
            TokenKind::Plus | TokenKind::Minus | TokenKind::Bang => {
                let op = match prefix_operator(self.token.kind) {
                    Some(op) => op,
                    None => return Err(CompilerError::new(ErrorKind::ExpectedExpression { found: self.token.kind }, self.token.span)),
                };
                match self.advance() {
                    Ok(()) => {},
                    Err(e) => return Err(e),
                }
                let right = match self.parse_expression(PREFIX_PRECEDENCE) {
                    Ok(e) => e,
                    Err(e) => return Err(e),
                };
                Ok(Expression::UnaryExpression(UnaryExpression { right: Box::new(right), op }))
            },
            TokenKind::Identifier => self.parse_identifier_expression(),
            _ => Err(CompilerError::new(ErrorKind::ExpectedExpression { found: self.token.kind }, self.token.span)),
        }
    }

    fn maybe_parse_infix(&mut self, left: Expression, precedence: u8) -> (r: Result<Expression, CompilerError>)
        requires
            old(self).wf(),
        ensures
            final(self).wf(),
            final(self).src() == old(self).src(),
            expr_agrees(r, infix_spec(old(self).src(), expr_view(left), old(self).state(), precedence), final(self).state()),
            r is Ok ==> measure(final(self).src(), final(self).state()) <= measure(old(self).src(), old(self).state()),
        decreases measure(old(self).src(), old(self).state()), 0int,
    {
        let ghost lv = expr_view(left);
        let mut next = left;
        loop
            invariant
                self.wf(),
                self.src() == old(self).src(),
                lv == expr_view(left),
                infix_spec(self.src(), expr_view(next), self.state(), precedence) == infix_spec(old(self).src(), lv, old(self).state(), precedence),
                measure(self.src(), self.state()) <= measure(old(self).src(), old(self).state()),
            decreases measure(self.src(), self.state()),
        {
            let (op, p) = match binary_operator(self.token.kind) {
                Some(found) => found,
                None => return Ok(next),
            };
            if precedence >= p {
                return Ok(next);
            }
            match self.advance() {
                Ok(()) => {},
                Err(e) => return Err(e),
            }
            let right = match self.parse_expression(p) {
                Ok(e) => e,
                Err(e) => return Err(e),
            };
            next = Expression::BinaryExpression(BinaryExpression { left: Box::new(next), right: Box::new(right), op });
        }
    }

    fn parse_int(&mut self) -> (r: Result<NumberLiteral, CompilerError>)
        requires
            old(self).wf(),
        ensures
            final(self).wf(),
            final(self).src() == old(self).src(),
            number_agrees(r, old(self).src(), old(self).state(), final(self).state()),
            r is Err ==> final(self).state() == old(self).state(),
            r is Ok ==> below(final(self).src(), final(self).state(), old(self).state()),
    {
        let span = self.token.span;
        if self.token.kind != TokenKind::Int {
            return Err(CompilerError::new(ErrorKind::UnexpectedToken { expected: TokenKind::Int, found: self.token.kind }, span));
        }
        if !numeral_is_valid(&self.lexer.source, span) {
            return Err(CompilerError::new(ErrorKind::InvalidNumber, span));
        }
        let text = numeral_text(&self.lexer.source, span);
        match self.advance() {
            Ok(()) => Ok(NumberLiteral { text }),
            Err(e) => Err(e),
        }
    }

    fn parse_identifier(&mut self) -> (r: Result<Identifier, CompilerError>)
        requires
            old(self).wf(),
        ensures
            final(self).wf(),
            final(self).src() == old(self).src(),
            identifier_agrees(r, old(self).src(), old(self).state(), final(self).state()),
            r is Err ==> final(self).state() == old(self).state(),
            r is Ok ==> below(final(self).src(), final(self).state(), old(self).state()),
    {
        let span = self.token.span;
        if self.token.kind != TokenKind::Identifier {
            return Err(CompilerError::new(ErrorKind::UnexpectedToken { expected: TokenKind::Identifier, found: self.token.kind }, span));
        }
        let name = lowered_name(&self.lexer.source, span);
        match self.advance() {
            Ok(()) => Ok(Identifier { name, span }),
            Err(e) => Err(e),
        }
    }

    fn parse_arguments(&mut self) -> (r: Result<Vec<Expression>, CompilerError>)
        requires
            old(self).wf(),
        ensures
            final(self).wf(),
            final(self).src() == old(self).src(),
            list_agrees(r, args_spec(old(self).src(), old(self).state()), final(self).state()),
            r is Ok ==> measure(final(self).src(), final(self).state()) <= measure(old(self).src(), old(self).state()),
        decreases measure(old(self).src(), old(self).state()), 3int,
    {
        if self.token.kind == TokenKind::CloseParen {
            return match self.advance() {
                Ok(()) => Ok(Vec::new()),
                Err(e) => Err(e),
            };
        }
        let mut arguments: Vec<Expression> = Vec::new();
        let ghost acc: Seq<Ast> = Seq::empty();
        loop
            invariant
                self.wf(),
                self.src() == old(self).src(),
                views_match(arguments@, acc),
                arg_list_spec(self.src(), self.state(), acc) == args_spec(old(self).src(), old(self).state()),
                measure(self.src(), self.state()) <= measure(old(self).src(), old(self).state()),
            decreases measure(self.src(), self.state()),
        {
            let arg = match self.parse_expression(0) {
                Ok(e) => e,
                Err(e) => return Err(e),
            };
            let ghost av = expr_view(arg);
            arguments.push(arg);
            proof {
                acc = acc.push(av);
            }
            match self.token.kind {
                TokenKind::Comma => match self.advance() {
                    Ok(()) => {},
                    Err(e) => return Err(e),
                },
                TokenKind::CloseParen => {
                    return match self.advance() {
                        Ok(()) => Ok(arguments),
                        Err(e) => Err(e),
                    };
                },
                _ => {
                    return Err(CompilerError::new(ErrorKind::ExpectedArgumentSeparator { found: self.token.kind }, self.token.span));
                },
            }
        }
    }

    fn parse_identifier_expression(&mut self) -> (r: Result<Expression, CompilerError>)
        requires
            old(self).wf(),
            old(self).token.kind == TokenKind::Identifier,
        ensures
            final(self).wf(),
            final(self).src() == old(self).src(),
            expr_agrees(r, prefix_spec(old(self).src(), old(self).state()), final(self).state()),
            r is Ok ==> below(final(self).src(), final(self).state(), old(self).state()),
        decreases measure(old(self).src(), old(self).state()), 0int,
    {
        let ghost start = self.state();
        let identifier = match self.parse_identifier() {
            Ok(id) => id,
            Err(e) => return Err(e),
        };
        if let Some(operator) = assignment_operator(self.token.kind) {
            match self.advance() {
                Ok(()) => {},
                Err(e) => return Err(e),
            }
            let right = match self.parse_expression(0) {
                Ok(e) => e,
                Err(e) => return Err(e),
            };
            return Ok(Expression::Assignment(Assignment { left: AssignmentTarget::Identifier(identifier), operator, right: Box::new(right) }));
        }
        if self.token.kind != TokenKind::OpenParen {
            return Ok(Expression::Identifier(identifier));
        }
        self.parse_call(identifier, Ghost(start))
    }

    /// The rest of an expression that starts with a name followed by `(`:
    /// a call, or an assignment to a call such as `megabuf(i) = v`.
    fn parse_call(&mut self, identifier: Identifier, Ghost(start): Ghost<ParseState>) -> (r: Result<Expression, CompilerError>)
        requires
            old(self).wf(),
            old(self).token.kind == TokenKind::OpenParen,
            start.1.kind == TokenKind::Identifier,
            advance_spec(old(self).src(), start) == Ok::<ParseState, CompilerError>(old(self).state()),
            below(old(self).src(), old(self).state(), start),
            identifier.name@ == name_text(old(self).src(), start.1.span),
            identifier.span == start.1.span,
        ensures
            final(self).wf(),
            final(self).src() == old(self).src(),
            expr_agrees(r, prefix_spec(old(self).src(), start), final(self).state()),
            r is Ok ==> below(final(self).src(), final(self).state(), start),
        decreases measure(old(self).src(), old(self).state()), 0int,
    {
        match self.advance() {
            Ok(()) => {},
            Err(e) => return Err(e),
        }
        let arguments = match self.parse_arguments() {
            Ok(a) => a,
            Err(e) => return Err(e),
        };
        let call = FunctionCall { name: identifier, arguments };
        if let Some(operator) = assignment_operator(self.token.kind) {
            match self.advance() {
                Ok(()) => {},
                Err(e) => return Err(e),
            }
            let right = match self.parse_expression(0) {
                Ok(e) => e,
                Err(e) => return Err(e),
            };
            let right = Box::new(right);
            proof {
                lemma_assign_call_view(call, operator, right, call_args(self.src(), start));
            }
            return Ok(Expression::Assignment(Assignment { left: AssignmentTarget::FunctionCall(call), operator, right }));
        }
        proof {
            lemma_call_view(call, call_args(self.src(), start));
        }
        Ok(Expression::FunctionCall(call))
    }
}

} // verus!
