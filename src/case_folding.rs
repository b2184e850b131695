use vstd::prelude::*;

use crate::ast::Ast;
use crate::lexer::{
    ident_end, is_number_byte, lemma_next_token_bounds, next_token_spec,
    number_end, skip_trivia, token_at, Trivia,
};
use crate::parser::{
    advance_spec, args_spec, arg_list_spec, assign_op, below, binary_op, block_spec, expr_spec,
    infix_spec, initial_state, lower_byte, measure, name_text, number_text, numeral_ok,
    parse_spec, prefix_op, prefix_spec, text_of, ParseState, PREFIX_PRECEDENCE,
};
use crate::tokens::TokenKind;

verus! {

/// Two texts of equal length whose bytes agree once letters are folded to
/// lower case.
pub open spec fn same_but_case(a: Seq<u8>, b: Seq<u8>) -> bool {
    a.len() == b.len() && forall|i: int| 0 <= i < a.len() ==> lower_byte(#[trigger] a[i]) == lower_byte(b[i])
}

pub open spec fn is_letter(c: u8) -> bool {
    (65u8 <= c <= 90u8) || (97u8 <= c <= 122u8)
}

/// A parser state whose token lies within `s`, a numeric token covering
/// numeral bytes.
pub open spec fn state_ok(s: Seq<u8>, st: ParseState) -> bool {
    &&& 0 <= st.0 <= s.len()
    &&& st.1.span.start <= st.1.span.end <= s.len()
    &&& (st.1.kind == TokenKind::Int ==> forall|i: int|
        st.1.span.start <= i < st.1.span.end ==> is_number_byte(#[trigger] s[i]))
}

pub open spec fn case_pre(a: Seq<u8>, b: Seq<u8>, st: ParseState) -> bool {
    same_but_case(a, b) && a.len() <= usize::MAX && state_ok(a, st)
}

proof fn lemma_case_byte(x: u8, y: u8)
    requires
        lower_byte(x) == lower_byte(y),
    ensures
        x == y || (is_letter(x) && is_letter(y)),
{
}

proof fn lemma_case_at(a: Seq<u8>, b: Seq<u8>, p: int)
    requires
        same_but_case(a, b),
        0 <= p <= a.len(),
    ensures
        p < a.len() ==> (a[p] == b[p] || (is_letter(a[p]) && is_letter(b[p]))),
        p + 1 < a.len() ==> (a[p + 1] == b[p + 1] || (is_letter(a[p + 1]) && is_letter(b[p + 1]))),
{
    if p < a.len() {
        lemma_case_byte(a[p], b[p]);
    }
    if p + 1 < a.len() {
        lemma_case_byte(a[p + 1], b[p + 1]);
    }
}

proof fn lemma_case_skip(a: Seq<u8>, b: Seq<u8>, p: int, mode: Trivia)
    requires
        same_but_case(a, b),
        0 <= p <= a.len(),
    ensures
        skip_trivia(a, p, mode) == skip_trivia(b, p, mode),
    decreases a.len() - p,
{
    if p < a.len() {
        lemma_case_at(a, b, p);
        match mode {
            Trivia::Code => {
                if a[p] == 32u8 || a[p] == 9u8 || a[p] == 10u8 || a[p] == 13u8 {
                    lemma_case_skip(a, b, p + 1, Trivia::Code);
                } else if p + 1 < a.len() && ((a[p] == 47u8 && a[p + 1] == 47u8) || (a[p] == 92u8
                    && a[p + 1] == 92u8)) {
                    lemma_case_skip(a, b, p + 2, Trivia::LineComment);
                } else if p + 1 < a.len() && a[p] == 47u8 && a[p + 1] == 42u8 {
                    lemma_case_skip(a, b, p + 2, Trivia::BlockComment);
                }
            },
            Trivia::LineComment => {
                if a[p] == 10u8 {
                    lemma_case_skip(a, b, p + 1, Trivia::Code);
                } else {
                    lemma_case_skip(a, b, p + 1, Trivia::LineComment);
                }
            },
            Trivia::BlockComment => {
                if p + 1 < a.len() && a[p] == 42u8 && a[p + 1] == 47u8 {
                    lemma_case_skip(a, b, p + 2, Trivia::Code);
                } else {
                    lemma_case_skip(a, b, p + 1, Trivia::BlockComment);
                }
            },
        }
    }
}

proof fn lemma_case_runs(a: Seq<u8>, b: Seq<u8>, p: int)
    requires
        same_but_case(a, b),
        0 <= p <= a.len(),
    ensures
        number_end(a, p) == number_end(b, p),
        ident_end(a, p) == ident_end(b, p),
    decreases a.len() - p,
{
    if p < a.len() {
        lemma_case_at(a, b, p);
        lemma_case_runs(a, b, p + 1);
    }
}

proof fn lemma_case_next_token(a: Seq<u8>, b: Seq<u8>, pos: int)
    requires
        same_but_case(a, b),
        0 <= pos <= a.len(),
    ensures
        next_token_spec(a, pos) == next_token_spec(b, pos),
{
    lemma_case_skip(a, b, pos, Trivia::Code);
    crate::lexer::lemma_skip_trivia_bounds(a, pos, Trivia::Code);
    let p = skip_trivia(a, pos, Trivia::Code);
    lemma_case_at(a, b, p);
    lemma_case_runs(a, b, p);
    assert(token_at(a, p) == token_at(b, p));
}

proof fn lemma_case_advance(a: Seq<u8>, b: Seq<u8>, st: ParseState)
    requires
        case_pre(a, b, st),
    ensures
        advance_spec(a, st) == advance_spec(b, st),
        advance_spec(a, st) matches Ok(st1) ==> state_ok(a, st1),
{
    lemma_case_next_token(a, b, st.0);
    lemma_next_token_bounds(a, st.0);
}

proof fn lemma_case_number(a: Seq<u8>, b: Seq<u8>, st: ParseState)
    requires
        case_pre(a, b, st),
        st.1.kind == TokenKind::Int,
    ensures
        numeral_ok(text_of(a, st.1.span)) == numeral_ok(text_of(b, st.1.span)),
        number_text(a, st.1.span) == number_text(b, st.1.span),
{
    let sp = st.1.span;
    assert forall|i: int| sp.start <= i < sp.end implies a[i] == b[i] by {
        lemma_case_byte(a[i], b[i]);
    }
    assert(text_of(a, sp) =~= text_of(b, sp));
}

proof fn lemma_case_name(a: Seq<u8>, b: Seq<u8>, st: ParseState)
    requires
        case_pre(a, b, st),
    ensures
        name_text(a, st.1.span) == name_text(b, st.1.span),
{
    let sp = st.1.span;
    let f = |c: u8| lower_byte(c);
    assert(text_of(a, sp).map_values(f) =~= text_of(b, sp).map_values(f));
}

proof fn lemma_case_expr(a: Seq<u8>, b: Seq<u8>, st: ParseState, prec: u8)
    requires
        case_pre(a, b, st),
    ensures
        expr_spec(a, st, prec) == expr_spec(b, st, prec),
        expr_spec(a, st, prec) matches Ok((_, st1)) ==> state_ok(a, st1),
    decreases measure(a, st), 1int,
{
    lemma_case_prefix(a, b, st);
    match prefix_spec(a, st) {
        Ok((left, st1)) => {
            if below(a, st1, st) {
                lemma_case_infix(a, b, left, st1, prec);
            }
        },
        Err(_) => {},
    }
}

proof fn lemma_case_infix(a: Seq<u8>, b: Seq<u8>, left: Ast, st: ParseState, prec: u8)
    requires
        case_pre(a, b, st),
    ensures
        infix_spec(a, left, st, prec) == infix_spec(b, left, st, prec),
        infix_spec(a, left, st, prec) matches Ok((_, st1)) ==> state_ok(a, st1),
    decreases measure(a, st), 0int,
{
    if binary_op(st.1.kind) is Some && prec < binary_op(st.1.kind)->Some_0.1 {
        let op = binary_op(st.1.kind)->Some_0.0;
        let p = binary_op(st.1.kind)->Some_0.1;
        lemma_case_advance(a, b, st);
        match advance_spec(a, st) {
            Ok(st1) => {
                if below(a, st1, st) {
                    lemma_case_expr(a, b, st1, p);
                    match expr_spec(a, st1, p) {
                        Ok((right, st2)) => {
                            if below(a, st2, st) {
                                lemma_case_infix(
                                    a,
                                    b,
                                    Ast::Binary(op, Box::new(left), Box::new(right)),
                                    st2,
                                    prec,
                                );
                            }
                        },
                        Err(_) => {},
                    }
                }
            },
            Err(_) => {},
        }
    }
}

proof fn lemma_case_prefix(a: Seq<u8>, b: Seq<u8>, st: ParseState)
    requires
        case_pre(a, b, st),
    ensures
        prefix_spec(a, st) == prefix_spec(b, st),
        prefix_spec(a, st) matches Ok((_, st1)) ==> state_ok(a, st1),
    decreases measure(a, st), 0int,
{
    let k = st.1.kind;
    lemma_case_advance(a, b, st);
    if k == TokenKind::OpenParen {
        match advance_spec(a, st) {
            Ok(st1) => {
                if below(a, st1, st) {
                    lemma_case_block(a, b, st1, Seq::empty());
                    match block_spec(a, st1, Seq::empty()) {
                        Ok((_, st2)) => lemma_case_advance(a, b, st2),
                        Err(_) => {},
                    }
                }
            },
            Err(_) => {},
        }
    } else if k == TokenKind::Int {
        lemma_case_number(a, b, st);
    } else if prefix_op(k) is Some {
        match advance_spec(a, st) {
            Ok(st1) => {
                if below(a, st1, st) {
                    lemma_case_expr(a, b, st1, PREFIX_PRECEDENCE);
                }
            },
            Err(_) => {},
        }
    } else if k == TokenKind::Identifier {
        lemma_case_name(a, b, st);
        match advance_spec(a, st) {
            Ok(st1) => {
                if below(a, st1, st) {
                    lemma_case_advance(a, b, st1);
                    match advance_spec(a, st1) {
                        Ok(st2) => {
                            if below(a, st2, st) {
                                if assign_op(st1.1.kind) is Some {
                                    lemma_case_expr(a, b, st2, 0);
                                } else if st1.1.kind == TokenKind::OpenParen {
                                    lemma_case_args(a, b, st2);
                                    match args_spec(a, st2) {
                                        Ok((_, st3)) => {
                                            lemma_case_advance(a, b, st3);
                                            match advance_spec(a, st3) {
                                                Ok(st4) => {
                                                    if below(a, st4, st) {
                                                        lemma_case_expr(a, b, st4, 0);
                                                    }
                                                },
                                                Err(_) => {},
                                            }
                                        },
                                        Err(_) => {},
                                    }
                                }
                            }
                        },
                        Err(_) => {},
                    }
                }
            },
            Err(_) => {},
        }
    }
}

proof fn lemma_case_args(a: Seq<u8>, b: Seq<u8>, st: ParseState)
    requires
        case_pre(a, b, st),
    ensures
        args_spec(a, st) == args_spec(b, st),
        args_spec(a, st) matches Ok((_, st1)) ==> state_ok(a, st1),
    decreases measure(a, st), 3int,
{
    if st.1.kind == TokenKind::CloseParen {
        lemma_case_advance(a, b, st);
    } else {
        lemma_case_arg_list(a, b, st, Seq::empty());
    }
}

proof fn lemma_case_arg_list(a: Seq<u8>, b: Seq<u8>, st: ParseState, acc: Seq<Ast>)
    requires
        case_pre(a, b, st),
    ensures
        arg_list_spec(a, st, acc) == arg_list_spec(b, st, acc),
        arg_list_spec(a, st, acc) matches Ok((_, st1)) ==> state_ok(a, st1),
    decreases measure(a, st), 2int,
{
    lemma_case_expr(a, b, st, 0);
    match expr_spec(a, st, 0) {
        Ok((arg, st1)) => {
            lemma_case_advance(a, b, st1);
            if st1.1.kind == TokenKind::Comma {
                match advance_spec(a, st1) {
                    Ok(st2) => {
                        if below(a, st2, st) {
                            lemma_case_arg_list(a, b, st2, acc.push(arg));
                        }
                    },
                    Err(_) => {},
                }
            }
        },
        Err(_) => {},
    }
}

proof fn lemma_case_block(a: Seq<u8>, b: Seq<u8>, st: ParseState, acc: Seq<Ast>)
    requires
        case_pre(a, b, st),
    ensures
        block_spec(a, st, acc) == block_spec(b, st, acc),
        block_spec(a, st, acc) matches Ok((_, st1)) ==> state_ok(a, st1),
    decreases measure(a, st), 2int,
{
    if st.1.kind == TokenKind::Semi {
        lemma_case_advance(a, b, st);
        match advance_spec(a, st) {
            Ok(st1) => {
                if below(a, st1, st) {
                    lemma_case_block(a, b, st1, acc);
                }
            },
            Err(_) => {},
        }
    } else {
        lemma_case_expr(a, b, st, 0);
        match expr_spec(a, st, 0) {
            Ok((e, st1)) => {
                if st1.1.kind == TokenKind::Semi && below(a, st1, st) {
                    lemma_case_block(a, b, st1, acc.push(e));
                }
            },
            Err(_) => {},
        }
    }
}

/// Parsing ignores the case of letters: two source texts that differ only in
/// the case of their letters parse to the same program, or fail with the
/// same error.
pub proof fn lemma_parse_case_insensitive(a: Seq<u8>, b: Seq<u8>)
    requires
        same_but_case(a, b),
        a.len() <= usize::MAX,
    ensures
        parse_spec(a) == parse_spec(b),
{
    let st0 = initial_state();
    lemma_case_advance(a, b, st0);
    match advance_spec(a, st0) {
        Ok(st1) => {
            lemma_case_block(a, b, st1, Seq::empty());
            match block_spec(a, st1, Seq::empty()) {
                Ok((_, st2)) => lemma_case_advance(a, b, st2),
                Err(_) => {},
            }
        },
        Err(_) => {},
    }
}

} // verus!
