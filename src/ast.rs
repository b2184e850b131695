use vstd::prelude::*;

use crate::tokens::Span;

verus! {

broadcast use vstd::std_specs::vec::group_vec_axioms, vstd::seq::group_seq_axioms;

#[derive(Clone, Copy, Debug, PartialEq, Eq, Structural)]
pub enum UnaryOperator {
    Plus,
    Minus,
    Not,
}

#[derive(Clone, Copy, Debug, PartialEq, Eq, Structural)]
pub enum BinaryOperator {
    Add,
    Subtract,
    Multiply,
    Divide,
    Modulo,
    Power,
    Eq,
    Ne,
    Lt,
    Le,
    Gt,
    Ge,
    And,
    Or,
    BitOr,
    BitAnd,
}

#[derive(Clone, Copy, Debug, PartialEq, Eq, Structural)]
pub enum AssignmentOperator {
    Equal,
    PlusEqual,
    MinusEqual,
    TimesEqual,
    DivideEqual,
    ModEqual,
}

/// A numeric literal, held as the decimal numeral it denotes: ASCII digits
/// with at most one decimal point and at least one digit before it.
#[derive(Clone, Debug, PartialEq)]
pub struct NumberLiteral {
    pub text: String,
}

/// A name as written, folded to lower case, and where it was written.
#[derive(Clone, Debug, PartialEq)]
pub struct Identifier {
    pub name: String,
    pub span: Span,
}

#[derive(Debug, PartialEq)]
pub struct UnaryExpression {
    pub right: Box<Expression>,
    pub op: UnaryOperator,
}

#[derive(Debug, PartialEq)]
pub struct BinaryExpression {
    pub left: Box<Expression>,
    pub right: Box<Expression>,
    pub op: BinaryOperator,
}

#[derive(Debug, PartialEq)]
pub struct FunctionCall {
    pub name: Identifier,
    pub arguments: Vec<Expression>,
}

/// What an assignment stores to: a variable, or a call such as `megabuf(i)`
/// that addresses a buffer slot.
#[derive(Debug, PartialEq)]
pub enum AssignmentTarget {
    Identifier(Identifier),
    FunctionCall(FunctionCall),
}

#[derive(Debug, PartialEq)]
pub struct Assignment {
    pub left: AssignmentTarget,
    pub operator: AssignmentOperator,
    pub right: Box<Expression>,
}

#[derive(Debug, PartialEq)]
pub struct ExpressionBlock {
    pub expressions: Vec<Expression>,
}

#[derive(Debug, PartialEq)]
pub enum Expression {
    NumberLiteral(NumberLiteral),
    Identifier(Identifier),
    UnaryExpression(UnaryExpression),
    BinaryExpression(BinaryExpression),
    Assignment(Assignment),
    FunctionCall(FunctionCall),
    ExpressionBlock(ExpressionBlock),
}

/// A parsed program: the sequence of expressions of its body.
#[derive(Debug, PartialEq)]
pub struct EelFunction {
    pub expressions: ExpressionBlock,
}

/// The mathematical form of an expression tree: every field of the tree,
/// with strings and vectors as sequences.
pub enum Ast {
    Number(Seq<char>),
    Name(Seq<char>, Span),
    Unary(UnaryOperator, Box<Ast>),
    Binary(BinaryOperator, Box<Ast>, Box<Ast>),
    AssignName(Seq<char>, Span, AssignmentOperator, Box<Ast>),
    AssignCall(Seq<char>, Span, Seq<Ast>, AssignmentOperator, Box<Ast>),
    Call(Seq<char>, Span, Seq<Ast>),
    Block(Seq<Ast>),
}

pub open spec fn expr_view(e: Expression) -> Ast
    decreases e,
{
    match e {
        Expression::NumberLiteral(n) => Ast::Number(n.text@),
        Expression::Identifier(id) => Ast::Name(id.name@, id.span),
        Expression::UnaryExpression(u) => Ast::Unary(u.op, Box::new(expr_view(*u.right))),
        Expression::BinaryExpression(b) => Ast::Binary(
            b.op,
            Box::new(expr_view(*b.left)),
            Box::new(expr_view(*b.right)),
        ),
        Expression::Assignment(a) => match a.left {
            AssignmentTarget::Identifier(id) => Ast::AssignName(
                id.name@,
                id.span,
                a.operator,
                Box::new(expr_view(*a.right)),
            ),
            AssignmentTarget::FunctionCall(c) => Ast::AssignCall(
                c.name.name@,
                c.name.span,
                Seq::new(
                    c.arguments@.len(),
                    |i: int|
                        if 0 <= i < c.arguments@.len() {
                            expr_view(c.arguments@[i])
                        } else {
                            Ast::Block(Seq::empty())
                        },
                ),
                a.operator,
                Box::new(expr_view(*a.right)),
            ),
        },
        Expression::FunctionCall(c) => Ast::Call(
            c.name.name@,
            c.name.span,
            Seq::new(
                c.arguments@.len(),
                |i: int|
                    if 0 <= i < c.arguments@.len() {
                        expr_view(c.arguments@[i])
                    } else {
                        Ast::Block(Seq::empty())
                    },
            ),
        ),
        Expression::ExpressionBlock(b) => Ast::Block(
            Seq::new(
                b.expressions@.len(),
                |i: int|
                    if 0 <= i < b.expressions@.len() {
                        expr_view(b.expressions@[i])
                    } else {
                        Ast::Block(Seq::empty())
                    },
            ),
        ),
    }
}

/// The views of a sequence of expressions, one by one.
pub open spec fn exprs_view(es: Seq<Expression>) -> Seq<Ast> {
    Seq::new(es.len(), |i: int| expr_view(es[i]))
}

/// Two sequences of expressions whose views agree element by element.
pub open spec fn views_match(es: Seq<Expression>, v: Seq<Ast>) -> bool {
    es.len() == v.len() && forall|i: int| 0 <= i < es.len() ==> expr_view(#[trigger] es[i]) == v[i]
}

impl ExpressionBlock {
    pub open spec fn view(&self) -> Seq<Ast> {
        exprs_view(self.expressions@)
    }
}

impl EelFunction {
    pub open spec fn view(&self) -> Seq<Ast> {
        self.expressions.view()
    }
}

pub proof fn lemma_block_view(b: ExpressionBlock, v: Seq<Ast>)
    requires
        views_match(b.expressions@, v),
    ensures
        expr_view(Expression::ExpressionBlock(b)) == Ast::Block(v),
        b.view() == v,
{
    assert(expr_view(Expression::ExpressionBlock(b))->Block_0 =~= v);
    assert(b.view() =~= v);
}

pub proof fn lemma_call_view(c: FunctionCall, v: Seq<Ast>)
    requires
        views_match(c.arguments@, v),
    ensures
        expr_view(Expression::FunctionCall(c)) == Ast::Call(c.name.name@, c.name.span, v),
{
    assert(expr_view(Expression::FunctionCall(c))->Call_2 =~= v);
}

pub proof fn lemma_assign_call_view(c: FunctionCall, op: AssignmentOperator, right: Box<Expression>, v: Seq<Ast>)
    requires
        views_match(c.arguments@, v),
    ensures
        expr_view(Expression::Assignment(Assignment { left: AssignmentTarget::FunctionCall(c), operator: op, right }))
            == Ast::AssignCall(c.name.name@, c.name.span, v, op, Box::new(expr_view(*right))),
{
    let e = Expression::Assignment(Assignment { left: AssignmentTarget::FunctionCall(c), operator: op, right });
    assert(expr_view(e)->AssignCall_2 =~= v);
}

} // verus!
