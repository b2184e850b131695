//! Front end of a small numeric expression language: a lexer and a
//! precedence-climbing parser, each proved against a functional specification,
//! and the buffer memory and iteration cap that evaluation relies on.
pub mod ast;
pub mod case_folding;
pub mod control;
pub mod error;
pub mod lexer;
pub mod memory;
pub mod parser;
pub mod tokens;

pub use ast::{
    Assignment, AssignmentOperator, AssignmentTarget, BinaryExpression, BinaryOperator,
    EelFunction, Expression, ExpressionBlock, FunctionCall, Identifier, NumberLiteral,
    UnaryExpression, UnaryOperator,
};
pub use control::needs_right_operand;
pub use error::{CompilerError, ErrorKind};
pub use lexer::Lexer;
pub use memory::{while_continues, Memory, BUFFER_SIZE, MAX_WHILE_EVALUATIONS};
pub use parser::{parse, Parser};
pub use tokens::{Span, Token, TokenKind};
