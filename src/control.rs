use vstd::prelude::*;

use crate::ast::BinaryOperator;

verus! {

/// Whether evaluating `left op right` goes on to the right operand once the
/// left one is known to be true or false: `&&` stops at a false left operand,
/// `||` at a true one, and every other operator evaluates both.
pub open spec fn right_operand_runs(op: BinaryOperator, left_true: bool) -> bool {
    !((op == BinaryOperator::And && !left_true) || (op == BinaryOperator::Or && left_true))
}

pub fn needs_right_operand(op: BinaryOperator, left_true: bool) -> (r: bool)
    ensures
        r == right_operand_runs(op, left_true),
{
    match op {
        BinaryOperator::And => left_true,
        BinaryOperator::Or => !left_true,
        _ => true,
    }
}

/// The right operand of `&&` never runs after a false left operand, nor that
/// of `||` after a true one; the operands of any other operator always run.
pub proof fn lemma_short_circuit(op: BinaryOperator, left_true: bool)
    ensures
        op == BinaryOperator::And && !left_true ==> !right_operand_runs(op, left_true),
        op == BinaryOperator::Or && left_true ==> !right_operand_runs(op, left_true),
        op != BinaryOperator::And && op != BinaryOperator::Or ==> right_operand_runs(op, left_true),
{
}

} // verus!
