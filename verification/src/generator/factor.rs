//! Code for factors.

use vstd::prelude::*;
use crate::emitter::Operand::{Immediate, Memory};
use crate::emitter::Register::{Al, Rax, Rbp};
use crate::emitter::{
    group_listing, listing, Asm, Condition, Instruction, Operand, RegisterOffset,
};
use crate::generator::code::{expression_code, test_code};
use crate::generator::emits;
use crate::generator::expression::expression_asm;
use crate::parser::factor::{Factor, UnaryOperation, UnaryOperator};
use crate::parser::StackFrame;

verus! {

/// Emits the code that evaluates `factor` into the accumulator.
pub fn factor_asm(out: &mut Asm, factor: Factor, stack_frame: &StackFrame)
    requires
        factor@.declared(stack_frame@.names()),
        old(out).clause_count + factor@.clauses() <= i64::MAX,
    ensures
        emits(
            *old(out),
            *final(out),
            expression_code(factor@, stack_frame@.slots, old(out).clause_count),
            factor@.clauses(),
        ),
    decreases factor, 1nat,
{
    broadcast use group_listing;

    match factor {
        Factor::Expression(expression) => {
            expression_asm(out, *expression, stack_frame);
        },
        Factor::UnaryOperation(operation) => {
            unary_operation_asm(out, *operation, stack_frame);
        },
        Factor::Constant(value) => {
            out.mov(&Immediate(value), &Operand::Register(Rax));
        },
        Factor::Identifier(name) => {
            match stack_frame.vars.get(name.as_str()) {
                Some(offset) => {
                    let slot = RegisterOffset { register: Rbp, offset: *offset };
                    out.mov(&Memory(slot), &Operand::Register(Rax));
                },
                None => {
                    assert(false);
                },
            }
        },
    }
}

/// Emits the code that replaces the accumulator by 1 if it compares to
/// zero as `condition` says, and by 0 if not.
pub fn test_asm(out: &mut Asm, condition: Condition)
    ensures
        emits(*old(out), *final(out), test_code(condition), 0),
{
    broadcast use group_listing;

    out.cmp(&Immediate(0), &Operand::Register(Rax));
    out.mov(&Immediate(0), &Operand::Register(Rax));
    match condition {
        Condition::Equal => out.sete(&Operand::Register(Al)),
        Condition::NotEqual => out.setne(&Operand::Register(Al)),
        Condition::Less => out.setl(&Operand::Register(Al)),
        Condition::LessOrEqual => out.setle(&Operand::Register(Al)),
        Condition::Greater => out.setg(&Operand::Register(Al)),
        Condition::GreaterOrEqual => out.setge(&Operand::Register(Al)),
    }
    proof {
        let code = test_code(condition);
        assert(code =~= Seq::<Instruction>::empty().push(code[0]).push(code[1]).push(code[2]));
        assert(listing(Seq::<Instruction>::empty()) =~= Seq::<char>::empty());
        assert(out.source@ =~= old(out).source@ + listing(code));
    }
}

/// Emits the code that evaluates the operand of `operation` into the
/// accumulator and applies the operator to it there.
pub fn unary_operation_asm(out: &mut Asm, operation: UnaryOperation, stack_frame: &StackFrame)
    requires
        operation@.declared(stack_frame@.names()),
        old(out).clause_count + operation@.clauses() <= i64::MAX,
    ensures
        emits(
            *old(out),
            *final(out),
            expression_code(operation@, stack_frame@.slots, old(out).clause_count),
            operation@.clauses(),
        ),
    decreases operation, 0nat,
{
    broadcast use group_listing;

    let ghost operator = operation.operator;
    factor_asm(out, operation.factor, stack_frame);
    match operation.operator {
        UnaryOperator::Negation => {
            out.neg(&Operand::Register(Rax));
        },
        UnaryOperator::LogicalNegation => {
            test_asm(out, Condition::Equal);
        },
        UnaryOperator::BitwiseComplement => {
            out.not(&Operand::Register(Rax));
        },
    }
    assert(out.source@ =~= old(out).source@ + listing(
        expression_code(operation@, stack_frame@.slots, old(out).clause_count),
    ));
}

} // verus!
