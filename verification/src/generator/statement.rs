//! Code for statements.

use vstd::prelude::*;
use crate::emitter::Operand::Immediate;
use crate::emitter::Register::Rax;
use crate::emitter::{epilogue, Asm, Instruction, Operand};
use crate::generator::code::{expression_code, statement_code};
use crate::generator::{emits, lemma_emits_one, lemma_emits_push, lemma_emits_then};
use crate::generator::expression::expression_asm;
use crate::parser::statement::Statement;
use crate::parser::StackFrame;

verus! {

/// Emits the code of `statement`.
///
/// A return statement leaves the function at once, so the epilogue and the
/// return follow its value. A declaration pushes the initial value of the
/// variable, which makes its slot.
pub fn statement_asm(out: &mut Asm, statement: Statement, stack_frame: &StackFrame)
    requires
        statement@.declared(stack_frame@.names()),
        old(out).clause_count + statement@.clauses() <= i64::MAX,
    ensures
        emits(
            *old(out),
            *final(out),
            statement_code(statement@, stack_frame@.slots, old(out).clause_count),
            statement@.clauses(),
        ),
{
    let ghost start = *out;
    let ghost slots = stack_frame@.slots;
    match statement {
        Statement::Return(expression) => {
            let ghost value = expression@;
            expression_asm(out, expression, stack_frame);
            let ghost evaluated = *out;
            out.function_return();
            proof {
                lemma_emits_then(
                    start,
                    evaluated,
                    *out,
                    expression_code(value, slots, start.clause_count),
                    value.clauses(),
                    epilogue(),
                    0,
                );
            }
        },
        Statement::Expression(expression) => {
            expression_asm(out, expression, stack_frame);
        },
        Statement::VariableDeclaration(declaration) => {
            match declaration.expression {
                Some(expression) => {
                    let ghost value = expression@;
                    expression_asm(out, expression, stack_frame);
                    let ghost evaluated = *out;
                    out.push(&Operand::Register(Rax));
                    proof {
                        lemma_emits_push(
                            start,
                            evaluated,
                            *out,
                            expression_code(value, slots, start.clause_count),
                            value.clauses(),
                            Instruction::Push(Operand::Register(Rax)),
                        );
                    }
                },
                None => {
                    out.mov(&Immediate(0), &Operand::Register(Rax));
                    let ghost cleared = *out;
                    out.push(&Operand::Register(Rax));
                    proof {
                        let clear = Instruction::Mov(Immediate(0), Operand::Register(Rax));
                        lemma_emits_one(start, cleared, clear);
                        lemma_emits_push(
                            start,
                            cleared,
                            *out,
                            seq![clear],
                            0,
                            Instruction::Push(Operand::Register(Rax)),
                        );
                        assert(seq![clear].push(Instruction::Push(Operand::Register(Rax)))
                            =~= statement_code(statement@, slots, start.clause_count));
                    }
                },
            }
        },
    }
}

} // verus!
