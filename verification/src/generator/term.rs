//! Code for terms.

use vstd::prelude::*;
use crate::emitter::Operand::Immediate;
use crate::emitter::Register::{Rax, Rcx, Rdx};
use crate::emitter::{Asm, Instruction, Operand};
use crate::generator::code::{combine_code, expression_code, operation_code};
use crate::generator::factor::factor_asm;
use crate::generator::{
    emits, lemma_emits_nothing, lemma_emits_one, lemma_emits_push, lemma_emits_then,
};
use crate::parser::factor::{BinaryFactor, BinaryFactorOperator};
use crate::parser::syntax::{chain, lemma_chain_prefix, Link};
use crate::parser::term::{factor_links, Term};
use crate::parser::StackFrame;

verus! {

/// Emits the code of a chain of multiplications and divisions.
pub fn term_asm(out: &mut Asm, term: Term, stack_frame: &StackFrame)
    requires
        term@.declared(stack_frame@.names()),
        old(out).clause_count + term@.clauses() <= i64::MAX,
    ensures
        emits(
            *old(out),
            *final(out),
            expression_code(term@, stack_frame@.slots, old(out).clause_count),
            term@.clauses(),
        ),
    decreases term, 1nat,
{
    let ghost start = *out;
    let ghost names = stack_frame@.names();
    let ghost slots = stack_frame@.slots;
    let ghost first = term.factor@;
    let ghost items = term.binary_factors@;
    let ghost links = factor_links(items);
    proof {
        assert(links.take(0) =~= Seq::<Link>::empty());
        if links.len() > 0 {
            lemma_chain_prefix(first, links, names, 0);
        }
    }
    factor_asm(out, term.factor, stack_frame);
    for binary in iter: term.binary_factors
        invariant
            iter.seq() == items,
            links == factor_links(items),
            names == stack_frame@.names(),
            slots == stack_frame@.slots,
            chain(first, links).declared(names),
            start.clause_count + chain(first, links).clauses() <= i64::MAX,
            emits(
                start,
                *out,
                expression_code(
                    chain(first, links.take(iter.index() as int)),
                    slots,
                    start.clause_count,
                ),
                chain(first, links.take(iter.index() as int)).clauses(),
            ),
    {
        let ghost between = *out;
        let ghost done = chain(first, links.take(iter.index() as int));
        let ghost link = links[iter.index() as int];
        proof {
            lemma_chain_prefix(first, links, names, iter.index() as int);
            assert(link.0 == binary.operator@);
            assert(link.1 == binary.right_factor@);
        }
        factor_operand_asm(out, binary, stack_frame);
        proof {
            lemma_emits_then(
                start,
                between,
                *out,
                expression_code(done, slots, start.clause_count),
                done.clauses(),
                operation_code(link.0, link.1, slots, between.clause_count),
                (link.1.clauses()) as nat,
            );
        }
    }
    proof {
        assert(links.take(links.len() as int) =~= links);
    }
}

/// Emits the code of a multiplication or division and its right operand,
/// where the left operand is in the accumulator.
fn factor_operand_asm(out: &mut Asm, binary: BinaryFactor, stack_frame: &StackFrame)
    requires
        binary.right_factor@.declared(stack_frame@.names()),
        old(out).clause_count + binary.right_factor@.clauses() <= i64::MAX,
    ensures
        emits(
            *old(out),
            *final(out),
            operation_code(
                binary.operator@,
                binary.right_factor@,
                stack_frame@.slots,
                old(out).clause_count,
            ),
            binary.right_factor@.clauses(),
        ),
    decreases binary, 0nat,
{
    let ghost start = *out;
    let ghost slots = stack_frame@.slots;
    let ghost right = binary.right_factor@;
    let ghost operator = binary.operator@;
    out.push(&Operand::Register(Rax));
    let ghost saved = *out;
    factor_asm(out, binary.right_factor, stack_frame);
    let ghost evaluated = *out;
    out.pop(&Operand::Register(Rcx));
    let ghost restored = *out;
    factor_combine_asm(out, binary.operator);
    proof {
        let save = seq![Instruction::Push(Operand::Register(Rax))];
        let value = expression_code(right, slots, start.clause_count);
        let restore = seq![Instruction::Pop(Operand::Register(Rcx))];
        lemma_emits_one(start, saved, Instruction::Push(Operand::Register(Rax)));
        lemma_emits_then(start, saved, evaluated, save, 0, value, right.clauses());
        lemma_emits_one(evaluated, restored, Instruction::Pop(Operand::Register(Rcx)));
        lemma_emits_then(start, evaluated, restored, save + value, right.clauses(), restore, 0);
        lemma_emits_then(
            start,
            restored,
            *out,
            save + value + restore,
            right.clauses(),
            combine_code(operator),
            0,
        );
    }
}

/// Emits the code that multiplies the saved left operand by the
/// accumulator, or divides it by the accumulator. For a division the left
/// operand becomes the dividend, with its high half cleared, and the right
/// one the divisor.
fn factor_combine_asm(out: &mut Asm, operator: BinaryFactorOperator)
    ensures
        emits(*old(out), *final(out), combine_code(operator@), 0),
{
    let ghost start = *out;
    proof {
        lemma_emits_nothing(start);
    }
    match operator {
        BinaryFactorOperator::Multiplication => {
            let ghost mut last = *out;
            let ghost mut code = Seq::<Instruction>::empty();
            out.imul(&Operand::Register(Rcx), &Operand::Register(Rax));
            proof {
                let emitted = Instruction::Imul(Operand::Register(Rcx), Operand::Register(Rax));
                lemma_emits_push(start, last, *out, code, 0, emitted);
                code = code.push(emitted);
                last = *out;
            }
            assert(code =~= combine_code(operator@));
        },
        BinaryFactorOperator::Division => {
            let ghost mut last = *out;
            let ghost mut code = Seq::<Instruction>::empty();
            out.mov(&Operand::Register(Rcx), &Operand::Register(Rdx));
            proof {
                let emitted = Instruction::Mov(Operand::Register(Rcx), Operand::Register(Rdx));
                lemma_emits_push(start, last, *out, code, 0, emitted);
                code = code.push(emitted);
                last = *out;
            }
            out.mov(&Operand::Register(Rax), &Operand::Register(Rcx));
            proof {
                let emitted = Instruction::Mov(Operand::Register(Rax), Operand::Register(Rcx));
                lemma_emits_push(start, last, *out, code, 0, emitted);
                code = code.push(emitted);
                last = *out;
            }
            out.mov(&Operand::Register(Rdx), &Operand::Register(Rax));
            proof {
                let emitted = Instruction::Mov(Operand::Register(Rdx), Operand::Register(Rax));
                lemma_emits_push(start, last, *out, code, 0, emitted);
                code = code.push(emitted);
                last = *out;
            }
            out.mov(&Immediate(0), &Operand::Register(Rdx));
            proof {
                let emitted = Instruction::Mov(Immediate(0), Operand::Register(Rdx));
                lemma_emits_push(start, last, *out, code, 0, emitted);
                code = code.push(emitted);
                last = *out;
            }
            out.idiv(&Operand::Register(Rcx));
            proof {
                let emitted = Instruction::Idiv(Operand::Register(Rcx));
                lemma_emits_push(start, last, *out, code, 0, emitted);
                code = code.push(emitted);
                last = *out;
            }
            assert(code =~= combine_code(operator@));
        },
    }
}

} // verus!
