//! Code for functions.

use vstd::prelude::*;
use crate::emitter::Operand::Immediate;
use crate::emitter::Register::Rax;
use crate::emitter::{group_listing, lemma_listing_concat, listing, prologue, Asm, Operand};
use crate::generator::code::{advance, body_code, function_code, statement_code};
use crate::generator::emits;
use crate::generator::statement::statement_asm;
use crate::parser::function::{statement_models, Function};
use crate::parser::statement::Statement;
use crate::parser::syntax::{body_clauses, Stmt};

verus! {

/// The first statements of a body take no more branch scopes than the
/// body.
pub proof fn lemma_body_clauses_prefix(body: Seq<Stmt>, k: int)
    requires
        0 <= k <= body.len(),
    ensures
        body_clauses(body.take(k)) <= body_clauses(body),
    decreases body.len(),
{
    if k == body.len() {
        assert(body.take(k) =~= body);
    } else {
        lemma_body_clauses_prefix(body.drop_last(), k);
        assert(body.drop_last().take(k) =~= body.take(k));
    }
}

/// Emits the code of `function`: the prologue, the statements in order,
/// and the return of zero where the statements do not end in a return.
///
/// Every variable of the function must be in its symbol table, and the
/// branch scopes that it takes must not run the emitter's count over.
pub fn function_asm(out: &mut Asm, function: Function)
    requires
        function@.declared(),
        old(out).clause_count + function@.clauses() <= i64::MAX,
    ensures
        emits(
            *old(out),
            *final(out),
            function_code(function@, old(out).clause_count),
            function@.clauses(),
        ),
{
    broadcast use group_listing;

    let ghost start = *out;
    let ghost model = function@;
    let ghost body = function@.body;
    let ghost slots = function@.frame.slots;
    let Function { name, statements, stack_frame } = function;
    let ghost trees = statements@;
    let has_return = if statements.len() > 0 {
        match &statements[statements.len() - 1] {
            Statement::Return(_) => true,
            _ => false,
        }
    } else {
        false
    };
    out.declare_function(name);
    proof {
        assert(body.take(0) =~= Seq::<Stmt>::empty());
        assert(prologue(model.name) + body_code(body.take(0), slots, start.clause_count)
            =~= prologue(model.name));
    }
    for statement in iter: statements
        invariant
            iter.seq() == trees,
            body == statement_models(trees),
            model.body == body,
            model.frame == stack_frame@,
            model.declared(),
            slots == stack_frame@.slots,
            start.clause_count + body_clauses(body) <= i64::MAX,
            emits(
                start,
                *out,
                prologue(model.name) + body_code(
                    body.take(iter.index() as int),
                    slots,
                    start.clause_count,
                ),
                body_clauses(body.take(iter.index() as int)),
            ),
    {
        let ghost done = body.take(iter.index() as int);
        proof {
            assert(body.take(iter.index() + 1).drop_last() =~= done);
            lemma_body_clauses_prefix(body, iter.index() + 1);
            assert(body[iter.index() as int] == statement@);
            assert(model.body[iter.index() as int].declared(model.frame.names()));
        }
        statement_asm(out, statement, &stack_frame);
        proof {
            lemma_listing_concat(
                prologue(model.name) + body_code(done, slots, start.clause_count),
                statement_code(
                    body[iter.index() as int],
                    slots,
                    advance(start.clause_count, body_clauses(done)),
                ),
            );
            assert(prologue(model.name) + body_code(
                body.take(iter.index() + 1),
                slots,
                start.clause_count,
            ) =~= prologue(model.name) + body_code(done, slots, start.clause_count)
                + statement_code(
                body[iter.index() as int],
                slots,
                advance(start.clause_count, body_clauses(done)),
            ));
            assert(out.source@ =~= start.source@ + listing(
                prologue(model.name) + body_code(
                    body.take(iter.index() + 1),
                    slots,
                    start.clause_count,
                ),
            ));
        }
    }
    proof {
        assert(body.take(body.len() as int) =~= body);
    }
    if !has_return {
        out.mov(&Immediate(0), &Operand::Register(Rax));
        out.function_return();
    }
    assert(out.source@ =~= start.source@ + listing(function_code(model, start.clause_count)));
}

} // verus!
