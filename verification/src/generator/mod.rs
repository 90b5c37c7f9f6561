//! The code generator: one walk of the syntax tree that emits the code of
//! each node.

use vstd::prelude::*;
use crate::emitter::{lemma_listing_concat, lemma_listing_one, listing, Asm, Instruction};

pub mod code;
pub mod expression;
pub mod factor;
pub mod function;
pub mod labels;
pub mod program;
pub mod statement;
pub mod term;

verus! {

/// Whether the emitter went from `before` to `after` by emitting `code`
/// and taking `clauses` branch scopes.
pub open spec fn emits(before: Asm, after: Asm, code: Seq<Instruction>, clauses: nat) -> bool {
    &&& after.source@ == before.source@ + listing(code)
    &&& after.clause_count == before.clause_count + clauses
}

/// An emitter that appended the line of one instruction emitted that
/// instruction.
pub proof fn lemma_emits_one(before: Asm, after: Asm, instruction: Instruction)
    requires
        after.source@ == before.source@ + instruction.text(),
        after.clause_count == before.clause_count,
    ensures
        emits(before, after, seq![instruction], 0),
{
    lemma_listing_one(instruction);
}

/// An emitter that emitted `first` and then `second` emitted the two in a
/// row.
pub proof fn lemma_emits_then(
    before: Asm,
    between: Asm,
    after: Asm,
    first: Seq<Instruction>,
    taken: nat,
    second: Seq<Instruction>,
    more: nat,
)
    requires
        emits(before, between, first, taken),
        emits(between, after, second, more),
    ensures
        emits(before, after, first + second, taken + more),
{
    lemma_listing_concat(first, second);
    assert(after.source@ =~= before.source@ + listing(first + second));
}

/// An emitter that emitted `code` and then appended the line of one more
/// instruction emitted `code` with that instruction at its end.
pub proof fn lemma_emits_push(
    before: Asm,
    between: Asm,
    after: Asm,
    code: Seq<Instruction>,
    taken: nat,
    instruction: Instruction,
)
    requires
        emits(before, between, code, taken),
        after.source@ == between.source@ + instruction.text(),
        after.clause_count == between.clause_count,
    ensures
        emits(before, after, code.push(instruction), taken),
{
    lemma_emits_one(between, after, instruction);
    lemma_emits_then(before, between, after, code, taken, seq![instruction], 0);
    assert(code + seq![instruction] =~= code.push(instruction));
}

/// An emitter that did nothing emitted no code.
pub proof fn lemma_emits_nothing(before: Asm)
    ensures
        emits(before, before, Seq::empty(), 0),
{
    assert(before.source@ =~= before.source@ + listing(Seq::empty()));
}

} // verus!
