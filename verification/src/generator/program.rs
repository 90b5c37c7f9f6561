//! Code for programs.

use vstd::prelude::*;
use crate::emitter::Asm;
use crate::generator::code::function_code;
use crate::generator::emits;
use crate::generator::function::function_asm;
use crate::parser::program::Program;

verus! {

/// Emits the code of `program`, which is the code of its function.
///
/// Every variable of the function must be in its symbol table, and the
/// branch scopes that it takes must not run the emitter's count over. A
/// program that the parser returned meets the first demand.
pub fn program_asm(out: &mut Asm, program: Program)
    requires
        program@.declared(),
        old(out).clause_count + program@.clauses() <= i64::MAX,
    ensures
        emits(
            *old(out),
            *final(out),
            function_code(program@, old(out).clause_count),
            program@.clauses(),
        ),
{
    function_asm(out, program.function);
}

} // verus!
