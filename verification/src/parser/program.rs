//! Programs.

use vstd::prelude::*;
use crate::lexer::Token;
use crate::parser::function;
use crate::parser::function::{Function, MAX_TOKENS};
use crate::parser::laws::{lemma_function_faithful, lemma_function_slotted};
use crate::parser::grammar::parse_function;
use crate::parser::syntax::{slotted, FunctionModel};
use crate::parser::ParseError;

verus! {

/// A program: one function.
pub struct Program {
    pub function: Function,
}

impl View for Program {
    type V = FunctionModel;

    open spec fn view(&self) -> FunctionModel {
        self.function@
    }
}

/// Reads a program, which is one function, from `tokens`.
pub fn parse(tokens: Vec<Token>) -> (r: Result<Program, ParseError>)
    requires
        tokens@.len() <= MAX_TOKENS,
    ensures
        match parse_function(tokens@) {
            Ok(function) => r matches Ok(tree) && tree@ == function,
            Err(error) => r matches Err(e) && e == error,
        },
        r matches Ok(tree) ==> tree@.declared() && tree@.clauses() <= tokens@.len() && slotted(
            tree@.body,
            tree@.frame.slots,
        ),
{
    proof {
        lemma_function_faithful(tokens@);
        lemma_function_slotted(tokens@);
    }
    match function::parse(tokens) {
        Ok(function) => Ok(Program { function }),
        Err(error) => Err(error),
    }
}

} // verus!
