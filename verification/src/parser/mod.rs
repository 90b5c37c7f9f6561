//! The parser: from the tokens of one function to its syntax tree and
//! symbol table, or to the first error.

use vstd::prelude::*;
use vstd::hash_map::StringHashMap;
use crate::lexer::Token;
use crate::parser::grammar::Parsed;
use crate::parser::syntax::{Expr, Frame};

pub mod syntax;
pub mod grammar;
pub mod laws;
pub mod derivation;
pub mod factor;
pub mod term;
pub mod expression;
pub mod statement;
pub mod function;
pub mod program;

verus! {

/// What the parser wanted where it found something else.
#[derive(Debug, Clone, Copy, PartialEq, Eq, Structural)]
pub enum Expected {
    /// The `int` that opens a function.
    ReturnType,
    Identifier,
    OpenParen,
    CloseParen,
    OpenBrace,
    CloseBrace,
    Semicolon,
    Assignment,
    KeywordInt,
    KeywordReturn,
    IntegerLiteral,
    UnaryOperator,
    /// The start of a factor: `(`, a unary operator, an integer literal or
    /// an identifier.
    Factor,
    /// Nothing: the function was complete.
    EndOfInput,
}

/// Why a parse failed.
#[derive(Debug, PartialEq, Eq)]
pub enum ParseError {
    /// The tokens do not fit the grammar. `found` is the token that stands
    /// where `expected` should, or nothing at the end of the input.
    Syntax { expected: Expected, found: Option<Token> },
    /// The named variable is read or assigned before it is declared.
    UndeclaredVariable(String),
    /// The named variable is declared a second time.
    DuplicateDeclaration(String),
}

/// The symbol table of one function: the offset of each declared variable
/// from the frame base, and the offset that was given out last.
pub struct StackFrame {
    pub current_offset: i64,
    pub vars: StringHashMap<i64>,
}

/// Whether `result`, what an executable parser returned, is what the
/// grammar gives: on success a tree that stands for the same expression and
/// the same tokens left over, on failure the same error.
pub open spec fn agrees<T: View<V = Expr>>(
    result: Result<(T, &[Token]), ParseError>,
    parsed: Parsed,
) -> bool {
    match parsed {
        Ok((expression, rest)) => result matches Ok((tree, leftover)) && tree@ == expression
            && leftover@ == rest,
        Err(error) => result matches Err(e) && e == error,
    }
}

impl View for StackFrame {
    type V = Frame;

    open spec fn view(&self) -> Frame {
        Frame { current_offset: self.current_offset as int, slots: self.vars@ }
    }
}

impl Default for StackFrame {
    fn default() -> (r: Self)
        ensures
            r@ == Frame::empty(),
    {
        StackFrame { current_offset: 0, vars: StringHashMap::new() }
    }
}

impl StackFrame {
    /// Gives `name` the next slot below the ones given out so far.
    pub fn add_var(&mut self, name: String)
        requires
            old(self).current_offset >= i64::MIN + 8,
        ensures
            final(self)@ == old(self)@.declare(name@),
    {
        self.current_offset = self.current_offset - 8;
        self.vars.insert(name, self.current_offset);
    }
}

} // verus!
