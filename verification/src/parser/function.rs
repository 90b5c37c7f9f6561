//! Functions.

use vstd::prelude::*;
use crate::lexer::{peek, skip, Token};
use crate::parser::laws::{lemma_function_faithful, lemma_function_slotted};
use crate::parser::grammar::{complete, parse_body, parse_function, ParsedBody};
use crate::parser::statement;
use crate::parser::statement::Statement;
use crate::parser::syntax::{slotted, Frame, FunctionModel, Stmt};
use crate::parser::{Expected, ParseError, StackFrame};

verus! {

/// A function: its name, its statements in order, and the symbol table
/// that their declarations built.
pub struct Function {
    pub name: String,
    pub statements: Vec<Statement>,
    pub stack_frame: StackFrame,
}

/// The most tokens that a function may have. With no more than these, the
/// offset of every stack slot fits the machine's signed word.
pub const MAX_TOKENS: u64 = 0x0fff_ffff_ffff_ffff;

/// The statements that a sequence of statement trees stands for.
pub open spec fn statement_models(statements: Seq<Statement>) -> Seq<Stmt> {
    statements.map_values(|statement: Statement| statement@)
}

impl View for Function {
    type V = FunctionModel;

    open spec fn view(&self) -> FunctionModel {
        FunctionModel {
            name: self.name@,
            body: statement_models(self.statements@),
            frame: self.stack_frame@,
        }
    }
}

/// What a body gives when the statements `done` stand before it.
pub open spec fn after(done: Seq<Stmt>, body: ParsedBody) -> ParsedBody {
    match body {
        Ok((statements, frame, rest)) => Ok((done + statements, frame, rest)),
        Err(error) => Err(error),
    }
}

/// Reads one function from `tokens`, which must hold nothing else.
///
/// Statements after a return statement are read like any other, and they
/// stay in the tree.
pub fn parse(tokens: Vec<Token>) -> (r: Result<Function, ParseError>)
    requires
        tokens@.len() <= MAX_TOKENS,
    ensures
        match parse_function(tokens@) {
            Ok(function) => r matches Ok(tree) && tree@ == function,
            Err(error) => r matches Err(e) && e == error,
        },
        r matches Ok(tree) ==> tree@.declared() && tree@.clauses() <= tokens@.len() && slotted(
            tree@.body,
            tree@.frame.slots,
        ),
{
    let all = tokens.as_slice();
    let begins = match peek(all) {
        Some(Token::KeywordInt) => true,
        _ => false,
    };
    if !begins {
        return Err(ParseError::Syntax { expected: Expected::ReturnType, found: peek(all) });
    }
    let name = match peek(skip(all, 1)) {
        Some(Token::Identifier(name)) => name,
        found => return Err(ParseError::Syntax { expected: Expected::Identifier, found }),
    };
    match peek(skip(all, 2)) {
        Some(Token::OpenParen) => {},
        found => return Err(ParseError::Syntax { expected: Expected::OpenParen, found }),
    }
    match peek(skip(all, 3)) {
        Some(Token::CloseParen) => {},
        found => return Err(ParseError::Syntax { expected: Expected::CloseParen, found }),
    }
    match peek(skip(all, 4)) {
        Some(Token::OpenBrace) => {},
        found => return Err(ParseError::Syntax { expected: Expected::OpenBrace, found }),
    }
    let mut leftover_tokens: &[Token] = skip(all, 5);
    let mut statements: Vec<Statement> = Vec::new();
    let mut stack_frame: StackFrame = StackFrame::default();
    assert(after(Seq::empty(), parse_body(leftover_tokens@, stack_frame@)) == parse_body(
        leftover_tokens@,
        stack_frame@,
    )) by {
        match parse_body(leftover_tokens@, stack_frame@) {
            Ok((found, _, _)) => assert(Seq::<Stmt>::empty() + found =~= found),
            Err(_) => {},
        }
    }
    loop
        invariant
            all@ == tokens@,
            tokens@.len() <= MAX_TOKENS,
            parse_function(tokens@) == complete(
                name@,
                parse_body(tokens@.skip(5), Frame::empty()),
            ),
            leftover_tokens@.len() + 5 <= tokens@.len(),
            stack_frame.current_offset >= -8 * (tokens@.len() - leftover_tokens@.len()),
            parse_body(tokens@.skip(5), Frame::empty()) == after(
                statement_models(statements@),
                parse_body(leftover_tokens@, stack_frame@),
            ),
        decreases leftover_tokens@.len(),
    {
        match peek(leftover_tokens) {
            None => {
                return Err(ParseError::Syntax { expected: Expected::CloseBrace, found: None });
            },
            Some(Token::CloseBrace) => {
                let found = peek(skip(leftover_tokens, 1));
                assert(statement_models(statements@) + Seq::<Stmt>::empty() =~= statement_models(
                    statements@,
                ));
                proof {
                    lemma_function_faithful(tokens@);
                    lemma_function_slotted(tokens@);
        lemma_function_slotted(tokens@);
                }
                return match found {
                    None => Ok(Function { name, statements, stack_frame }),
                    found => Err(ParseError::Syntax { expected: Expected::EndOfInput, found }),
                };
            },
            _ => {},
        }
        let ghost before = stack_frame@;
        match statement::parse(leftover_tokens, &mut stack_frame) {
            Ok((statement, rest)) => {
                proof {
                    let done = statement_models(statements@);
                    assert(statement_models(statements@.push(statement)) =~= done.push(
                        statement@,
                    ));
                    match parse_body(rest@, stack_frame@) {
                        Ok((found, _, _)) => assert(done + (seq![statement@] + found)
                            =~= done.push(statement@) + found),
                        Err(_) => {},
                    }
                }
                statements.push(statement);
                leftover_tokens = rest;
            },
            Err(error) => return Err(error),
        }
    }
}

} // verus!
