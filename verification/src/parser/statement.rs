//! Statements.

use vstd::prelude::*;
use crate::lexer::{peek, skip, Token};
use crate::parser::expression;
use crate::parser::expression::{Expression, Var};
use crate::parser::grammar;
use crate::parser::grammar::{parse_semicolon, parse_statement};
use crate::parser::syntax::{Expr, Stmt};
use crate::parser::{agrees, Expected, ParseError, StackFrame};

verus! {

/// A statement: a return, an expression evaluated for its effect, or the
/// declaration of a variable.
#[derive(Debug, PartialEq, Eq)]
pub enum Statement {
    Return(Expression),
    Expression(Expression),
    VariableDeclaration(VariableDeclaration),
}

/// The declaration of `var`, with its initializer if it has one.
#[derive(Debug, PartialEq, Eq)]
pub struct VariableDeclaration {
    pub var: Var,
    pub expression: Option<Expression>,
}

/// The expression that an optional initializer stands for.
pub open spec fn initializer_model(initializer: Option<Expression>) -> Option<Expr> {
    match initializer {
        Some(expression) => Some(expression@),
        None => None,
    }
}

impl View for VariableDeclaration {
    type V = Stmt;

    open spec fn view(&self) -> Stmt {
        Stmt::Declaration(self.var.name@, initializer_model(self.expression))
    }
}

impl View for Statement {
    type V = Stmt;

    open spec fn view(&self) -> Stmt {
        match self {
            Statement::Return(expression) => Stmt::Return(expression@),
            Statement::Expression(expression) => Stmt::Expression(expression@),
            Statement::VariableDeclaration(declaration) => declaration@,
        }
    }
}

/// Reads a statement from the front of `tokens`.
///
/// The first token decides which form is read: `return` begins a return
/// statement, `int` a declaration, anything else an expression statement.
/// An error inside that form is the error of the statement. A declaration
/// whose name is already in `stack_frame` fails; otherwise it gives the
/// name the next slot. No other statement changes `stack_frame`, and no
/// statement changes a binding that is in it.
pub fn parse<'a>(tokens: &'a [Token], stack_frame: &mut StackFrame) -> (r: Result<
    (Statement, &'a [Token]),
    ParseError,
>)
    requires
        old(stack_frame).current_offset >= i64::MIN + 8,
    ensures
        match parse_statement(tokens@, old(stack_frame)@) {
            Ok((statement, rest, frame)) => r matches Ok((tree, leftover)) && tree@ == statement
                && leftover@ == rest && final(stack_frame)@ == frame,
            Err(error) => r matches Err(e) && e == error && final(stack_frame)@ == old(
                stack_frame,
            )@,
        },
        r matches Ok((_, rest)) ==> rest@.len() < tokens@.len(),
        old(stack_frame)@.within(final(stack_frame)@),
        final(stack_frame).current_offset >= old(stack_frame).current_offset - 8,
{
    let first = peek(tokens);
    match first {
        Some(Token::KeywordReturn) => match parse_return(tokens, stack_frame) {
            Ok((expression, leftover_tokens)) => Ok(
                (Statement::Return(expression), leftover_tokens),
            ),
            Err(error) => Err(error),
        },
        Some(Token::KeywordInt) => match parse_variable_declaration(tokens, stack_frame) {
            Ok((declaration, leftover_tokens)) => {
                if stack_frame.vars.contains_key(declaration.var.name.as_str()) {
                    Err(ParseError::DuplicateDeclaration(declaration.var.name))
                } else {
                    stack_frame.add_var(declaration.var.name.clone());
                    Ok((Statement::VariableDeclaration(declaration), leftover_tokens))
                }
            },
            Err(error) => Err(error),
        },
        _ => match parse_expression(tokens, stack_frame) {
            Ok((expression, leftover_tokens)) => Ok(
                (Statement::Expression(expression), leftover_tokens),
            ),
            Err(error) => Err(error),
        },
    }
}

/// Reads the `;` at the front of `tokens`.
fn parse_end<'a>(tokens: &'a [Token]) -> (r: Result<&'a [Token], ParseError>)
    ensures
        match parse_semicolon(tokens@) {
            Ok(after) => r matches Ok(leftover) && leftover@ == after && after.len()
                < tokens@.len(),
            Err(error) => r matches Err(e) && e == error,
        },
{
    let ends = if tokens.len() > 0 {
        match &tokens[0] {
            Token::Semicolon => true,
            _ => false,
        }
    } else {
        false
    };
    if ends {
        Ok(skip(tokens, 1))
    } else {
        Err(ParseError::Syntax { expected: Expected::Semicolon, found: peek(tokens) })
    }
}

/// Reads `return`, an expression and `;`.
fn parse_return<'a>(tokens: &'a [Token], stack_frame: &StackFrame) -> (r: Result<
    (Expression, &'a [Token]),
    ParseError,
>)
    ensures
        agrees(r, grammar::parse_return(tokens@, stack_frame@.names())),
        r matches Ok((_, rest)) ==> rest@.len() < tokens@.len(),
{
    let is_return = if tokens.len() > 0 {
        match &tokens[0] {
            Token::KeywordReturn => true,
            _ => false,
        }
    } else {
        false
    };
    if !is_return {
        return Err(ParseError::Syntax { expected: Expected::KeywordReturn, found: peek(tokens) });
    }
    parse_expression(skip(tokens, 1), stack_frame)
}

/// Reads an expression and `;`.
fn parse_expression<'a>(tokens: &'a [Token], stack_frame: &StackFrame) -> (r: Result<
    (Expression, &'a [Token]),
    ParseError,
>)
    ensures
        agrees(r, grammar::parse_terminated(tokens@, stack_frame@.names())),
        r matches Ok((_, rest)) ==> rest@.len() < tokens@.len(),
{
    let (expression, leftover_tokens) = match expression::parse(tokens, stack_frame) {
        Ok(found) => found,
        Err(error) => return Err(error),
    };
    match parse_end(leftover_tokens) {
        Ok(leftover_tokens) => Ok((expression, leftover_tokens)),
        Err(error) => Err(error),
    }
}

/// Reads `int`, an identifier, an initializer if `=` follows, and `;`.
fn parse_variable_declaration<'a>(tokens: &'a [Token], stack_frame: &StackFrame) -> (r: Result<
    (VariableDeclaration, &'a [Token]),
    ParseError,
>)
    ensures
        match grammar::parse_declaration(tokens@, stack_frame@.names()) {
            Ok((name, initializer, after)) => r matches Ok((declaration, leftover))
                && declaration.var.name == name && initializer_model(declaration.expression)
                == initializer && leftover@ == after,
            Err(error) => r matches Err(e) && e == error,
        },
        r matches Ok((_, rest)) ==> rest@.len() < tokens@.len(),
{
    let begins = if tokens.len() > 0 {
        match &tokens[0] {
            Token::KeywordInt => true,
            _ => false,
        }
    } else {
        false
    };
    if !begins {
        return Err(ParseError::Syntax { expected: Expected::KeywordInt, found: peek(tokens) });
    }
    let name = if tokens.len() > 1 {
        match &tokens[1] {
            Token::Identifier(name) => Some(name.clone()),
            _ => None,
        }
    } else {
        None
    };
    let var = match name {
        Some(name) => Var { name },
        None => return Err(
            ParseError::Syntax { expected: Expected::Identifier, found: peek(skip(tokens, 1)) },
        ),
    };
    let assigns = if tokens.len() > 2 {
        match &tokens[2] {
            Token::Assignment => true,
            _ => false,
        }
    } else {
        false
    };
    if assigns {
        match parse_expression(skip(tokens, 3), stack_frame) {
            Ok((expression, leftover_tokens)) => Ok(
                (VariableDeclaration { var, expression: Some(expression) }, leftover_tokens),
            ),
            Err(error) => Err(error),
        }
    } else {
        match parse_end(skip(tokens, 2)) {
            Ok(leftover_tokens) => Ok(
                (VariableDeclaration { var, expression: None }, leftover_tokens),
            ),
            Err(error) => Err(error),
        }
    }
}

} // verus!
