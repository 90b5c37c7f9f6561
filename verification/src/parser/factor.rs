//! Factors: the operands of multiplication and division.

use vstd::prelude::*;
use crate::lexer::{skip, Token};
use crate::parser::expression::{expression_model, parse_with_parens, Expression};
use crate::lexer::peek;
use crate::parser::grammar::{
    parse_factor, parse_level, parse_unary, unary_operator, unexpected, Level,
};
use crate::parser::syntax::{BinaryOperator, Expr};
use crate::parser::{agrees, Expected, ParseError, StackFrame};

verus! {

/// A factor: an expression in parentheses, a unary operation, an integer
/// constant or a reference to a variable.
#[derive(Debug, PartialEq, Eq)]
pub enum Factor {
    Expression(Box<Expression>),
    UnaryOperation(Box<UnaryOperation>),
    Constant(i64),
    Identifier(String),
}

/// A unary operator.
#[derive(Debug, Clone, Copy, PartialEq, Eq, Structural)]
pub enum UnaryOperator {
    Negation,
    BitwiseComplement,
    LogicalNegation,
}

/// A unary operator applied to a factor.
#[derive(Debug, PartialEq, Eq)]
pub struct UnaryOperation {
    pub operator: UnaryOperator,
    pub factor: Factor,
}

/// An operator that joins factors.
#[derive(Debug, Clone, Copy, PartialEq, Eq, Structural)]
pub enum BinaryFactorOperator {
    Multiplication,
    Division,
}

/// An operator and the factor to its right.
#[derive(Debug, PartialEq, Eq)]
pub struct BinaryFactor {
    pub operator: BinaryFactorOperator,
    pub right_factor: Factor,
}

/// The expression that a factor stands for.
pub open spec fn factor_model(factor: Factor) -> Expr
    decreases factor,
{
    match factor {
        Factor::Expression(inner) => Expr::Group(Box::new(expression_model(*inner))),
        Factor::UnaryOperation(operation) => unary_operation_model(*operation),
        Factor::Constant(value) => Expr::Constant(value),
        Factor::Identifier(name) => Expr::Variable(name@),
    }
}

/// The expression that a unary operation stands for.
pub open spec fn unary_operation_model(operation: UnaryOperation) -> Expr
    decreases operation,
{
    Expr::Unary(operation.operator, Box::new(factor_model(operation.factor)))
}

impl View for Factor {
    type V = Expr;

    open spec fn view(&self) -> Expr {
        factor_model(*self)
    }
}

impl View for UnaryOperation {
    type V = Expr;

    open spec fn view(&self) -> Expr {
        unary_operation_model(*self)
    }
}

impl View for BinaryFactorOperator {
    type V = BinaryOperator;

    open spec fn view(&self) -> BinaryOperator {
        match self {
            BinaryFactorOperator::Multiplication => BinaryOperator::Multiplication,
            BinaryFactorOperator::Division => BinaryOperator::Division,
        }
    }
}

/// Reads a factor from the front of `tokens`.
///
/// The first token decides which form is read; an error inside that form is
/// the error of the factor. A variable that is read must be declared in
/// `stack_frame`.
pub fn parse<'a>(tokens: &'a [Token], stack_frame: &StackFrame) -> (r: Result<
    (Factor, &'a [Token]),
    ParseError,
>)
    ensures
        agrees(r, parse_level(Level::Factor, tokens@, stack_frame@.names())),
        r matches Ok((_, rest)) ==> rest@.len() < tokens@.len(),
    decreases tokens@.len(), 0nat, 1nat,
{
    assert(parse_level(Level::Factor, tokens@, stack_frame@.names()) == parse_factor(
        tokens@,
        stack_frame@.names(),
    ));
    if tokens.len() == 0 {
        return Err(ParseError::Syntax { expected: Expected::Factor, found: None });
    }
    match &tokens[0] {
        Token::OpenParen => match parse_with_parens(tokens, stack_frame) {
            Ok((expression, leftover_tokens)) => Ok(
                (Factor::Expression(Box::new(expression)), leftover_tokens),
            ),
            Err(error) => Err(error),
        },
        Token::MinusSign | Token::BitwiseComplement | Token::LogicalNegation => {
            match parse_unary_operation(tokens, stack_frame) {
                Ok((operation, leftover_tokens)) => Ok(
                    (Factor::UnaryOperation(Box::new(operation)), leftover_tokens),
                ),
                Err(error) => Err(error),
            }
        },
        Token::IntegerLiteral(_) => match parse_integer_literal(tokens) {
            Ok((value, leftover_tokens)) => Ok((Factor::Constant(value), leftover_tokens)),
            Err(error) => Err(error),
        },
        Token::Identifier(_) => match parse_identifier(tokens) {
            Ok((name, leftover_tokens)) => {
                if stack_frame.vars.contains_key(name.as_str()) {
                    Ok((Factor::Identifier(name), leftover_tokens))
                } else {
                    Err(ParseError::UndeclaredVariable(name))
                }
            },
            Err(error) => Err(error),
        },
        _ => Err(ParseError::Syntax { expected: Expected::Factor, found: peek(tokens) }),
    }
}

/// The operator that joins factors for which `token` stands, if it is one.
pub fn binary_factor_operator_for_token(token: &Token) -> (r: Option<BinaryFactorOperator>)
    ensures
        match r {
            Some(operator) => Level::Term.operator(*token) == Some(operator@),
            None => Level::Term.operator(*token) is None,
        },
{
    match token {
        Token::MultiplicationSign => Some(BinaryFactorOperator::Multiplication),
        Token::DivisionSign => Some(BinaryFactorOperator::Division),
        _ => None,
    }
}

/// Reads a unary operator and the factor that it applies to.
fn parse_unary_operation<'a>(tokens: &'a [Token], stack_frame: &StackFrame) -> (r: Result<
    (UnaryOperation, &'a [Token]),
    ParseError,
>)
    ensures
        agrees(r, parse_unary(tokens@, stack_frame@.names())),
        r matches Ok((_, rest)) ==> rest@.len() < tokens@.len(),
    decreases tokens@.len(), 0nat, 0nat,
{
    let operator = if tokens.len() > 0 {
        unary_operator_for_token(&tokens[0])
    } else {
        None
    };
    match operator {
        Some(operator) => match parse(skip(tokens, 1), stack_frame) {
            Ok((factor, leftover_tokens)) => Ok(
                (UnaryOperation { operator, factor }, leftover_tokens),
            ),
            Err(error) => Err(error),
        },
        None => Err(ParseError::Syntax { expected: Expected::UnaryOperator, found: peek(tokens) }),
    }
}

/// Reads an integer literal.
fn parse_integer_literal<'a>(tokens: &'a [Token]) -> (r: Result<(i64, &'a [Token]), ParseError>)
    ensures
        match r {
            Ok((value, rest)) => tokens@.len() >= 1 && tokens@[0] == Token::IntegerLiteral(value)
                && rest@ == tokens@.skip(1),
            Err(error) => !(tokens@.len() >= 1 && tokens@[0] is IntegerLiteral) && error
                == unexpected(Expected::IntegerLiteral, tokens@),
        },
{
    if tokens.len() > 0 {
        if let Token::IntegerLiteral(value) = &tokens[0] {
            return Ok((*value, skip(tokens, 1)));
        }
    }
    Err(ParseError::Syntax { expected: Expected::IntegerLiteral, found: peek(tokens) })
}

/// Reads an identifier.
fn parse_identifier<'a>(tokens: &'a [Token]) -> (r: Result<(String, &'a [Token]), ParseError>)
    ensures
        match r {
            Ok((name, rest)) => tokens@.len() >= 1 && tokens@[0] == Token::Identifier(name)
                && rest@ == tokens@.skip(1),
            Err(error) => !(tokens@.len() >= 1 && tokens@[0] is Identifier) && error == unexpected(
                Expected::Identifier,
                tokens@,
            ),
        },
{
    if tokens.len() > 0 {
        if let Token::Identifier(name) = &tokens[0] {
            return Ok((name.clone(), skip(tokens, 1)));
        }
    }
    Err(ParseError::Syntax { expected: Expected::Identifier, found: peek(tokens) })
}

/// The unary operator for which `token` stands, if it is one.
fn unary_operator_for_token(token: &Token) -> (r: Option<UnaryOperator>)
    ensures
        r == unary_operator(*token),
{
    match token {
        Token::MinusSign => Some(UnaryOperator::Negation),
        Token::BitwiseComplement => Some(UnaryOperator::BitwiseComplement),
        Token::LogicalNegation => Some(UnaryOperator::LogicalNegation),
        _ => None,
    }
}

} // verus!
