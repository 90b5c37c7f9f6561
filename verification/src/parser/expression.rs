//! Expressions: assignment and the levels of binary operators above terms.

use vstd::prelude::*;
use crate::lexer::{skip, Token};
use crate::parser::grammar;
use crate::parser::grammar::{
    assignment_ahead, parse_chain, parse_expression, parse_level, parse_parenthesized, Level,
};
use crate::parser::syntax::{chain, lemma_chain_push, BinaryOperator, Expr, Link};
use crate::parser::term;
use crate::parser::term::{term_model, Term};
use crate::lexer::peek;
use crate::parser::{agrees, Expected, ParseError, StackFrame};

verus! {

/// An expression: an assignment, or a chain of `||`.
#[derive(Debug, PartialEq, Eq)]
pub enum Expression {
    Assignment(Box<Assignment>),
    LogicalOrExpression(LogicalOrExpression),
}

/// An operand of `||`, and the operators and operands that follow it.
#[derive(Debug, PartialEq, Eq)]
pub struct LogicalOrExpression {
    pub expression: LogicalAndExpression,
    pub binary_expressions: Vec<BinaryLogicalAndExpression>,
}

/// `||` and the operand to its right.
#[derive(Debug, PartialEq, Eq)]
pub struct BinaryLogicalAndExpression {
    pub operator: LogicalOrOperator,
    pub right_expression: LogicalAndExpression,
}

/// The operator of a chain of `||`.
#[derive(Debug, Clone, Copy, PartialEq, Eq, Structural)]
pub enum LogicalOrOperator {
    Or,
}

/// An operand of `&&`, and the operators and operands that follow it.
#[derive(Debug, PartialEq, Eq)]
pub struct LogicalAndExpression {
    pub expression: EqualityExpression,
    pub binary_expressions: Vec<BinaryEqualityExpression>,
}

/// `&&` and the operand to its right.
#[derive(Debug, PartialEq, Eq)]
pub struct BinaryEqualityExpression {
    pub operator: LogicalAndOperator,
    pub right_expression: EqualityExpression,
}

/// The operator of a chain of `&&`.
#[derive(Debug, Clone, Copy, PartialEq, Eq, Structural)]
pub enum LogicalAndOperator {
    And,
}

/// An operand of `==` or `!=`, and the operators and operands that follow
/// it.
#[derive(Debug, PartialEq, Eq)]
pub struct EqualityExpression {
    pub expression: RelationalExpression,
    pub binary_expressions: Vec<BinaryRelationalExpression>,
}

/// `==` or `!=` and the operand to its right.
#[derive(Debug, PartialEq, Eq)]
pub struct BinaryRelationalExpression {
    pub operator: EqualityOperator,
    pub right_expression: RelationalExpression,
}

/// An operator that tests for equality.
#[derive(Debug, Clone, Copy, PartialEq, Eq, Structural)]
pub enum EqualityOperator {
    Equal,
    NotEqual,
}

/// An operand of an ordering test, and the operators and operands that
/// follow it.
#[derive(Debug, PartialEq, Eq)]
pub struct RelationalExpression {
    pub expression: AdditiveExpression,
    pub binary_expressions: Vec<BinaryAdditiveExpression>,
}

/// An ordering test and the operand to its right.
#[derive(Debug, PartialEq, Eq)]
pub struct BinaryAdditiveExpression {
    pub operator: RelationalOperator,
    pub right_expression: AdditiveExpression,
}

/// An operator that tests an ordering.
#[derive(Debug, Clone, Copy, PartialEq, Eq, Structural)]
pub enum RelationalOperator {
    LessThan,
    LessThanOrEqual,
    GreaterThan,
    GreaterThanOrEqual,
}

/// A term, and the operators and terms that follow it.
#[derive(Debug, PartialEq, Eq)]
pub struct AdditiveExpression {
    pub term: Term,
    pub binary_terms: Vec<BinaryTerms>,
}

/// `+` or `-` and the term to its right.
#[derive(Debug, PartialEq, Eq)]
pub struct BinaryTerms {
    pub operator: AdditiveOperator,
    pub right_term: Term,
}

/// An operator that joins terms.
#[derive(Debug, Clone, Copy, PartialEq, Eq, Structural)]
pub enum AdditiveOperator {
    Subtraction,
    Addition,
}

/// A variable, by its name.
#[derive(Debug, PartialEq, Eq)]
pub struct Var {
    pub name: String,
}

/// An assignment of the value of `expression` to `var`.
#[derive(Debug, PartialEq, Eq)]
pub struct Assignment {
    pub var: Var,
    pub expression: Expression,
}

impl View for LogicalOrOperator {
    type V = BinaryOperator;

    open spec fn view(&self) -> BinaryOperator {
        BinaryOperator::Or
    }
}

impl View for LogicalAndOperator {
    type V = BinaryOperator;

    open spec fn view(&self) -> BinaryOperator {
        BinaryOperator::And
    }
}

impl View for EqualityOperator {
    type V = BinaryOperator;

    open spec fn view(&self) -> BinaryOperator {
        match self {
            EqualityOperator::Equal => BinaryOperator::Equal,
            EqualityOperator::NotEqual => BinaryOperator::NotEqual,
        }
    }
}

impl View for RelationalOperator {
    type V = BinaryOperator;

    open spec fn view(&self) -> BinaryOperator {
        match self {
            RelationalOperator::LessThan => BinaryOperator::LessThan,
            RelationalOperator::LessThanOrEqual => BinaryOperator::LessThanOrEqual,
            RelationalOperator::GreaterThan => BinaryOperator::GreaterThan,
            RelationalOperator::GreaterThanOrEqual => BinaryOperator::GreaterThanOrEqual,
        }
    }
}

impl View for AdditiveOperator {
    type V = BinaryOperator;

    open spec fn view(&self) -> BinaryOperator {
        match self {
            AdditiveOperator::Subtraction => BinaryOperator::Subtraction,
            AdditiveOperator::Addition => BinaryOperator::Addition,
        }
    }
}

/// The expression that an expression tree stands for.
pub open spec fn expression_model(expression: Expression) -> Expr
    decreases expression,
{
    match expression {
        Expression::Assignment(assignment) => assignment_model(*assignment),
        Expression::LogicalOrExpression(chain) => logical_or_model(chain),
    }
}

/// The expression that an assignment stands for.
pub open spec fn assignment_model(assignment: Assignment) -> Expr
    decreases assignment,
{
    Expr::Assign(assignment.var.name@, Box::new(expression_model(assignment.expression)))
}

/// The operators of a chain of `||`, each with the expression that the
/// operand to its right stands for.
pub open spec fn logical_and_links(rest: Seq<BinaryLogicalAndExpression>) -> Seq<Link>
    decreases rest,
{
    Seq::new(
        rest.len(),
        |i: int|
            if 0 <= i < rest.len() {
                (rest[i].operator@, logical_and_model(rest[i].right_expression))
            } else {
                arbitrary()
            },
    )
}

/// The expression that a chain of `||` stands for.
pub open spec fn logical_or_model(tree: LogicalOrExpression) -> Expr
    decreases tree,
{
    chain(logical_and_model(tree.expression), logical_and_links(tree.binary_expressions@))
}

/// The operators of a chain of `&&`, each with the expression that the
/// operand to its right stands for.
pub open spec fn equality_links(rest: Seq<BinaryEqualityExpression>) -> Seq<Link>
    decreases rest,
{
    Seq::new(
        rest.len(),
        |i: int|
            if 0 <= i < rest.len() {
                (rest[i].operator@, equality_model(rest[i].right_expression))
            } else {
                arbitrary()
            },
    )
}

/// The expression that a chain of `&&` stands for.
pub open spec fn logical_and_model(tree: LogicalAndExpression) -> Expr
    decreases tree,
{
    chain(equality_model(tree.expression), equality_links(tree.binary_expressions@))
}

/// The operators of a chain of equality tests, each with the expression
/// that the operand to its right stands for.
pub open spec fn relational_links(rest: Seq<BinaryRelationalExpression>) -> Seq<Link>
    decreases rest,
{
    Seq::new(
        rest.len(),
        |i: int|
            if 0 <= i < rest.len() {
                (rest[i].operator@, relational_model(rest[i].right_expression))
            } else {
                arbitrary()
            },
    )
}

/// The expression that a chain of equality tests stands for.
pub open spec fn equality_model(tree: EqualityExpression) -> Expr
    decreases tree,
{
    chain(relational_model(tree.expression), relational_links(tree.binary_expressions@))
}

/// The operators of a chain of ordering tests, each with the expression
/// that the operand to its right stands for.
pub open spec fn additive_links(rest: Seq<BinaryAdditiveExpression>) -> Seq<Link>
    decreases rest,
{
    Seq::new(
        rest.len(),
        |i: int|
            if 0 <= i < rest.len() {
                (rest[i].operator@, additive_model(rest[i].right_expression))
            } else {
                arbitrary()
            },
    )
}

/// The expression that a chain of ordering tests stands for.
pub open spec fn relational_model(tree: RelationalExpression) -> Expr
    decreases tree,
{
    chain(additive_model(tree.expression), additive_links(tree.binary_expressions@))
}

/// The operators of a chain of additions and subtractions, each with the
/// expression that the term to its right stands for.
pub open spec fn term_links(rest: Seq<BinaryTerms>) -> Seq<Link>
    decreases rest,
{
    Seq::new(
        rest.len(),
        |i: int|
            if 0 <= i < rest.len() {
                (rest[i].operator@, term_model(rest[i].right_term))
            } else {
                arbitrary()
            },
    )
}

/// The expression that a chain of additions and subtractions stands for.
pub open spec fn additive_model(tree: AdditiveExpression) -> Expr
    decreases tree,
{
    chain(term_model(tree.term), term_links(tree.binary_terms@))
}

impl View for Expression {
    type V = Expr;

    open spec fn view(&self) -> Expr {
        expression_model(*self)
    }
}

impl View for Assignment {
    type V = Expr;

    open spec fn view(&self) -> Expr {
        assignment_model(*self)
    }
}

impl View for LogicalOrExpression {
    type V = Expr;

    open spec fn view(&self) -> Expr {
        logical_or_model(*self)
    }
}

impl View for LogicalAndExpression {
    type V = Expr;

    open spec fn view(&self) -> Expr {
        logical_and_model(*self)
    }
}

impl View for EqualityExpression {
    type V = Expr;

    open spec fn view(&self) -> Expr {
        equality_model(*self)
    }
}

impl View for RelationalExpression {
    type V = Expr;

    open spec fn view(&self) -> Expr {
        relational_model(*self)
    }
}

impl View for AdditiveExpression {
    type V = Expr;

    open spec fn view(&self) -> Expr {
        additive_model(*self)
    }
}

/// Reads an expression from the front of `tokens`.
///
/// Where the tokens begin with an identifier and `=`, the expression is an
/// assignment, and its target must be declared in `stack_frame`. Otherwise
/// it is a chain of `||`.
pub fn parse<'a>(tokens: &'a [Token], stack_frame: &StackFrame) -> (r: Result<
    (Expression, &'a [Token]),
    ParseError,
>)
    ensures
        agrees(r, parse_expression(tokens@, stack_frame@.names())),
        r matches Ok((_, rest)) ==> rest@.len() < tokens@.len(),
    decreases tokens@.len(), 8nat, 0nat,
{
    if begins_assignment(tokens) {
        match parse_assignment(tokens, stack_frame) {
            Ok((assignment, leftover_tokens)) => {
                if stack_frame.vars.contains_key(assignment.var.name.as_str()) {
                    Ok((Expression::Assignment(Box::new(assignment)), leftover_tokens))
                } else {
                    Err(ParseError::UndeclaredVariable(assignment.var.name))
                }
            },
            Err(error) => Err(error),
        }
    } else {
        match parse_logical_or(tokens, stack_frame) {
            Ok((expression, leftover_tokens)) => Ok(
                (Expression::LogicalOrExpression(expression), leftover_tokens),
            ),
            Err(error) => Err(error),
        }
    }
}

/// Whether `tokens` begins with an identifier followed by `=`.
fn begins_assignment(tokens: &[Token]) -> (r: bool)
    ensures
        r == assignment_ahead(tokens@),
{
    if tokens.len() < 2 {
        return false;
    }
    let first = match &tokens[0] {
        Token::Identifier(_) => true,
        _ => false,
    };
    let second = match &tokens[1] {
        Token::Assignment => true,
        _ => false,
    };
    first && second
}

/// Reads `(`, an expression and `)`. The result is the expression inside.
pub fn parse_with_parens<'a>(tokens: &'a [Token], stack_frame: &StackFrame) -> (r: Result<
    (Expression, &'a [Token]),
    ParseError,
>)
    ensures
        agrees(r, parse_parenthesized(tokens@, stack_frame@.names())),
        r matches Ok((_, rest)) ==> rest@.len() < tokens@.len(),
    decreases tokens@.len(), 0nat, 0nat,
{
    let opens = if tokens.len() > 0 {
        match &tokens[0] {
            Token::OpenParen => true,
            _ => false,
        }
    } else {
        false
    };
    if !opens {
        return Err(ParseError::Syntax { expected: Expected::OpenParen, found: peek(tokens) });
    }
    let (expression, leftover_tokens) = match parse(skip(tokens, 1), stack_frame) {
        Ok(found) => found,
        Err(error) => return Err(error),
    };
    let closes = if leftover_tokens.len() > 0 {
        match &leftover_tokens[0] {
            Token::CloseParen => true,
            _ => false,
        }
    } else {
        false
    };
    if !closes {
        return Err(
            ParseError::Syntax { expected: Expected::CloseParen, found: peek(leftover_tokens) },
        );
    }
    Ok((expression, skip(leftover_tokens, 1)))
}

/// Reads a chain of `||` from the front of `tokens`.
pub fn parse_logical_or<'a>(tokens: &'a [Token], stack_frame: &StackFrame) -> (r: Result<
    (LogicalOrExpression, &'a [Token]),
    ParseError,
>)
    ensures
        agrees(r, parse_level(Level::LogicalOr, tokens@, stack_frame@.names())),
        r matches Ok((_, rest)) ==> rest@.len() < tokens@.len(),
    decreases tokens@.len(), 6nat, 2nat,
{
    let ghost names = stack_frame@.names();
    let (expression, first_leftover) = match parse_logical_and(tokens, stack_frame) {
        Ok(found) => found,
        Err(error) => return Err(error),
    };
    let mut leftover_tokens: &[Token] = first_leftover;
    let mut binary_expressions: Vec<BinaryLogicalAndExpression> = Vec::new();
    loop
        invariant
            leftover_tokens@.len() < tokens@.len(),
            names == stack_frame@.names(),
            parse_level(Level::LogicalOr, tokens@, names) == parse_chain(
                Level::LogicalOr,
                chain(expression@, logical_and_links(binary_expressions@)),
                leftover_tokens@,
                names,
            ),
        decreases leftover_tokens@.len(),
    {
        let operator = if leftover_tokens.len() > 0 {
            expression_operator_for_token(&leftover_tokens[0])
        } else {
            None
        };
        match operator {
            None => {
                let tree = LogicalOrExpression { expression, binary_expressions };
                return Ok((tree, leftover_tokens));
            },
            Some(operator) => match parse_logical_and(skip(leftover_tokens, 1), stack_frame) {
                Ok((right_expression, rest)) => {
                    let joined = BinaryLogicalAndExpression { operator, right_expression };
                    proof {
                        let link = (joined.operator@, joined.right_expression@);
                        let links = logical_and_links(binary_expressions@);
                        let longer = binary_expressions@.push(joined);
                        assert(logical_and_links(longer) =~= links.push(link));
                        lemma_chain_push(expression@, links, link);
                    }
                    binary_expressions.push(joined);
                    leftover_tokens = rest;
                },
                Err(error) => return Err(error),
            },
        }
    }
}

/// Reads a chain of `&&` from the front of `tokens`.
fn parse_logical_and<'a>(tokens: &'a [Token], stack_frame: &StackFrame) -> (r: Result<
    (LogicalAndExpression, &'a [Token]),
    ParseError,
>)
    ensures
        agrees(r, parse_level(Level::LogicalAnd, tokens@, stack_frame@.names())),
        r matches Ok((_, rest)) ==> rest@.len() < tokens@.len(),
    decreases tokens@.len(), 5nat, 2nat,
{
    let ghost names = stack_frame@.names();
    let (expression, first_leftover) = match parse_equality(tokens, stack_frame) {
        Ok(found) => found,
        Err(error) => return Err(error),
    };
    let mut leftover_tokens: &[Token] = first_leftover;
    let mut binary_expressions: Vec<BinaryEqualityExpression> = Vec::new();
    loop
        invariant
            leftover_tokens@.len() < tokens@.len(),
            names == stack_frame@.names(),
            parse_level(Level::LogicalAnd, tokens@, names) == parse_chain(
                Level::LogicalAnd,
                chain(expression@, equality_links(binary_expressions@)),
                leftover_tokens@,
                names,
            ),
        decreases leftover_tokens@.len(),
    {
        let operator = if leftover_tokens.len() > 0 {
            logical_and_operator_for_token(&leftover_tokens[0])
        } else {
            None
        };
        match operator {
            None => {
                let tree = LogicalAndExpression { expression, binary_expressions };
                return Ok((tree, leftover_tokens));
            },
            Some(operator) => match parse_equality(skip(leftover_tokens, 1), stack_frame) {
                Ok((right_expression, rest)) => {
                    let joined = BinaryEqualityExpression { operator, right_expression };
                    proof {
                        let link = (joined.operator@, joined.right_expression@);
                        let links = equality_links(binary_expressions@);
                        let longer = binary_expressions@.push(joined);
                        assert(equality_links(longer) =~= links.push(link));
                        lemma_chain_push(expression@, links, link);
                    }
                    binary_expressions.push(joined);
                    leftover_tokens = rest;
                },
                Err(error) => return Err(error),
            },
        }
    }
}

/// Reads a chain of equality tests from the front of `tokens`.
fn parse_equality<'a>(tokens: &'a [Token], stack_frame: &StackFrame) -> (r: Result<
    (EqualityExpression, &'a [Token]),
    ParseError,
>)
    ensures
        agrees(r, parse_level(Level::Equality, tokens@, stack_frame@.names())),
        r matches Ok((_, rest)) ==> rest@.len() < tokens@.len(),
    decreases tokens@.len(), 4nat, 2nat,
{
    let ghost names = stack_frame@.names();
    let (expression, first_leftover) = match parse_relational(tokens, stack_frame) {
        Ok(found) => found,
        Err(error) => return Err(error),
    };
    let mut leftover_tokens: &[Token] = first_leftover;
    let mut binary_expressions: Vec<BinaryRelationalExpression> = Vec::new();
    loop
        invariant
            leftover_tokens@.len() < tokens@.len(),
            names == stack_frame@.names(),
            parse_level(Level::Equality, tokens@, names) == parse_chain(
                Level::Equality,
                chain(expression@, relational_links(binary_expressions@)),
                leftover_tokens@,
                names,
            ),
        decreases leftover_tokens@.len(),
    {
        let operator = if leftover_tokens.len() > 0 {
            equality_operator_for_token(&leftover_tokens[0])
        } else {
            None
        };
        match operator {
            None => {
                let tree = EqualityExpression { expression, binary_expressions };
                return Ok((tree, leftover_tokens));
            },
            Some(operator) => match parse_relational(skip(leftover_tokens, 1), stack_frame) {
                Ok((right_expression, rest)) => {
                    let joined = BinaryRelationalExpression { operator, right_expression };
                    proof {
                        let link = (joined.operator@, joined.right_expression@);
                        let links = relational_links(binary_expressions@);
                        let longer = binary_expressions@.push(joined);
                        assert(relational_links(longer) =~= links.push(link));
                        lemma_chain_push(expression@, links, link);
                    }
                    binary_expressions.push(joined);
                    leftover_tokens = rest;
                },
                Err(error) => return Err(error),
            },
        }
    }
}

/// Reads a chain of ordering tests from the front of `tokens`.
fn parse_relational<'a>(tokens: &'a [Token], stack_frame: &StackFrame) -> (r: Result<
    (RelationalExpression, &'a [Token]),
    ParseError,
>)
    ensures
        agrees(r, parse_level(Level::Relational, tokens@, stack_frame@.names())),
        r matches Ok((_, rest)) ==> rest@.len() < tokens@.len(),
    decreases tokens@.len(), 3nat, 2nat,
{
    let ghost names = stack_frame@.names();
    let (expression, first_leftover) = match parse_additive(tokens, stack_frame) {
        Ok(found) => found,
        Err(error) => return Err(error),
    };
    let mut leftover_tokens: &[Token] = first_leftover;
    let mut binary_expressions: Vec<BinaryAdditiveExpression> = Vec::new();
    loop
        invariant
            leftover_tokens@.len() < tokens@.len(),
            names == stack_frame@.names(),
            parse_level(Level::Relational, tokens@, names) == parse_chain(
                Level::Relational,
                chain(expression@, additive_links(binary_expressions@)),
                leftover_tokens@,
                names,
            ),
        decreases leftover_tokens@.len(),
    {
        let operator = if leftover_tokens.len() > 0 {
            relational_operator_for_token(&leftover_tokens[0])
        } else {
            None
        };
        match operator {
            None => {
                let tree = RelationalExpression { expression, binary_expressions };
                return Ok((tree, leftover_tokens));
            },
            Some(operator) => match parse_additive(skip(leftover_tokens, 1), stack_frame) {
                Ok((right_expression, rest)) => {
                    let joined = BinaryAdditiveExpression { operator, right_expression };
                    proof {
                        let link = (joined.operator@, joined.right_expression@);
                        let links = additive_links(binary_expressions@);
                        let longer = binary_expressions@.push(joined);
                        assert(additive_links(longer) =~= links.push(link));
                        lemma_chain_push(expression@, links, link);
                    }
                    binary_expressions.push(joined);
                    leftover_tokens = rest;
                },
                Err(error) => return Err(error),
            },
        }
    }
}

/// Reads a chain of additions and subtractions from the front of `tokens`.
fn parse_additive<'a>(tokens: &'a [Token], stack_frame: &StackFrame) -> (r: Result<
    (AdditiveExpression, &'a [Token]),
    ParseError,
>)
    ensures
        agrees(r, parse_level(Level::Additive, tokens@, stack_frame@.names())),
        r matches Ok((_, rest)) ==> rest@.len() < tokens@.len(),
    decreases tokens@.len(), 2nat, 2nat,
{
    let ghost names = stack_frame@.names();
    let (term, first_leftover) = match term::parse(tokens, stack_frame) {
        Ok(found) => found,
        Err(error) => return Err(error),
    };
    let mut leftover_tokens: &[Token] = first_leftover;
    let mut binary_terms: Vec<BinaryTerms> = Vec::new();
    loop
        invariant
            leftover_tokens@.len() < tokens@.len(),
            names == stack_frame@.names(),
            parse_level(Level::Additive, tokens@, names) == parse_chain(
                Level::Additive,
                chain(term@, term_links(binary_terms@)),
                leftover_tokens@,
                names,
            ),
        decreases leftover_tokens@.len(),
    {
        let operator = if leftover_tokens.len() > 0 {
            additive_operator_for_token(&leftover_tokens[0])
        } else {
            None
        };
        match operator {
            None => {
                let tree = AdditiveExpression { term, binary_terms };
                return Ok((tree, leftover_tokens));
            },
            Some(operator) => match term::parse(skip(leftover_tokens, 1), stack_frame) {
                Ok((right_term, rest)) => {
                    let joined = BinaryTerms { operator, right_term };
                    proof {
                        let link = (joined.operator@, joined.right_term@);
                        let links = term_links(binary_terms@);
                        assert(term_links(binary_terms@.push(joined)) =~= links.push(link));
                        lemma_chain_push(term@, links, link);
                    }
                    binary_terms.push(joined);
                    leftover_tokens = rest;
                },
                Err(error) => return Err(error),
            },
        }
    }
}

/// Reads an identifier, `=` and an expression.
fn parse_assignment<'a>(tokens: &'a [Token], stack_frame: &StackFrame) -> (r: Result<
    (Assignment, &'a [Token]),
    ParseError,
>)
    ensures
        agrees(r, grammar::parse_assignment(tokens@, stack_frame@.names())),
        r matches Ok((assignment, rest)) ==> rest@.len() < tokens@.len() && tokens@[0]
            == Token::Identifier(assignment.var.name),
    decreases tokens@.len(), 7nat, 0nat,
{
    let var = if tokens.len() > 0 {
        match &tokens[0] {
            Token::Identifier(name) => Some(Var { name: name.clone() }),
            _ => None,
        }
    } else {
        None
    };
    let var = match var {
        Some(var) => var,
        None => return Err(
            ParseError::Syntax { expected: Expected::Identifier, found: peek(tokens) },
        ),
    };
    let leftover_tokens = skip(tokens, 1);
    let assigns = if leftover_tokens.len() > 0 {
        match &leftover_tokens[0] {
            Token::Assignment => true,
            _ => false,
        }
    } else {
        false
    };
    if !assigns {
        return Err(
            ParseError::Syntax { expected: Expected::Assignment, found: peek(leftover_tokens) },
        );
    }
    assert(tokens@.skip(1).skip(1) =~= tokens@.skip(2));
    match parse(skip(leftover_tokens, 1), stack_frame) {
        Ok((expression, leftover_tokens)) => Ok((Assignment { var, expression }, leftover_tokens)),
        Err(error) => Err(error),
    }
}

/// The operator of a chain of `||` for which `token` stands, if it is one.
fn expression_operator_for_token(token: &Token) -> (r: Option<LogicalOrOperator>)
    ensures
        match r {
            Some(operator) => Level::LogicalOr.operator(*token) == Some(operator@),
            None => Level::LogicalOr.operator(*token) is None,
        },
{
    match token {
        Token::Or => Some(LogicalOrOperator::Or),
        _ => None,
    }
}

/// The operator of a chain of `&&` for which `token` stands, if it is one.
fn logical_and_operator_for_token(token: &Token) -> (r: Option<LogicalAndOperator>)
    ensures
        match r {
            Some(operator) => Level::LogicalAnd.operator(*token) == Some(operator@),
            None => Level::LogicalAnd.operator(*token) is None,
        },
{
    match token {
        Token::And => Some(LogicalAndOperator::And),
        _ => None,
    }
}

/// The equality test for which `token` stands, if it is one.
fn equality_operator_for_token(token: &Token) -> (r: Option<EqualityOperator>)
    ensures
        match r {
            Some(operator) => Level::Equality.operator(*token) == Some(operator@),
            None => Level::Equality.operator(*token) is None,
        },
{
    match token {
        Token::Equal => Some(EqualityOperator::Equal),
        Token::NotEqual => Some(EqualityOperator::NotEqual),
        _ => None,
    }
}

/// The ordering test for which `token` stands, if it is one.
fn relational_operator_for_token(token: &Token) -> (r: Option<RelationalOperator>)
    ensures
        match r {
            Some(operator) => Level::Relational.operator(*token) == Some(operator@),
            None => Level::Relational.operator(*token) is None,
        },
{
    match token {
        Token::LessThan => Some(RelationalOperator::LessThan),
        Token::LessThanOrEqual => Some(RelationalOperator::LessThanOrEqual),
        Token::GreaterThan => Some(RelationalOperator::GreaterThan),
        Token::GreaterThanOrEqual => Some(RelationalOperator::GreaterThanOrEqual),
        _ => None,
    }
}

/// The operator that joins terms for which `token` stands, if it is one.
fn additive_operator_for_token(token: &Token) -> (r: Option<AdditiveOperator>)
    ensures
        match r {
            Some(operator) => Level::Additive.operator(*token) == Some(operator@),
            None => Level::Additive.operator(*token) is None,
        },
{
    match token {
        Token::MinusSign => Some(AdditiveOperator::Subtraction),
        Token::PlusSign => Some(AdditiveOperator::Addition),
        _ => None,
    }
}

} // verus!
