//! The grammar, as functions from a token sequence to what a parse of it
//! gives: the expression read and the tokens left over, or the first error.
//!
//! ```text
//! function   = "int" identifier "(" ")" "{" { statement } "}"
//! statement  = "return" expression ";"
//!            | "int" identifier [ "=" expression ] ";"
//!            | expression ";"
//! expression = identifier "=" expression | logical-or
//! logical-or = logical-and { "||" logical-and }
//! logical-and = equality { "&&" equality }
//! equality   = relational { ( "==" | "!=" ) relational }
//! relational = additive { ( "<" | "<=" | ">" | ">=" ) additive }
//! additive   = term { ( "+" | "-" ) term }
//! term       = factor { ( "*" | "/" ) factor }
//! factor     = "(" expression ")" | ( "-" | "~" | "!" ) factor
//!            | integer | identifier
//! ```
//!
//! The executable parsers are specified by these functions: each returns
//! what the function of its level gives.
//!
//! A parse hands back fewer tokens than it was given. Where a function
//! goes on with what another handed back, it tests that first, which makes
//! its own end evident; the test never fails.

use vstd::prelude::*;
use crate::lexer::{head, Token};
use crate::parser::factor::UnaryOperator;
use crate::parser::syntax::{BinaryOperator, Expr, Frame, FunctionModel, Stmt};
use crate::parser::{Expected, ParseError};

verus! {

/// A level of the grammar that is a chain of binary operators, or the
/// factors at its bottom.
pub enum Level {
    Factor,
    Term,
    Additive,
    Relational,
    Equality,
    LogicalAnd,
    LogicalOr,
}

/// What a parse of an expression gives.
pub type Parsed = Result<(Expr, Seq<Token>), ParseError>;

impl Level {
    /// The place of the level in the hierarchy, tightest binding first.
    pub open spec fn rank(self) -> nat {
        match self {
            Level::Factor => 0,
            Level::Term => 1,
            Level::Additive => 2,
            Level::Relational => 3,
            Level::Equality => 4,
            Level::LogicalAnd => 5,
            Level::LogicalOr => 6,
        }
    }

    /// The level of the operands of a chain of this level.
    pub open spec fn operand(self) -> Level {
        match self {
            Level::Factor => Level::Factor,
            Level::Term => Level::Factor,
            Level::Additive => Level::Term,
            Level::Relational => Level::Additive,
            Level::Equality => Level::Relational,
            Level::LogicalAnd => Level::Equality,
            Level::LogicalOr => Level::LogicalAnd,
        }
    }

    /// The operator of this level that `token` stands for, if it is one.
    pub open spec fn operator(self, token: Token) -> Option<BinaryOperator> {
        match (self, token) {
            (Level::Term, Token::MultiplicationSign) => Some(BinaryOperator::Multiplication),
            (Level::Term, Token::DivisionSign) => Some(BinaryOperator::Division),
            (Level::Additive, Token::PlusSign) => Some(BinaryOperator::Addition),
            (Level::Additive, Token::MinusSign) => Some(BinaryOperator::Subtraction),
            (Level::Relational, Token::LessThan) => Some(BinaryOperator::LessThan),
            (Level::Relational, Token::LessThanOrEqual) => Some(BinaryOperator::LessThanOrEqual),
            (Level::Relational, Token::GreaterThan) => Some(BinaryOperator::GreaterThan),
            (Level::Relational, Token::GreaterThanOrEqual) => Some(
                BinaryOperator::GreaterThanOrEqual,
            ),
            (Level::Equality, Token::Equal) => Some(BinaryOperator::Equal),
            (Level::Equality, Token::NotEqual) => Some(BinaryOperator::NotEqual),
            (Level::LogicalAnd, Token::And) => Some(BinaryOperator::And),
            (Level::LogicalOr, Token::Or) => Some(BinaryOperator::Or),
            _ => None,
        }
    }
}

/// The unary operator that `token` stands for, if it is one.
pub open spec fn unary_operator(token: Token) -> Option<UnaryOperator> {
    match token {
        Token::MinusSign => Some(UnaryOperator::Negation),
        Token::BitwiseComplement => Some(UnaryOperator::BitwiseComplement),
        Token::LogicalNegation => Some(UnaryOperator::LogicalNegation),
        _ => None,
    }
}

/// The error of a parse that wanted `expected` at the front of `tokens`.
pub open spec fn unexpected(expected: Expected, tokens: Seq<Token>) -> ParseError {
    ParseError::Syntax { expected, found: head(tokens) }
}

/// Whether `tokens` begins with an identifier followed by `=`.
pub open spec fn assignment_ahead(tokens: Seq<Token>) -> bool {
    tokens.len() >= 2 && tokens[0] is Identifier && tokens[1] is Assignment
}

/// An expression: an assignment where the tokens begin with an identifier
/// and `=`, a chain of `||` otherwise. The target of an assignment must be
/// declared.
pub open spec fn parse_expression(tokens: Seq<Token>, names: Set<Seq<char>>) -> Parsed
    decreases tokens.len(), 8nat, 0nat,
{
    if assignment_ahead(tokens) {
        match parse_assignment(tokens, names) {
            Ok((assignment, rest)) => {
                if names.contains(tokens[0]->Identifier_0@) {
                    Ok((assignment, rest))
                } else {
                    Err(ParseError::UndeclaredVariable(tokens[0]->Identifier_0))
                }
            },
            Err(error) => Err(error),
        }
    } else {
        parse_level(Level::LogicalOr, tokens, names)
    }
}

/// An assignment: an identifier, `=`, and an expression.
pub open spec fn parse_assignment(tokens: Seq<Token>, names: Set<Seq<char>>) -> Parsed
    decreases tokens.len(), 7nat, 0nat,
{
    if !(tokens.len() >= 1 && tokens[0] is Identifier) {
        Err(unexpected(Expected::Identifier, tokens))
    } else if !(tokens.len() >= 2 && tokens[1] is Assignment) {
        Err(unexpected(Expected::Assignment, tokens.skip(1)))
    } else {
        match parse_expression(tokens.skip(2), names) {
            Ok((value, rest)) => Ok(
                (Expr::Assign(tokens[0]->Identifier_0@, Box::new(value)), rest),
            ),
            Err(error) => Err(error),
        }
    }
}

/// An expression in parentheses. The result is the expression inside.
pub open spec fn parse_parenthesized(tokens: Seq<Token>, names: Set<Seq<char>>) -> Parsed
    decreases tokens.len(), 0nat, 0nat,
{
    if !(tokens.len() >= 1 && tokens[0] is OpenParen) {
        Err(unexpected(Expected::OpenParen, tokens))
    } else {
        match parse_expression(tokens.skip(1), names) {
            Ok((inner, rest)) => {
                if rest.len() >= 1 && rest[0] is CloseParen {
                    Ok((inner, rest.skip(1)))
                } else {
                    Err(unexpected(Expected::CloseParen, rest))
                }
            },
            Err(error) => Err(error),
        }
    }
}

/// A unary operator and the factor that it applies to.
pub open spec fn parse_unary(tokens: Seq<Token>, names: Set<Seq<char>>) -> Parsed
    decreases tokens.len(), 0nat, 0nat,
{
    if tokens.len() >= 1 && unary_operator(tokens[0]) is Some {
        match parse_level(Level::Factor, tokens.skip(1), names) {
            Ok((operand, rest)) => Ok(
                (Expr::Unary(unary_operator(tokens[0])->0, Box::new(operand)), rest),
            ),
            Err(error) => Err(error),
        }
    } else {
        Err(unexpected(Expected::UnaryOperator, tokens))
    }
}

/// A factor. The first token decides which of the four forms is read: an
/// expression in parentheses, a unary operation, an integer literal or the
/// name of a declared variable.
pub open spec fn parse_factor(tokens: Seq<Token>, names: Set<Seq<char>>) -> Parsed
    decreases tokens.len(), 0nat, 1nat,
{
    if tokens.len() == 0 {
        Err(unexpected(Expected::Factor, tokens))
    } else if tokens[0] is OpenParen {
        match parse_parenthesized(tokens, names) {
            Ok((inner, rest)) => Ok((Expr::Group(Box::new(inner)), rest)),
            Err(error) => Err(error),
        }
    } else if unary_operator(tokens[0]) is Some {
        parse_unary(tokens, names)
    } else if tokens[0] is IntegerLiteral {
        Ok((Expr::Constant(tokens[0]->IntegerLiteral_0), tokens.skip(1)))
    } else if tokens[0] is Identifier {
        if names.contains(tokens[0]->Identifier_0@) {
            Ok((Expr::Variable(tokens[0]->Identifier_0@), tokens.skip(1)))
        } else {
            Err(ParseError::UndeclaredVariable(tokens[0]->Identifier_0))
        }
    } else {
        Err(unexpected(Expected::Factor, tokens))
    }
}

/// An expression of the given level: one operand, then the rest of the
/// chain.
pub open spec fn parse_level(level: Level, tokens: Seq<Token>, names: Set<Seq<char>>) -> Parsed
    decreases tokens.len(), level.rank(), 2nat,
{
    if level is Factor {
        parse_factor(tokens, names)
    } else {
        match parse_level(level.operand(), tokens, names) {
            Ok((first, rest)) => {
                if rest.len() <= tokens.len() {
                    parse_chain(level, first, rest, names)
                } else {
                    Ok((first, rest))
                }
            },
            Err(error) => Err(error),
        }
    }
}

/// The rest of a chain of the given level whose operands so far make up
/// `left`. While the next token is an operator of the level, the operand
/// after it joins the chain on the right, so the chain associates to the
/// left.
pub open spec fn parse_chain(
    level: Level,
    left: Expr,
    tokens: Seq<Token>,
    names: Set<Seq<char>>,
) -> Parsed
    decreases tokens.len(), level.rank(), 1nat,
{
    if level !is Factor && tokens.len() >= 1 && level.operator(tokens[0]) is Some {
        match parse_level(level.operand(), tokens.skip(1), names) {
            Ok((right, rest)) => {
                let joined = Expr::Binary(
                    level.operator(tokens[0])->0,
                    Box::new(left),
                    Box::new(right),
                );
                if rest.len() < tokens.len() {
                    parse_chain(level, joined, rest, names)
                } else {
                    Ok((joined, rest))
                }
            },
            Err(error) => Err(error),
        }
    } else {
        Ok((left, tokens))
    }
}

/// What a parse of a statement gives: the statement, the tokens left over
/// and the symbol table after it.
pub type ParsedStatement = Result<(Stmt, Seq<Token>, Frame), ParseError>;

/// The tokens after the `;` that must stand at the front of `tokens`.
pub open spec fn parse_semicolon(tokens: Seq<Token>) -> Result<Seq<Token>, ParseError> {
    if tokens.len() >= 1 && tokens[0] is Semicolon {
        Ok(tokens.skip(1))
    } else {
        Err(unexpected(Expected::Semicolon, tokens))
    }
}

/// A return statement: `return`, an expression and `;`.
pub open spec fn parse_return(tokens: Seq<Token>, names: Set<Seq<char>>) -> Parsed {
    if !(tokens.len() >= 1 && tokens[0] is KeywordReturn) {
        Err(unexpected(Expected::KeywordReturn, tokens))
    } else {
        parse_terminated(tokens.skip(1), names)
    }
}

/// An expression followed by `;`.
pub open spec fn parse_terminated(tokens: Seq<Token>, names: Set<Seq<char>>) -> Parsed {
    match parse_expression(tokens, names) {
        Ok((value, rest)) => match parse_semicolon(rest) {
            Ok(after) => Ok((value, after)),
            Err(error) => Err(error),
        },
        Err(error) => Err(error),
    }
}

/// A declaration: `int`, an identifier, an initializer if `=` follows, and
/// `;`. The initializer is read with the names declared before the
/// statement. The result is the declared name, as it stands in the token,
/// and the initializer.
pub open spec fn parse_declaration(tokens: Seq<Token>, names: Set<Seq<char>>) -> Result<
    (String, Option<Expr>, Seq<Token>),
    ParseError,
> {
    if !(tokens.len() >= 1 && tokens[0] is KeywordInt) {
        Err(unexpected(Expected::KeywordInt, tokens))
    } else if !(tokens.len() >= 2 && tokens[1] is Identifier) {
        Err(unexpected(Expected::Identifier, tokens.skip(1)))
    } else if tokens.len() >= 3 && tokens[2] is Assignment {
        match parse_terminated(tokens.skip(3), names) {
            Ok((value, after)) => Ok((tokens[1]->Identifier_0, Some(value), after)),
            Err(error) => Err(error),
        }
    } else {
        match parse_semicolon(tokens.skip(2)) {
            Ok(after) => Ok((tokens[1]->Identifier_0, None, after)),
            Err(error) => Err(error),
        }
    }
}

/// A statement. The first token decides which of the three forms is read:
/// `return` begins a return statement, `int` a declaration, anything else
/// an expression statement. A declaration of a name that is already in the
/// table is an error; otherwise it binds the name to the next slot.
pub open spec fn parse_statement(tokens: Seq<Token>, frame: Frame) -> ParsedStatement {
    if tokens.len() >= 1 && tokens[0] is KeywordReturn {
        match parse_return(tokens, frame.names()) {
            Ok((value, after)) => Ok((Stmt::Return(value), after, frame)),
            Err(error) => Err(error),
        }
    } else if tokens.len() >= 1 && tokens[0] is KeywordInt {
        match parse_declaration(tokens, frame.names()) {
            Ok((name, initial, after)) => {
                if frame.names().contains(name@) {
                    Err(ParseError::DuplicateDeclaration(name))
                } else {
                    Ok((Stmt::Declaration(name@, initial), after, frame.declare(name@)))
                }
            },
            Err(error) => Err(error),
        }
    } else {
        match parse_terminated(tokens, frame.names()) {
            Ok((value, after)) => Ok((Stmt::Expression(value), after, frame)),
            Err(error) => Err(error),
        }
    }
}

/// What a parse of a function body gives: its statements, the symbol table
/// after them and the tokens after the closing brace.
pub type ParsedBody = Result<(Seq<Stmt>, Frame, Seq<Token>), ParseError>;

/// The statements of a function body up to its closing brace. A return
/// statement does not end the body: what follows it is read like any other
/// statement.
pub open spec fn parse_body(tokens: Seq<Token>, frame: Frame) -> ParsedBody
    decreases tokens.len(),
{
    if tokens.len() == 0 {
        Err(unexpected(Expected::CloseBrace, tokens))
    } else if tokens[0] is CloseBrace {
        Ok((Seq::empty(), frame, tokens.skip(1)))
    } else {
        match parse_statement(tokens, frame) {
            Ok((statement, rest, next)) => {
                if rest.len() < tokens.len() {
                    match parse_body(rest, next) {
                        Ok((statements, last, after)) => Ok(
                            (seq![statement] + statements, last, after),
                        ),
                        Err(error) => Err(error),
                    }
                } else {
                    Ok((seq![statement], next, rest))
                }
            },
            Err(error) => Err(error),
        }
    }
}

/// A function: `int`, its name, `(`, `)`, `{`, its body and `}`, and
/// nothing after that. Its symbol table starts empty.
pub open spec fn parse_function(tokens: Seq<Token>) -> Result<FunctionModel, ParseError> {
    if !(tokens.len() >= 1 && tokens[0] is KeywordInt) {
        Err(unexpected(Expected::ReturnType, tokens))
    } else if !(tokens.len() >= 2 && tokens[1] is Identifier) {
        Err(unexpected(Expected::Identifier, tokens.skip(1)))
    } else if !(tokens.len() >= 3 && tokens[2] is OpenParen) {
        Err(unexpected(Expected::OpenParen, tokens.skip(2)))
    } else if !(tokens.len() >= 4 && tokens[3] is CloseParen) {
        Err(unexpected(Expected::CloseParen, tokens.skip(3)))
    } else if !(tokens.len() >= 5 && tokens[4] is OpenBrace) {
        Err(unexpected(Expected::OpenBrace, tokens.skip(4)))
    } else {
        complete(tokens[1]->Identifier_0@, parse_body(tokens.skip(5), Frame::empty()))
    }
}

/// The function called `name` whose body gave `body`. Nothing may follow
/// the closing brace.
pub open spec fn complete(name: Seq<char>, body: ParsedBody) -> Result<FunctionModel, ParseError> {
    match body {
        Ok((body, frame, after)) => {
            if after.len() == 0 {
                Ok(FunctionModel { name, body, frame })
            } else {
                Err(unexpected(Expected::EndOfInput, after))
            }
        },
        Err(error) => Err(error),
    }
}

} // verus!
