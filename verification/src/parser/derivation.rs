//! The parser reads every expression of the grammar, and nothing else.
//!
//! An expression has a shape: the level of the grammar that derives it.
//! What a parse returns has the shape of its level. In the other
//! direction, tokens that begin with an expression of a level written out
//! are parsed to that very expression, and the parse stops where the
//! expression ends, if only the next token cannot carry it on.

use vstd::prelude::*;
use crate::lexer::{lexemes, Lexeme, Token};
use crate::parser::grammar::{
    assignment_ahead, parse_body, parse_chain, parse_declaration, parse_expression,
    parse_factor, parse_function, parse_level, parse_parenthesized, parse_return,
    parse_semicolon, parse_statement, parse_terminated, parse_unary, unary_operator, Level,
};
use crate::parser::laws::{
    binary_lexeme, lemma_clauses_bound, unparse, unparse_body, unparse_function,
    unparse_statement,
};
use crate::parser::syntax::{BinaryOperator, Expr, Frame, FunctionModel, Stmt};
use crate::parser::ParseError;

verus! {

impl Level {
    /// Whether the chains of this level are joined by `operator`.
    pub open spec fn owns(self, operator: BinaryOperator) -> bool {
        match self {
            Level::Factor => false,
            Level::Term => operator is Multiplication || operator is Division,
            Level::Additive => operator is Addition || operator is Subtraction,
            Level::Relational => operator is LessThan || operator is LessThanOrEqual
                || operator is GreaterThan || operator is GreaterThanOrEqual,
            Level::Equality => operator is Equal || operator is NotEqual,
            Level::LogicalAnd => operator is And,
            Level::LogicalOr => operator is Or,
        }
    }

    /// Whether the grammar derives `expression` at this level: as an
    /// operand of the level, or as a chain whose last operator is one of
    /// the level, with a chain of the level to its left and an operand to
    /// its right.
    pub open spec fn derives(self, expression: Expr) -> bool
        decreases expression, self.rank(),
    {
        if self is Factor {
            match expression {
                Expr::Constant(_) => true,
                Expr::Variable(_) => true,
                Expr::Group(inner) => derives_expression(*inner),
                Expr::Unary(_, operand) => Level::Factor.derives(*operand),
                _ => false,
            }
        } else {
            self.operand().derives(expression) || (match expression {
                Expr::Binary(operator, left, right) => self.owns(operator) && self.derives(*left)
                    && self.operand().derives(*right),
                _ => false,
            })
        }
    }
}

/// Whether the grammar derives `expression` as an expression: as an
/// assignment of an expression, or as a chain of `||`.
pub open spec fn derives_expression(expression: Expr) -> bool
    decreases expression, 8nat,
{
    Level::LogicalOr.derives(expression) || (match expression {
        Expr::Assign(_, value) => derives_expression(*value),
        _ => false,
    })
}

/// The rank of the level whose chains `token` joins, if it is a binary
/// operator.
pub open spec fn binds(token: Token) -> Option<nat> {
    match token {
        Token::MultiplicationSign => Some(1),
        Token::DivisionSign => Some(1),
        Token::PlusSign => Some(2),
        Token::MinusSign => Some(2),
        Token::LessThan => Some(3),
        Token::LessThanOrEqual => Some(3),
        Token::GreaterThan => Some(3),
        Token::GreaterThanOrEqual => Some(3),
        Token::Equal => Some(4),
        Token::NotEqual => Some(4),
        Token::And => Some(5),
        Token::Or => Some(6),
        _ => None,
    }
}

/// Whether `tokens` begins with `expression` written out.
pub open spec fn begins(tokens: Seq<Token>, expression: Expr) -> bool {
    &&& unparse(expression).len() <= tokens.len()
    &&& lexemes(tokens.take(unparse(expression).len() as int)) == unparse(expression)
}

/// The tokens after `expression` written out.
pub open spec fn beyond(tokens: Seq<Token>, expression: Expr) -> Seq<Token> {
    tokens.skip(unparse(expression).len() as int)
}

/// Whether the token at the front of `rest`, if there is one, joins no
/// chain of a level below `level`.
pub open spec fn calm(level: Level, rest: Seq<Token>) -> bool {
    rest.len() > 0 ==> (binds(rest[0]) matches Some(rank) ==> rank >= level.rank())
}

/// Whether the token at the front of `rest`, if there is one, cannot carry
/// an expression on: it is no binary operator and not `=`.
pub open spec fn ends(rest: Seq<Token>) -> bool {
    rest.len() > 0 ==> binds(rest[0]) is None && rest[0] !is Assignment
}

/// What a parse of a level returns is derived at that level.
pub proof fn lemma_level_derives(level: Level, tokens: Seq<Token>, names: Set<Seq<char>>)
    ensures
        parse_level(level, tokens, names) matches Ok((expression, _)) ==> level.derives(
            expression,
        ),
    decreases tokens.len(), level.rank(), 2nat,
{
    if level is Factor {
        assert(parse_level(level, tokens, names) == parse_factor(tokens, names));
        if tokens.len() == 0 {
        } else if tokens[0] is OpenParen {
            lemma_expression_derives(tokens.skip(1), names);
            match parse_parenthesized(tokens, names) {
                Ok((inner, _)) => assert(Level::Factor.derives(Expr::Group(Box::new(inner)))),
                Err(_) => {},
            }
        } else if unary_operator(tokens[0]) is Some {
            lemma_level_derives(Level::Factor, tokens.skip(1), names);
            assert(parse_factor(tokens, names) == parse_unary(tokens, names));
            match parse_level(Level::Factor, tokens.skip(1), names) {
                Ok((operand, _)) => assert(Level::Factor.derives(
                    Expr::Unary(unary_operator(tokens[0])->0, Box::new(operand)),
                )),
                Err(_) => {},
            }
        } else if tokens[0] is IntegerLiteral {
            assert(Level::Factor.derives(Expr::Constant(tokens[0]->IntegerLiteral_0)));
        } else if tokens[0] is Identifier {
            assert(Level::Factor.derives(Expr::Variable(tokens[0]->Identifier_0@)));
        }
    } else {
        lemma_level_derives(level.operand(), tokens, names);
        match parse_level(level.operand(), tokens, names) {
            Ok((first, rest)) => {
                if rest.len() <= tokens.len() {
                    lemma_chain_derives(level, first, rest, names);
                }
            },
            Err(_) => {},
        }
    }
}

/// What a chain returns that goes on from an expression of its level is
/// derived at that level.
pub proof fn lemma_chain_derives(
    level: Level,
    left: Expr,
    tokens: Seq<Token>,
    names: Set<Seq<char>>,
)
    requires
        level.derives(left),
    ensures
        parse_chain(level, left, tokens, names) matches Ok((expression, _)) ==> level.derives(
            expression,
        ),
    decreases tokens.len(), level.rank(), 1nat,
{
    if level !is Factor && tokens.len() >= 1 && level.operator(tokens[0]) is Some {
        lemma_level_derives(level.operand(), tokens.skip(1), names);
        match parse_level(level.operand(), tokens.skip(1), names) {
            Ok((right, rest)) => {
                let operator = level.operator(tokens[0])->0;
                let joined = Expr::Binary(operator, Box::new(left), Box::new(right));
                assert(level.owns(operator));
                if rest.len() < tokens.len() {
                    lemma_chain_derives(level, joined, rest, names);
                }
            },
            Err(_) => {},
        }
    }
}

/// What a parse of an expression returns is derived as an expression.
pub proof fn lemma_expression_derives(tokens: Seq<Token>, names: Set<Seq<char>>)
    ensures
        parse_expression(tokens, names) matches Ok((expression, _)) ==> derives_expression(
            expression,
        ),
    decreases tokens.len(), 8nat, 0nat,
{
    if assignment_ahead(tokens) {
        lemma_expression_derives(tokens.skip(2), names);
    } else {
        lemma_level_derives(Level::LogicalOr, tokens, names);
    }
}

/// A token that says what a binary operator of a level is written as is
/// the operator of that level, and of no other.
pub proof fn lemma_operator_token(level: Level, operator: BinaryOperator, token: Token)
    requires
        level.owns(operator),
        token@ == binary_lexeme(operator),
    ensures
        level.operator(token) == Some(operator),
        binds(token) == Some(level.rank()),
{
}

/// A token that is an operator of a level joins the chains of that level.
pub proof fn lemma_operator_binds(level: Level, token: Token)
    requires
        level.operator(token) is Some,
    ensures
        binds(token) == Some(level.rank()),
{
}

/// Where tokens begin with lexemes of which `piece` is a part, the tokens
/// from the place of the part on begin with `piece`.
pub proof fn lemma_begins_part(
    tokens: Seq<Token>,
    whole: Seq<Lexeme>,
    from: int,
    piece: Seq<Lexeme>,
)
    requires
        whole.len() <= tokens.len(),
        lexemes(tokens.take(whole.len() as int)) == whole,
        0 <= from,
        from + piece.len() <= whole.len(),
        whole.subrange(from, from + piece.len()) == piece,
    ensures
        lexemes(tokens.skip(from).take(piece.len() as int)) == piece,
        tokens.skip(from).skip(piece.len() as int) == tokens.skip(from + piece.len()),
{
    let front = tokens.take(whole.len() as int);
    let part = tokens.skip(from).take(piece.len() as int);
    assert forall|i: int| 0 <= i < piece.len() implies lexemes(part)[i] == piece[i] by {
        assert(part[i] == front[from + i]);
        assert(lexemes(front)[from + i] == front[from + i]@);
        assert(whole.subrange(from, from + piece.len())[i] == whole[from + i]);
    }
    assert(lexemes(part) =~= piece);
    assert(tokens.skip(from).skip(piece.len() as int) =~= tokens.skip(from + piece.len()));
}

/// The token at a place where tokens begin with an expression says what
/// the expression has at that place.
pub proof fn lemma_begins_at(tokens: Seq<Token>, expression: Expr, i: int)
    requires
        begins(tokens, expression),
        0 <= i < unparse(expression).len(),
    ensures
        tokens[i]@ == unparse(expression)[i],
{
    let front = tokens.take(unparse(expression).len() as int);
    assert(lexemes(front)[i] == front[i]@);
}

/// An expression of a level that begins with an identifier is that
/// identifier alone, or has a binary operator after it.
pub proof fn lemma_after_identifier(level: Level, expression: Expr)
    requires
        level.derives(expression),
        unparse(expression)[0] is Identifier,
    ensures
        unparse(expression).len() == 1 || (unparse(expression).len() > 1 && exists|
            operator: BinaryOperator,
        | unparse(expression)[1] == #[trigger] binary_lexeme(operator)),
    decreases expression, level.rank(),
{
    lemma_clauses_bound(expression);
    if level is Factor {
    } else if level.operand().derives(expression) {
        lemma_after_identifier(level.operand(), expression);
    } else {
        match expression {
            Expr::Binary(operator, left, right) => {
                lemma_clauses_bound(*left);
                lemma_after_identifier(level, *left);
                assert(unparse(expression)[0] == unparse(*left)[0]);
                if unparse(*left).len() == 1 {
                    assert(unparse(expression)[1] == binary_lexeme(operator));
                } else {
                    assert(unparse(expression)[1] == unparse(*left)[1]);
                }
            },
            _ => {},
        }
    }
}

/// Tokens that begin with an expression of a level written out are parsed
/// as the chain of that level that goes on from this expression, if only
/// the token after the expression joins no chain of a lower level.
pub proof fn lemma_level_complete(
    level: Level,
    expression: Expr,
    tokens: Seq<Token>,
    names: Set<Seq<char>>,
)
    requires
        level.derives(expression),
        expression.declared(names),
        begins(tokens, expression),
        calm(level, beyond(tokens, expression)),
    ensures
        parse_level(level, tokens, names) == parse_chain(
            level,
            expression,
            beyond(tokens, expression),
            names,
        ),
    decreases expression, level.rank(),
{
    let whole = unparse(expression);
    let rest = beyond(tokens, expression);
    lemma_clauses_bound(expression);
    lemma_begins_at(tokens, expression, 0);
    if level is Factor {
        assert(parse_level(level, tokens, names) == parse_factor(tokens, names));
        match expression {
            Expr::Constant(value) => {
                assert(tokens.skip(1) =~= rest);
            },
            Expr::Variable(name) => {
                assert(tokens.skip(1) =~= rest);
            },
            Expr::Group(inner) => {
                let piece = unparse(*inner);
                lemma_clauses_bound(*inner);
                assert(whole.subrange(1, 1 + (piece.len() as int)) =~= piece);
                lemma_begins_part(tokens, whole, 1, piece);
                lemma_begins_at(tokens, expression, 1 + (piece.len() as int));
                let after = beyond(tokens.skip(1), *inner);
                assert(after[0] == tokens[1 + (piece.len() as int)]);
                lemma_expression_complete(*inner, tokens.skip(1), names);
                assert(after.skip(1) =~= rest);
            },
            Expr::Unary(operator, operand) => {
                let piece = unparse(*operand);
                assert(whole.subrange(1, 1 + (piece.len() as int)) =~= piece);
                lemma_begins_part(tokens, whole, 1, piece);
                assert(unary_operator(tokens[0]) == Some(operator));
                assert(parse_factor(tokens, names) == parse_unary(tokens, names));
                lemma_level_complete(Level::Factor, *operand, tokens.skip(1), names);
                assert(beyond(tokens.skip(1), *operand) =~= rest);
            },
            _ => {},
        }
    } else if level.operand().derives(expression) {
        lemma_level_complete(level.operand(), expression, tokens, names);
        if rest.len() > 0 && level.operand().operator(rest[0]) is Some {
            lemma_operator_binds(level.operand(), rest[0]);
        }
    } else {
        match expression {
            Expr::Binary(operator, left, right) => {
                let first = unparse(*left);
                let second = unparse(*right);
                lemma_clauses_bound(*left);
                lemma_clauses_bound(*right);
                assert(whole.subrange(0, first.len() as int) =~= first);
                lemma_begins_part(tokens, whole, 0, first);
                assert(tokens.skip(0) =~= tokens);
                let middle = beyond(tokens, *left);
                lemma_begins_at(tokens, expression, first.len() as int);
                assert(middle[0] == tokens[first.len() as int]);
                lemma_operator_token(level, operator, middle[0]);
                lemma_level_complete(level, *left, tokens, names);
                assert(whole.subrange(first.len() as int + 1, first.len() as int + 1 + second.len())
                    =~= second);
                lemma_begins_part(tokens, whole, first.len() as int + 1, second);
                assert(middle.skip(1) =~= tokens.skip(first.len() as int + 1));
                assert(beyond(middle.skip(1), *right) =~= rest);
                lemma_level_complete(level.operand(), *right, middle.skip(1), names);
                if rest.len() > 0 && level.operand().operator(rest[0]) is Some {
                    lemma_operator_binds(level.operand(), rest[0]);
                }
            },
            _ => {},
        }
    }
}

/// Tokens that begin with an expression written out are parsed to that
/// expression, and the parse hands back the tokens after it, if only the
/// token after the expression cannot carry it on. So the tree of an
/// expression is the only one that its tokens are read as.
pub proof fn lemma_expression_complete(
    expression: Expr,
    tokens: Seq<Token>,
    names: Set<Seq<char>>,
)
    requires
        derives_expression(expression),
        expression.declared(names),
        begins(tokens, expression),
        ends(beyond(tokens, expression)),
    ensures
        parse_expression(tokens, names) == Ok::<(Expr, Seq<Token>), ParseError>(
            (expression, beyond(tokens, expression)),
        ),
    decreases expression, 8nat,
{
    let whole = unparse(expression);
    let rest = beyond(tokens, expression);
    lemma_clauses_bound(expression);
    lemma_begins_at(tokens, expression, 0);
    if Level::LogicalOr.derives(expression) {
        if tokens[0] is Identifier && tokens.len() >= 2 {
            lemma_after_identifier(Level::LogicalOr, expression);
            if whole.len() == 1 {
                assert(rest[0] == tokens[1]);
            } else {
                lemma_begins_at(tokens, expression, 1);
            }
        }
        assert(!assignment_ahead(tokens));
        lemma_level_complete(Level::LogicalOr, expression, tokens, names);
        if rest.len() > 0 && Level::LogicalOr.operator(rest[0]) is Some {
            lemma_operator_binds(Level::LogicalOr, rest[0]);
        }
    } else {
        match expression {
            Expr::Assign(name, value) => {
                let piece = unparse(*value);
                lemma_clauses_bound(*value);
                lemma_begins_at(tokens, expression, 1);
                assert(whole.subrange(2, 2 + (piece.len() as int)) =~= piece);
                lemma_begins_part(tokens, whole, 2, piece);
                assert(beyond(tokens.skip(2), *value) =~= rest);
                lemma_expression_complete(*value, tokens.skip(2), names);
                assert(assignment_ahead(tokens));
            },
            _ => {},
        }
    }
}

/// Whether `tokens` begins with the lexemes `piece`.
pub open spec fn starts(tokens: Seq<Token>, piece: Seq<Lexeme>) -> bool {
    &&& piece.len() <= tokens.len()
    &&& lexemes(tokens.take(piece.len() as int)) == piece
}

/// Whether a statement is well-formed where the table is `frame`: the
/// grammar derives its expression, the expression uses only names that the
/// table holds, and a declaration declares a name that it does not hold.
pub open spec fn admits(frame: Frame, statement: Stmt) -> bool {
    &&& statement.expression() matches Some(value) ==> derives_expression(value)
    &&& statement.declared(frame.names())
    &&& statement matches Stmt::Declaration(name, _) ==> !frame.names().contains(name)
}

/// The table after a statement: a declaration binds its name to the next
/// slot.
pub open spec fn table_after(frame: Frame, statement: Stmt) -> Frame {
    match statement {
        Stmt::Declaration(name, _) => frame.declare(name),
        _ => frame,
    }
}

/// Whether each of the statements is well-formed where the table is what
/// the statements before it made of `frame`.
pub open spec fn admits_body(frame: Frame, body: Seq<Stmt>) -> bool
    decreases body.len(),
{
    body.len() == 0 || (admits(frame, body.first()) && admits_body(
        table_after(frame, body.first()),
        body.drop_first(),
    ))
}

/// The table after the statements.
pub open spec fn table_after_body(frame: Frame, body: Seq<Stmt>) -> Frame
    decreases body.len(),
{
    if body.len() == 0 {
        frame
    } else {
        table_after_body(table_after(frame, body.first()), body.drop_first())
    }
}

/// An expression that the grammar derives begins with an integer literal,
/// an identifier, an opening parenthesis or a unary operator.
pub proof fn lemma_first_lexeme(expression: Expr)
    requires
        derives_expression(expression),
    ensures
        unparse(expression).len() > 0,
        ({
            let first = unparse(expression)[0];
            first is IntegerLiteral || first is Identifier || first is OpenParen
                || first is MinusSign || first is BitwiseComplement || first is LogicalNegation
        }),
    decreases expression,
{
    lemma_clauses_bound(expression);
    match expression {
        Expr::Binary(operator, left, right) => {
            lemma_clauses_bound(*left);
            lemma_binary_left(expression);
            lemma_first_lexeme(*left);
            assert(unparse(expression)[0] == unparse(*left)[0]);
        },
        _ => {},
    }
}

/// The left operand of a chain that the grammar derives is derived too.
pub proof fn lemma_binary_left(expression: Expr)
    requires
        derives_expression(expression),
        expression is Binary,
    ensures
        derives_expression(*expression->Binary_1),
{
    let left = *expression->Binary_1;
    lemma_chain_left(Level::LogicalOr, expression);
    lemma_level_rises(lowest_level(expression), Level::LogicalOr, left);
}

/// The level whose chains the operator of `expression` joins.
pub open spec fn lowest_level(expression: Expr) -> Level {
    match expression {
        Expr::Binary(operator, _, _) => {
            if Level::Term.owns(operator) {
                Level::Term
            } else if Level::Additive.owns(operator) {
                Level::Additive
            } else if Level::Relational.owns(operator) {
                Level::Relational
            } else if Level::Equality.owns(operator) {
                Level::Equality
            } else if Level::LogicalAnd.owns(operator) {
                Level::LogicalAnd
            } else {
                Level::LogicalOr
            }
        },
        _ => Level::Factor,
    }
}

/// A chain that is derived at a level is derived at the level of its
/// operator, and so is its left operand.
pub proof fn lemma_chain_left(level: Level, expression: Expr)
    requires
        level.derives(expression),
        expression is Binary,
    ensures
        lowest_level(expression).derives(expression),
        lowest_level(expression).derives(*expression->Binary_1),
        lowest_level(expression).rank() <= level.rank(),
    decreases level.rank(),
{
    if level !is Factor {
        if level.operand().derives(expression) {
            lemma_chain_left(level.operand(), expression);
        }
    }
}

/// What is derived at a level is derived at every higher one.
pub proof fn lemma_level_rises(low: Level, high: Level, expression: Expr)
    requires
        low.derives(expression),
        low.rank() <= high.rank(),
    ensures
        high.derives(expression),
    decreases high.rank(),
{
    if low.rank() < high.rank() {
        lemma_level_rises(low, high.operand(), expression);
    }
}

/// Tokens that begin with an expression and `;` are parsed to that
/// expression, and the parse hands back the tokens after the `;`.
pub proof fn lemma_terminated_complete(
    value: Expr,
    tokens: Seq<Token>,
    names: Set<Seq<char>>,
)
    requires
        derives_expression(value),
        value.declared(names),
        starts(tokens, unparse(value) + seq![Lexeme::Semicolon]),
    ensures
        parse_terminated(tokens, names) == Ok::<(Expr, Seq<Token>), ParseError>(
            (value, tokens.skip(unparse(value).len() as int + 1)),
        ),
{
    let piece = unparse(value);
    let whole = piece + seq![Lexeme::Semicolon];
    assert(whole.subrange(0, piece.len() as int) =~= piece);
    lemma_begins_part(tokens, whole, 0, piece);
    assert(tokens.skip(0) =~= tokens);
    let rest = beyond(tokens, value);
    let end = tokens.take(whole.len() as int);
    assert(lexemes(end)[piece.len() as int] == end[piece.len() as int]@);
    assert(rest[0] == tokens[piece.len() as int]);
    assert(rest[0] is Semicolon);
    lemma_expression_complete(value, tokens, names);
    assert(rest.skip(1) =~= tokens.skip(piece.len() as int + 1));
}

/// Tokens that begin with a well-formed statement written out are parsed
/// to that statement, and the parse hands back the tokens after it and the
/// table after the statement.
pub proof fn lemma_statement_complete(statement: Stmt, tokens: Seq<Token>, frame: Frame)
    requires
        admits(frame, statement),
        starts(tokens, unparse_statement(statement)),
    ensures
        parse_statement(tokens, frame) == Ok::<(Stmt, Seq<Token>, Frame), ParseError>(
            (
                statement,
                tokens.skip(unparse_statement(statement).len() as int),
                table_after(frame, statement),
            ),
        ),
{
    let whole = unparse_statement(statement);
    let names = frame.names();
    let front = tokens.take(whole.len() as int);
    assert(lexemes(front)[0] == front[0]@);
    match statement {
        Stmt::Return(value) => {
            let piece = unparse(value) + seq![Lexeme::Semicolon];
            assert(whole.subrange(1, 1 + (piece.len() as int)) =~= piece);
            lemma_begins_part(tokens, whole, 1, piece);
            lemma_terminated_complete(value, tokens.skip(1), names);
            assert(tokens.skip(1).skip(unparse(value).len() as int + 1) =~= tokens.skip(
                whole.len() as int,
            ));
        },
        Stmt::Expression(value) => {
            lemma_first_lexeme(value);
            assert(whole[0] == unparse(value)[0]);
            lemma_terminated_complete(value, tokens, names);
        },
        Stmt::Declaration(name, Some(value)) => {
            let piece = unparse(value) + seq![Lexeme::Semicolon];
            assert(lexemes(front)[1] == front[1]@);
            assert(lexemes(front)[2] == front[2]@);
            assert(whole.subrange(3, 3 + (piece.len() as int)) =~= piece);
            lemma_begins_part(tokens, whole, 3, piece);
            lemma_terminated_complete(value, tokens.skip(3), names);
            assert(tokens.skip(3).skip(unparse(value).len() as int + 1) =~= tokens.skip(
                whole.len() as int,
            ));
        },
        Stmt::Declaration(name, None) => {
            assert(lexemes(front)[1] == front[1]@);
            assert(lexemes(front)[2] == front[2]@);
            assert(tokens.skip(2)[0] == tokens[2]);
            assert(tokens.skip(2).skip(1) =~= tokens.skip(whole.len() as int));
        },
    }
}

/// Tokens that begin with well-formed statements written out and `}` are
/// parsed to those statements, and the parse hands back the tokens after
/// the `}` and the table after the statements.
pub proof fn lemma_body_complete(body: Seq<Stmt>, tokens: Seq<Token>, frame: Frame)
    requires
        admits_body(frame, body),
        starts(tokens, unparse_body(body) + seq![Lexeme::CloseBrace]),
    ensures
        parse_body(tokens, frame) == Ok::<(Seq<Stmt>, Frame, Seq<Token>), ParseError>(
            (
                body,
                table_after_body(frame, body),
                tokens.skip(unparse_body(body).len() as int + 1),
            ),
        ),
    decreases body.len(),
{
    let whole = unparse_body(body) + seq![Lexeme::CloseBrace];
    let front = tokens.take(whole.len() as int);
    assert(lexemes(front)[0] == front[0]@);
    if body.len() == 0 {
        assert(body =~= Seq::<Stmt>::empty());
        assert(tokens[0] is CloseBrace);
        assert(tokens.skip(1) =~= tokens.skip(unparse_body(body).len() as int + 1));
    } else {
        let first = body.first();
        let piece = unparse_statement(first);
        let rest = unparse_body(body.drop_first()) + seq![Lexeme::CloseBrace];
        assert(piece.len() > 0 && piece[0] !is CloseBrace) by {
            match first {
                Stmt::Expression(value) => {
                    lemma_first_lexeme(value);
                    assert(piece[0] == unparse(value)[0]);
                },
                _ => {},
            }
        }
        assert(whole[0] == piece[0]);
        assert(whole.subrange(0, piece.len() as int) =~= piece);
        lemma_begins_part(tokens, whole, 0, piece);
        assert(tokens.skip(0) =~= tokens);
        lemma_statement_complete(first, tokens, frame);
        assert(whole.subrange(piece.len() as int, piece.len() as int + rest.len()) =~= rest);
        lemma_begins_part(tokens, whole, piece.len() as int, rest);
        let after = tokens.skip(piece.len() as int);
        lemma_body_complete(body.drop_first(), after, table_after(frame, first));
        assert(tokens[0]@ == piece[0]);
        assert(tokens[0] !is CloseBrace);
        assert(after.len() < tokens.len());
        assert(seq![first] + body.drop_first() =~= body);
        assert(after.skip(unparse_body(body.drop_first()).len() as int + 1) =~= tokens.skip(
            unparse_body(body).len() as int + 1,
        ));
    }
}

/// Tokens that are a function with well-formed statements written out are
/// parsed to that function, with the table that its declarations make. So
/// every function of the grammar is read, as the one tree that it is.
pub proof fn lemma_function_complete(name: Seq<char>, body: Seq<Stmt>, tokens: Seq<Token>)
    requires
        admits_body(Frame::empty(), body),
        lexemes(tokens) == unparse_function(
            FunctionModel { name, body, frame: Frame::empty() },
        ),
    ensures
        parse_function(tokens) == Ok::<FunctionModel, ParseError>(
            FunctionModel { name, body, frame: table_after_body(Frame::empty(), body) },
        ),
{
    let whole = lexemes(tokens);
    let rest = unparse_body(body) + seq![Lexeme::CloseBrace];
    assert(whole.len() == tokens.len());
    assert(tokens.take(tokens.len() as int) =~= tokens);
    assert(whole[0] == tokens[0]@ && whole[1] == tokens[1]@ && whole[2] == tokens[2]@
        && whole[3] == tokens[3]@ && whole[4] == tokens[4]@);
    assert(whole.subrange(5, 5 + (rest.len() as int)) =~= rest);
    lemma_begins_part(tokens, whole, 5, rest);
    lemma_body_complete(body, tokens.skip(5), Frame::empty());
    assert(tokens.skip(5).skip(unparse_body(body).len() as int + 1).len() == 0);
}

} // verus!
