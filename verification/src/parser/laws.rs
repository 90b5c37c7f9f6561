//! What holds of every parse.
//!
//! A successful parse reads its tokens faithfully: written out again, the
//! tree gives back exactly the tokens that were consumed. It uses none but
//! declared variables, and it takes fewer branch scopes than it consumed
//! tokens.

use vstd::prelude::*;
use crate::lexer::{lexemes, Lexeme, Token};
use crate::parser::factor::UnaryOperator;
use crate::parser::grammar::{
    assignment_ahead, parse_assignment, parse_body, parse_chain, parse_declaration,
    parse_expression, parse_factor, parse_function, parse_level, parse_parenthesized,
    parse_semicolon, parse_statement, parse_terminated, parse_unary, unary_operator, Level, Parsed,
};
use crate::parser::function::MAX_TOKENS;
use crate::parser::syntax::{
    body_clauses, declarations, slotted, BinaryOperator, Expr, Frame, FunctionModel, Stmt,
};
use crate::parser::ParseError;

verus! {

/// The lexeme that stands for a unary operator.
pub open spec fn unary_lexeme(operator: UnaryOperator) -> Lexeme {
    match operator {
        UnaryOperator::Negation => Lexeme::MinusSign,
        UnaryOperator::BitwiseComplement => Lexeme::BitwiseComplement,
        UnaryOperator::LogicalNegation => Lexeme::LogicalNegation,
    }
}

/// The lexeme that stands for a binary operator.
pub open spec fn binary_lexeme(operator: BinaryOperator) -> Lexeme {
    match operator {
        BinaryOperator::Or => Lexeme::Or,
        BinaryOperator::And => Lexeme::And,
        BinaryOperator::Equal => Lexeme::Equal,
        BinaryOperator::NotEqual => Lexeme::NotEqual,
        BinaryOperator::LessThan => Lexeme::LessThan,
        BinaryOperator::LessThanOrEqual => Lexeme::LessThanOrEqual,
        BinaryOperator::GreaterThan => Lexeme::GreaterThan,
        BinaryOperator::GreaterThanOrEqual => Lexeme::GreaterThanOrEqual,
        BinaryOperator::Addition => Lexeme::PlusSign,
        BinaryOperator::Subtraction => Lexeme::MinusSign,
        BinaryOperator::Multiplication => Lexeme::MultiplicationSign,
        BinaryOperator::Division => Lexeme::DivisionSign,
    }
}

/// The expression written out: the lexemes that it is read from.
pub open spec fn unparse(expression: Expr) -> Seq<Lexeme>
    decreases expression,
{
    match expression {
        Expr::Constant(value) => seq![Lexeme::IntegerLiteral(value)],
        Expr::Variable(name) => seq![Lexeme::Identifier(name)],
        Expr::Group(inner) => seq![Lexeme::OpenParen] + unparse(*inner) + seq![Lexeme::CloseParen],
        Expr::Unary(operator, operand) => seq![unary_lexeme(operator)] + unparse(*operand),
        Expr::Binary(operator, left, right) => unparse(*left) + seq![binary_lexeme(operator)]
            + unparse(*right),
        Expr::Assign(name, value) => seq![Lexeme::Identifier(name), Lexeme::Assignment] + unparse(
            *value,
        ),
    }
}

/// The statement written out.
pub open spec fn unparse_statement(statement: Stmt) -> Seq<Lexeme> {
    match statement {
        Stmt::Return(value) => seq![Lexeme::KeywordReturn] + unparse(value) + seq![
            Lexeme::Semicolon,
        ],
        Stmt::Expression(value) => unparse(value) + seq![Lexeme::Semicolon],
        Stmt::Declaration(name, Some(value)) => seq![
            Lexeme::KeywordInt,
            Lexeme::Identifier(name),
            Lexeme::Assignment,
        ] + unparse(value) + seq![Lexeme::Semicolon],
        Stmt::Declaration(name, None) => seq![
            Lexeme::KeywordInt,
            Lexeme::Identifier(name),
            Lexeme::Semicolon,
        ],
    }
}

/// The statements written out, one after another.
pub open spec fn unparse_body(body: Seq<Stmt>) -> Seq<Lexeme>
    decreases body.len(),
{
    if body.len() == 0 {
        Seq::empty()
    } else {
        unparse_statement(body.first()) + unparse_body(body.drop_first())
    }
}

/// The function written out.
pub open spec fn unparse_function(function: FunctionModel) -> Seq<Lexeme> {
    seq![
        Lexeme::KeywordInt,
        Lexeme::Identifier(function.name),
        Lexeme::OpenParen,
        Lexeme::CloseParen,
        Lexeme::OpenBrace,
    ] + unparse_body(function.body) + seq![Lexeme::CloseBrace]
}

/// Whether `parsed`, where it is a success, reads `tokens` faithfully:
/// tokens were consumed, the expression uses only names in `names`, and
/// written out it gives the consumed tokens back.
pub open spec fn faithful(tokens: Seq<Token>, names: Set<Seq<char>>, parsed: Parsed) -> bool {
    parsed matches Ok((expression, rest)) ==> {
        &&& rest.len() < tokens.len()
        &&& expression.declared(names)
        &&& lexemes(tokens) == unparse(expression) + lexemes(rest)
    }
}

/// The first lexeme of a sequence of tokens is what its first token says.
pub proof fn lemma_lexemes_first(tokens: Seq<Token>)
    requires
        tokens.len() > 0,
    ensures
        lexemes(tokens) == seq![tokens[0]@] + lexemes(tokens.skip(1)),
{
    assert(lexemes(tokens) =~= seq![tokens[0]@] + lexemes(tokens.skip(1)));
}

/// A variable that is declared in a set of names is declared in every
/// larger one.
pub proof fn lemma_declared_grows(
    expression: Expr,
    names: Set<Seq<char>>,
    more: Set<Seq<char>>,
)
    requires
        expression.declared(names),
        names.subset_of(more),
    ensures
        expression.declared(more),
    decreases expression,
{
    match expression {
        Expr::Constant(_) => {},
        Expr::Variable(_) => {},
        Expr::Group(inner) => lemma_declared_grows(*inner, names, more),
        Expr::Unary(_, operand) => lemma_declared_grows(*operand, names, more),
        Expr::Binary(_, left, right) => {
            lemma_declared_grows(*left, names, more);
            lemma_declared_grows(*right, names, more);
        },
        Expr::Assign(_, value) => lemma_declared_grows(*value, names, more),
    }
}

/// An expression takes fewer branch scopes than it has lexemes.
pub proof fn lemma_clauses_bound(expression: Expr)
    ensures
        expression.clauses() < unparse(expression).len(),
    decreases expression,
{
    match expression {
        Expr::Constant(_) => {},
        Expr::Variable(_) => {},
        Expr::Group(inner) => lemma_clauses_bound(*inner),
        Expr::Unary(_, operand) => lemma_clauses_bound(*operand),
        Expr::Binary(_, left, right) => {
            lemma_clauses_bound(*left);
            lemma_clauses_bound(*right);
        },
        Expr::Assign(_, value) => lemma_clauses_bound(*value),
    }
}

/// Every successful parse of an expression is faithful.
pub proof fn lemma_expression_faithful(tokens: Seq<Token>, names: Set<Seq<char>>)
    ensures
        faithful(tokens, names, parse_expression(tokens, names)),
    decreases tokens.len(), 8nat, 0nat,
{
    if assignment_ahead(tokens) {
        lemma_assignment_faithful(tokens, names);
    } else {
        lemma_level_faithful(Level::LogicalOr, tokens, names);
    }
}

/// A successful parse of an assignment reads its tokens faithfully; only
/// its target may still be undeclared.
pub proof fn lemma_assignment_faithful(tokens: Seq<Token>, names: Set<Seq<char>>)
    ensures
        parse_assignment(tokens, names) matches Ok((expression, rest)) ==> {
            &&& rest.len() < tokens.len()
            &&& expression matches Expr::Assign(name, value)
            &&& name == tokens[0]->Identifier_0@
            &&& value.declared(names)
            &&& lexemes(tokens) == unparse(expression) + lexemes(rest)
        },
    decreases tokens.len(), 7nat, 0nat,
{
    if tokens.len() >= 2 && tokens[0] is Identifier && tokens[1] is Assignment {
        lemma_expression_faithful(tokens.skip(2), names);
        match parse_expression(tokens.skip(2), names) {
            Ok((value, rest)) => {
                lemma_lexemes_first(tokens);
                lemma_lexemes_first(tokens.skip(1));
                assert(tokens.skip(1).skip(1) =~= tokens.skip(2));
                let name = tokens[0]->Identifier_0@;
                assert(lexemes(tokens) =~= unparse(Expr::Assign(name, Box::new(value)))
                    + lexemes(rest));
            },
            Err(_) => {},
        }
    }
}

/// A successful parse of an expression in parentheses reads its tokens
/// faithfully, the parentheses included.
pub proof fn lemma_parenthesized_faithful(tokens: Seq<Token>, names: Set<Seq<char>>)
    ensures
        parse_parenthesized(tokens, names) matches Ok((inner, rest)) ==> faithful(
            tokens,
            names,
            Ok((Expr::Group(Box::new(inner)), rest)),
        ),
    decreases tokens.len(), 0nat, 0nat,
{
    if tokens.len() >= 1 && tokens[0] is OpenParen {
        lemma_expression_faithful(tokens.skip(1), names);
        match parse_expression(tokens.skip(1), names) {
            Ok((inner, rest)) => {
                if rest.len() >= 1 && rest[0] is CloseParen {
                    lemma_lexemes_first(tokens);
                    lemma_lexemes_first(rest);
                    assert(lexemes(tokens) =~= unparse(Expr::Group(Box::new(inner))) + lexemes(
                        rest.skip(1),
                    ));
                }
            },
            Err(_) => {},
        }
    }
}

/// Every successful parse of a unary operation is faithful.
pub proof fn lemma_unary_faithful(tokens: Seq<Token>, names: Set<Seq<char>>)
    ensures
        faithful(tokens, names, parse_unary(tokens, names)),
    decreases tokens.len(), 0nat, 0nat,
{
    if tokens.len() >= 1 && unary_operator(tokens[0]) is Some {
        lemma_level_faithful(Level::Factor, tokens.skip(1), names);
        match parse_level(Level::Factor, tokens.skip(1), names) {
            Ok((operand, rest)) => {
                lemma_lexemes_first(tokens);
                let operator = unary_operator(tokens[0])->0;
                assert(unary_lexeme(operator) == tokens[0]@);
                assert(lexemes(tokens) =~= unparse(Expr::Unary(operator, Box::new(operand)))
                    + lexemes(rest));
            },
            Err(_) => {},
        }
    }
}

/// Every successful parse of a factor is faithful.
pub proof fn lemma_factor_faithful(tokens: Seq<Token>, names: Set<Seq<char>>)
    ensures
        faithful(tokens, names, parse_factor(tokens, names)),
    decreases tokens.len(), 0nat, 1nat,
{
    if tokens.len() == 0 {
    } else if tokens[0] is OpenParen {
        lemma_parenthesized_faithful(tokens, names);
    } else if unary_operator(tokens[0]) is Some {
        lemma_unary_faithful(tokens, names);
    } else {
        lemma_lexemes_first(tokens);
    }
}

/// Every successful parse of an expression of a level is faithful.
pub proof fn lemma_level_faithful(level: Level, tokens: Seq<Token>, names: Set<Seq<char>>)
    ensures
        faithful(tokens, names, parse_level(level, tokens, names)),
    decreases tokens.len(), level.rank(), 2nat,
{
    if level is Factor {
        lemma_factor_faithful(tokens, names);
    } else {
        lemma_level_faithful(level.operand(), tokens, names);
        match parse_level(level.operand(), tokens, names) {
            Ok((first, rest)) => {
                lemma_chain_faithful(level, first, rest, names);
            },
            Err(_) => {},
        }
    }
}

/// A chain that goes on from `left` reads the tokens after `left`
/// faithfully: what it returns, written out, is `left` written out and
/// then the tokens that the chain consumed.
pub proof fn lemma_chain_faithful(
    level: Level,
    left: Expr,
    tokens: Seq<Token>,
    names: Set<Seq<char>>,
)
    requires
        left.declared(names),
    ensures
        parse_chain(level, left, tokens, names) matches Ok((expression, rest)) ==> {
            &&& rest.len() <= tokens.len()
            &&& expression.declared(names)
            &&& unparse(left) + lexemes(tokens) == unparse(expression) + lexemes(rest)
        },
    decreases tokens.len(), level.rank(), 1nat,
{
    if level !is Factor && tokens.len() >= 1 && level.operator(tokens[0]) is Some {
        lemma_level_faithful(level.operand(), tokens.skip(1), names);
        match parse_level(level.operand(), tokens.skip(1), names) {
            Ok((right, rest)) => {
                let operator = level.operator(tokens[0])->0;
                let joined = Expr::Binary(operator, Box::new(left), Box::new(right));
                lemma_chain_faithful(level, joined, rest, names);
                lemma_lexemes_first(tokens);
                assert(binary_lexeme(operator) == tokens[0]@);
                assert(unparse(left) + lexemes(tokens) =~= unparse(joined) + lexemes(rest));
            },
            Err(_) => {},
        }
    }
}

/// An expression followed by `;` is read faithfully.
pub proof fn lemma_terminated_faithful(tokens: Seq<Token>, names: Set<Seq<char>>)
    ensures
        parse_terminated(tokens, names) matches Ok((value, after)) ==> {
            &&& after.len() < tokens.len()
            &&& value.declared(names)
            &&& lexemes(tokens) == unparse(value) + seq![Lexeme::Semicolon] + lexemes(after)
            &&& value.clauses() + after.len() < tokens.len()
        },
{
    lemma_expression_faithful(tokens, names);
    match parse_expression(tokens, names) {
        Ok((value, rest)) => {
            lemma_clauses_bound(value);
            if rest.len() >= 1 && rest[0] is Semicolon {
                lemma_lexemes_first(rest);
                assert(lexemes(tokens) =~= unparse(value) + seq![Lexeme::Semicolon] + lexemes(
                    rest.skip(1),
                ));
                assert(lexemes(tokens).len() == tokens.len());
                assert(lexemes(rest).len() == rest.len());
            }
        },
        Err(_) => {},
    }
}

/// Whether `parsed`, where it is a success, reads `tokens` faithfully as a
/// statement in the table `frame`: tokens were consumed, the statement
/// uses only names that `frame` holds, the table keeps every binding that
/// it had, the statement written out gives the consumed tokens back, and
/// it takes fewer branch scopes than it consumed tokens.
pub open spec fn statement_faithful(
    tokens: Seq<Token>,
    frame: Frame,
    parsed: Result<(Stmt, Seq<Token>, Frame), ParseError>,
) -> bool {
    parsed matches Ok((statement, rest, next)) ==> {
        &&& rest.len() < tokens.len()
        &&& statement.declared(frame.names())
        &&& frame.within(next)
        &&& lexemes(tokens) == unparse_statement(statement) + lexemes(rest)
        &&& statement.clauses() + rest.len() < tokens.len()
    }
}

/// Every successful parse of a statement is faithful.
pub proof fn lemma_statement_faithful(tokens: Seq<Token>, frame: Frame)
    ensures
        statement_faithful(tokens, frame, parse_statement(tokens, frame)),
{
    let names = frame.names();
    if tokens.len() >= 1 && tokens[0] is KeywordReturn {
        lemma_terminated_faithful(tokens.skip(1), names);
        match parse_terminated(tokens.skip(1), names) {
            Ok((value, after)) => {
                lemma_lexemes_first(tokens);
                assert(lexemes(tokens) =~= unparse_statement(Stmt::Return(value)) + lexemes(
                    after,
                ));
            },
            Err(_) => {},
        }
    } else if tokens.len() >= 1 && tokens[0] is KeywordInt {
        if tokens.len() >= 2 && tokens[1] is Identifier {
            let name = tokens[1]->Identifier_0@;
            lemma_lexemes_first(tokens);
            lemma_lexemes_first(tokens.skip(1));
            assert(tokens.skip(1).skip(1) =~= tokens.skip(2));
            if tokens.len() >= 3 && tokens[2] is Assignment {
                lemma_terminated_faithful(tokens.skip(3), names);
                lemma_lexemes_first(tokens.skip(2));
                assert(tokens.skip(2).skip(1) =~= tokens.skip(3));
                match parse_terminated(tokens.skip(3), names) {
                    Ok((value, after)) => {
                        assert(lexemes(tokens) =~= unparse_statement(
                            Stmt::Declaration(name, Some(value)),
                        ) + lexemes(after));
                    },
                    Err(_) => {},
                }
            } else {
                match parse_semicolon(tokens.skip(2)) {
                    Ok(after) => {
                        lemma_lexemes_first(tokens.skip(2));
                        assert(lexemes(tokens) =~= unparse_statement(
                            Stmt::Declaration(name, None),
                        ) + lexemes(after));
                    },
                    Err(_) => {},
                }
            }
        }
    } else {
        lemma_terminated_faithful(tokens, names);
        match parse_terminated(tokens, names) {
            Ok((value, after)) => {
                assert(lexemes(tokens) =~= unparse_statement(Stmt::Expression(value)) + lexemes(
                    after,
                ));
            },
            Err(_) => {},
        }
    }
}

/// A body takes the scopes of its first statement and those of the rest.
pub proof fn lemma_body_clauses_first(first: Stmt, rest: Seq<Stmt>)
    ensures
        body_clauses(seq![first] + rest) == first.clauses() + body_clauses(rest),
    decreases rest.len(),
{
    let body = seq![first] + rest;
    if rest.len() == 0 {
        assert(body.drop_last() =~= Seq::<Stmt>::empty());
        assert(body_clauses(body.drop_last()) == 0);
    } else {
        lemma_body_clauses_first(first, rest.drop_last());
        assert(body.drop_last() =~= seq![first] + rest.drop_last());
    }
}

/// Every successful parse of a function body is faithful: tokens were
/// consumed, every statement uses only names that the final table holds,
/// the final table keeps every binding of the initial one, the statements
/// written out and the closing brace give the consumed tokens back, and
/// the body takes fewer branch scopes than it consumed tokens.
pub proof fn lemma_body_faithful(tokens: Seq<Token>, frame: Frame)
    ensures
        parse_body(tokens, frame) matches Ok((body, last, after)) ==> {
            &&& after.len() < tokens.len()
            &&& forall|i: int| 0 <= i < body.len() ==> (#[trigger] body[i]).declared(last.names())
            &&& frame.within(last)
            &&& lexemes(tokens) == unparse_body(body) + seq![Lexeme::CloseBrace] + lexemes(after)
            &&& body_clauses(body) + after.len() < tokens.len()
        },
    decreases tokens.len(),
{
    if tokens.len() == 0 {
    } else if tokens[0] is CloseBrace {
        lemma_lexemes_first(tokens);
        assert(lexemes(tokens) =~= unparse_body(Seq::empty()) + seq![Lexeme::CloseBrace]
            + lexemes(tokens.skip(1)));
    } else {
        lemma_statement_faithful(tokens, frame);
        match parse_statement(tokens, frame) {
            Ok((statement, rest, next)) => {
                lemma_body_faithful(rest, next);
                match parse_body(rest, next) {
                    Ok((statements, last, after)) => {
                        let body = seq![statement] + statements;
                        lemma_body_clauses_first(statement, statements);
                        assert(body.drop_first() =~= statements);
                        assert(lexemes(tokens) =~= unparse_body(body) + seq![Lexeme::CloseBrace]
                            + lexemes(after));
                        assert forall|i: int| 0 <= i < body.len() implies (#[trigger] body[i])
                            .declared(last.names()) by {
                            if i == 0 {
                                match statement.expression() {
                                    Some(value) => {
                                        assert(frame.names().subset_of(last.names()));
                                        lemma_declared_grows(value, frame.names(), last.names());
                                    },
                                    None => {},
                                }
                            } else {
                                assert(body[i] == statements[i - 1]);
                            }
                        }
                    },
                    Err(_) => {},
                }
            },
            Err(_) => {},
        }
    }
}

/// Every successful parse of a function is faithful: the function uses
/// only names that its table holds, it takes no more branch scopes than
/// there are tokens, and written out it gives the tokens back.
pub proof fn lemma_function_faithful(tokens: Seq<Token>)
    ensures
        parse_function(tokens) matches Ok(function) ==> {
            &&& function.declared()
            &&& function.clauses() <= tokens.len()
            &&& lexemes(tokens) == unparse_function(function)
        },
{
    if tokens.len() >= 5 {
        lemma_body_faithful(tokens.skip(5), Frame::empty());
        match parse_function(tokens) {
            Ok(function) => {
                assert(lexemes(tokens) =~= lexemes(tokens.take(5)) + lexemes(tokens.skip(5)));
                assert(lexemes(tokens.take(5)) =~= seq![
                    Lexeme::KeywordInt,
                    Lexeme::Identifier(function.name),
                    Lexeme::OpenParen,
                    Lexeme::CloseParen,
                    Lexeme::OpenBrace,
                ]);
                assert(lexemes(tokens) =~= unparse_function(function));
            },
            Err(_) => {},
        }
    }
}

/// A declaration of a name that the table already holds fails as a
/// duplicate declaration, whatever its initializer.
pub proof fn lemma_duplicate_declaration(tokens: Seq<Token>, frame: Frame)
    requires
        tokens.len() >= 1,
        tokens[0] is KeywordInt,
        parse_declaration(tokens, frame.names()) matches Ok((name, _, _)) && frame.names().contains(
            name@,
        ),
    ensures
        parse_statement(tokens, frame) == Err::<(Stmt, Seq<Token>, Frame), ParseError>(
            ParseError::DuplicateDeclaration(parse_declaration(tokens, frame.names())->Ok_0.0),
        ),
{
}

/// A declaration that is accepted binds a name that the table did not
/// hold, so a second declaration of it in the same function fails.
pub proof fn lemma_declaration_binds(tokens: Seq<Token>, frame: Frame)
    ensures
        parse_statement(tokens, frame) matches Ok((Stmt::Declaration(name, _), _, next))
            ==> !frame.names().contains(name) && next.names().contains(name),
{
}

/// Whether `parsed` is the error of a variable that `names` does not hold.
pub open spec fn undeclared(names: Set<Seq<char>>, parsed: Parsed) -> bool {
    parsed matches Err(ParseError::UndeclaredVariable(name)) && !names.contains(name@)
}

/// Whether `strict`, a parse with the declared names `names`, is what
/// `loose`, the parse of the same tokens with every name declared, allows:
/// the same success if the expression uses only names in `names`, the
/// error of an undeclared variable if it uses another, and upon a syntax
/// error the same error or that of an undeclared variable before it.
pub open spec fn restricts(names: Set<Seq<char>>, strict: Parsed, loose: Parsed) -> bool {
    match loose {
        Ok((expression, _)) => {
            if expression.declared(names) {
                strict == loose
            } else {
                undeclared(names, strict)
            }
        },
        Err(_) => strict == loose || undeclared(names, strict),
    }
}

/// The use of an undeclared variable anywhere in an expression makes its
/// parse fail with the error of an undeclared variable.
pub proof fn lemma_expression_restricts(tokens: Seq<Token>, names: Set<Seq<char>>)
    ensures
        restricts(
            names,
            parse_expression(tokens, names),
            parse_expression(tokens, Set::full()),
        ),
    decreases tokens.len(), 8nat, 0nat,
{
    if assignment_ahead(tokens) {
        lemma_assignment_restricts(tokens, names);
    } else {
        lemma_level_restricts(Level::LogicalOr, tokens, names);
    }
}

/// What holds of an expression holds of an assignment, its target aside.
pub proof fn lemma_assignment_restricts(tokens: Seq<Token>, names: Set<Seq<char>>)
    ensures
        match parse_assignment(tokens, Set::full()) {
            Ok((expression, rest)) => expression matches Expr::Assign(_, value) && (if value
                .declared(names) {
                parse_assignment(tokens, names) == parse_assignment(tokens, Set::full())
            } else {
                undeclared(names, parse_assignment(tokens, names))
            }),
            Err(_) => parse_assignment(tokens, names) == parse_assignment(tokens, Set::full())
                || undeclared(names, parse_assignment(tokens, names)),
        },
    decreases tokens.len(), 7nat, 0nat,
{
    if tokens.len() >= 2 && tokens[0] is Identifier && tokens[1] is Assignment {
        lemma_expression_restricts(tokens.skip(2), names);
    }
}

/// What holds of an expression holds of one in parentheses.
pub proof fn lemma_parenthesized_restricts(tokens: Seq<Token>, names: Set<Seq<char>>)
    ensures
        restricts(
            names,
            parse_parenthesized(tokens, names),
            parse_parenthesized(tokens, Set::full()),
        ),
    decreases tokens.len(), 0nat, 0nat,
{
    if tokens.len() >= 1 && tokens[0] is OpenParen {
        lemma_expression_restricts(tokens.skip(1), names);
    }
}

/// What holds of an expression holds of a unary operation.
pub proof fn lemma_unary_restricts(tokens: Seq<Token>, names: Set<Seq<char>>)
    ensures
        restricts(names, parse_unary(tokens, names), parse_unary(tokens, Set::full())),
    decreases tokens.len(), 0nat, 0nat,
{
    if tokens.len() >= 1 && unary_operator(tokens[0]) is Some {
        lemma_level_restricts(Level::Factor, tokens.skip(1), names);
    }
}

/// What holds of an expression holds of a factor.
pub proof fn lemma_factor_restricts(tokens: Seq<Token>, names: Set<Seq<char>>)
    ensures
        restricts(names, parse_factor(tokens, names), parse_factor(tokens, Set::full())),
    decreases tokens.len(), 0nat, 1nat,
{
    if tokens.len() == 0 {
    } else if tokens[0] is OpenParen {
        lemma_parenthesized_restricts(tokens, names);
    } else if unary_operator(tokens[0]) is Some {
        lemma_unary_restricts(tokens, names);
    }
}

/// What holds of an expression holds of every level.
pub proof fn lemma_level_restricts(level: Level, tokens: Seq<Token>, names: Set<Seq<char>>)
    ensures
        restricts(
            names,
            parse_level(level, tokens, names),
            parse_level(level, tokens, Set::full()),
        ),
    decreases tokens.len(), level.rank(), 2nat,
{
    if level is Factor {
        lemma_factor_restricts(tokens, names);
    } else {
        lemma_level_restricts(level.operand(), tokens, names);
        match parse_level(level.operand(), tokens, Set::full()) {
            Ok((first, rest)) => {
                lemma_level_faithful(level.operand(), tokens, Set::full());
                lemma_chain_restricts(level, first, rest, names);
            },
            Err(_) => {},
        }
    }
}

/// What holds of an expression holds of the rest of a chain. A chain that
/// goes on from an operand with an undeclared variable has one too.
pub proof fn lemma_chain_restricts(
    level: Level,
    left: Expr,
    tokens: Seq<Token>,
    names: Set<Seq<char>>,
)
    ensures
        left.declared(names) ==> restricts(
            names,
            parse_chain(level, left, tokens, names),
            parse_chain(level, left, tokens, Set::full()),
        ),
        parse_chain(level, left, tokens, Set::full()) matches Ok((expression, _))
            ==> expression.declared(names) ==> left.declared(names),
    decreases tokens.len(), level.rank(), 1nat,
{
    if level !is Factor && tokens.len() >= 1 && level.operator(tokens[0]) is Some {
        lemma_level_restricts(level.operand(), tokens.skip(1), names);
        lemma_level_faithful(level.operand(), tokens.skip(1), Set::full());
        match parse_level(level.operand(), tokens.skip(1), Set::full()) {
            Ok((right, rest)) => {
                let operator = level.operator(tokens[0])->0;
                let joined = Expr::Binary(operator, Box::new(left), Box::new(right));
                lemma_chain_restricts(level, joined, rest, names);
            },
            Err(_) => {},
        }
    }
}

/// A body has the declarations of its first statement and those of the
/// rest.
pub proof fn lemma_declarations_first(first: Stmt, rest: Seq<Stmt>)
    ensures
        declarations(seq![first] + rest) == declarations(seq![first]) + declarations(rest),
    decreases rest.len(),
{
    let body = seq![first] + rest;
    if rest.len() == 0 {
        assert(body =~= seq![first]);
    } else {
        lemma_declarations_first(first, rest.drop_last());
        assert(body.drop_last() =~= seq![first] + rest.drop_last());
    }
}

/// A body that is parsed where the table holds `held` variables gives
/// each variable that it declares the slot below those given out before:
/// the slots go down from the frame base in the order of the
/// declarations.
pub proof fn lemma_body_slotted(tokens: Seq<Token>, frame: Frame, held: nat)
    requires
        frame.current_offset == -8 * held,
        8 * (held + tokens.len()) <= i64::MAX,
    ensures
        parse_body(tokens, frame) matches Ok((body, last, _)) ==> {
            &&& last.current_offset == -8 * (held + declarations(body))
            &&& forall|i: int|
                0 <= i < body.len() ==> ((#[trigger] body[i]) matches Stmt::Declaration(name, _)
                    ==> last.slots.contains_key(name) && last.slots[name] == -8 * (held
                    + declarations(body.take(i)) + 1))
        },
    decreases tokens.len(),
{
    if tokens.len() == 0 {
    } else if tokens[0] is CloseBrace {
    } else {
        lemma_statement_faithful(tokens, frame);
        match parse_statement(tokens, frame) {
            Ok((statement, rest, next)) => {
                let more: nat = if statement is Declaration {
                    1
                } else {
                    0
                };
                assert(declarations(seq![statement]) == more) by {
                    assert(seq![statement].drop_last() =~= Seq::<Stmt>::empty());
                    assert(declarations(Seq::<Stmt>::empty()) == 0);
                }
                lemma_body_slotted(rest, next, held + more);
                lemma_body_faithful(rest, next);
                match parse_body(rest, next) {
                    Ok((statements, last, after)) => {
                        let body = seq![statement] + statements;
                        lemma_declarations_first(statement, statements);
                        assert forall|i: int| 0 <= i < body.len() implies ((
                        #[trigger] body[i]) matches Stmt::Declaration(name, _)
                            ==> last.slots.contains_key(name) && last.slots[name] == -8 * (held
                            + declarations(body.take(i)) + 1)) by {
                            if i == 0 {
                                assert(body.take(0) =~= Seq::<Stmt>::empty());
                                if statement is Declaration {
                                    assert(next.slots.contains_key(statement->Declaration_0));
                                }
                            } else {
                                assert(body[i] == statements[i - 1]);
                                assert(body.take(i) =~= seq![statement] + statements.take(i - 1));
                                lemma_declarations_first(statement, statements.take(i - 1));
                            }
                        }
                    },
                    Err(_) => {},
                }
            },
            Err(_) => {},
        }
    }
}

/// A function that is parsed has its variables in slots that go down from
/// the frame base in the order of their declarations, one slot each.
pub proof fn lemma_function_slotted(tokens: Seq<Token>)
    requires
        tokens.len() <= MAX_TOKENS,
    ensures
        parse_function(tokens) matches Ok(function) ==> slotted(
            function.body,
            function.frame.slots,
        ),
{
    if tokens.len() >= 5 {
        lemma_body_slotted(tokens.skip(5), Frame::empty(), 0);
    }
}

} // verus!
