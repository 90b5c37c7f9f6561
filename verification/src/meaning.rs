//! What an expression of the source language means: its value and what it
//! leaves in the variables.
//!
//! Values are signed 64-bit words and arithmetic wraps. Division rounds
//! toward zero. The operators `||` and `&&` evaluate their right operand
//! only where the left one does not decide the result. An assignment is an
//! expression: its value is the value assigned.

use vstd::prelude::*;
use crate::machine::{fits, quotient, wrap};
use crate::parser::factor::UnaryOperator;
use crate::parser::syntax::{BinaryOperator, Expr, FunctionModel, Stmt};

verus! {

/// What the variables hold, by name.
pub type Store = Map<Seq<char>, int>;

/// The outcome of an evaluation: the value of the expression, and what the
/// variables hold after it.
pub struct Evaluated {
    pub value: int,
    pub store: Store,
}

/// The word that stands for a truth value.
pub open spec fn truth(holds: bool) -> int {
    if holds {
        1
    } else {
        0
    }
}

/// The value of a unary operation.
pub open spec fn apply_unary(operator: UnaryOperator, operand: int) -> int {
    match operator {
        UnaryOperator::Negation => wrap(-operand),
        UnaryOperator::BitwiseComplement => -operand - 1,
        UnaryOperator::LogicalNegation => truth(operand == 0),
    }
}

/// The value of a binary operation that evaluates both operands, where it
/// has one: a division by zero has none, and neither has one whose
/// quotient is no signed word.
pub open spec fn apply_binary(operator: BinaryOperator, left: int, right: int) -> Option<int> {
    match operator {
        BinaryOperator::Addition => Some(wrap(left + right)),
        BinaryOperator::Subtraction => Some(wrap(left - right)),
        BinaryOperator::Multiplication => Some(wrap(left * right)),
        BinaryOperator::Division => {
            if right == 0 || !fits(quotient(left, right)) {
                None
            } else {
                Some(quotient(left, right))
            }
        },
        BinaryOperator::Equal => Some(truth(left == right)),
        BinaryOperator::NotEqual => Some(truth(left != right)),
        BinaryOperator::LessThan => Some(truth(left < right)),
        BinaryOperator::LessThanOrEqual => Some(truth(left <= right)),
        BinaryOperator::GreaterThan => Some(truth(left > right)),
        BinaryOperator::GreaterThanOrEqual => Some(truth(left >= right)),
        BinaryOperator::Or => Some(truth(left != 0 || right != 0)),
        BinaryOperator::And => Some(truth(left != 0 && right != 0)),
    }
}

/// Whether the left operand of a short-circuit operator decides the
/// result, so that the right operand is not evaluated.
pub open spec fn decides(operator: BinaryOperator, left: int) -> bool {
    (operator is Or && left != 0) || (operator is And && left == 0)
}

/// The value of `expression` where the variables hold `store`, and what
/// they hold after it. There is none where a variable is not in `store` or
/// a division has no value.
pub open spec fn evaluate(expression: Expr, store: Store) -> Option<Evaluated>
    decreases expression,
{
    match expression {
        Expr::Constant(value) => Some(Evaluated { value: value as int, store }),
        Expr::Variable(name) => {
            if store.contains_key(name) {
                Some(Evaluated { value: store[name], store })
            } else {
                None
            }
        },
        Expr::Group(inner) => evaluate(*inner, store),
        Expr::Unary(operator, operand) => match evaluate(*operand, store) {
            Some(found) => Some(
                Evaluated { value: apply_unary(operator, found.value), store: found.store },
            ),
            None => None,
        },
        Expr::Binary(operator, left, right) => match evaluate(*left, store) {
            Some(first) => {
                if decides(operator, first.value) {
                    Some(Evaluated { value: truth(operator is Or), store: first.store })
                } else {
                    match evaluate(*right, first.store) {
                        Some(second) => match apply_binary(operator, first.value, second.value) {
                            Some(value) => Some(Evaluated { value, store: second.store }),
                            None => None,
                        },
                        None => None,
                    }
                }
            },
            None => None,
        },
        Expr::Assign(name, value) => match evaluate(*value, store) {
            Some(found) => {
                if found.store.contains_key(name) {
                    Some(
                        Evaluated {
                            value: found.value,
                            store: found.store.insert(name, found.value),
                        },
                    )
                } else {
                    None
                }
            },
            None => None,
        },
    }
}

/// Whether every division that the evaluation of `expression` comes to has
/// a dividend that is not negative.
///
/// The generated code clears the high half of the dividend, so it divides
/// as the source language does only where the dividend is not negative.
pub open spec fn dividends_natural(expression: Expr, store: Store) -> bool
    decreases expression,
{
    match expression {
        Expr::Constant(_) => true,
        Expr::Variable(_) => true,
        Expr::Group(inner) => dividends_natural(*inner, store),
        Expr::Unary(_, operand) => dividends_natural(*operand, store),
        Expr::Binary(operator, left, right) => dividends_natural(*left, store) && (match evaluate(
            *left,
            store,
        ) {
            Some(first) => decides(operator, first.value) || (dividends_natural(
                *right,
                first.store,
            ) && (operator is Division ==> first.value >= 0)),
            None => true,
        }),
        Expr::Assign(_, value) => dividends_natural(*value, store),
    }
}

/// Whether every variable holds a signed word.
pub open spec fn words(store: Store) -> bool {
    forall|name: Seq<char>| store.contains_key(name) ==> fits(#[trigger] store[name])
}

/// An evaluation leaves the same variables, each with a signed word, and
/// its value is a signed word.
pub proof fn lemma_evaluate_words(expression: Expr, store: Store)
    requires
        words(store),
    ensures
        evaluate(expression, store) matches Some(found) ==> fits(found.value) && words(
            found.store,
        ) && found.store.dom() == store.dom(),
    decreases expression,
{
    match expression {
        Expr::Constant(_) => {},
        Expr::Variable(_) => {},
        Expr::Group(inner) => lemma_evaluate_words(*inner, store),
        Expr::Unary(_, operand) => lemma_evaluate_words(*operand, store),
        Expr::Binary(_, left, right) => {
            lemma_evaluate_words(*left, store);
            match evaluate(*left, store) {
                Some(first) => lemma_evaluate_words(*right, first.store),
                None => {},
            }
        },
        Expr::Assign(name, value) => {
            lemma_evaluate_words(*value, store);
            match evaluate(*value, store) {
                Some(found) => {
                    if found.store.contains_key(name) {
                        assert(found.store.insert(name, found.value).dom() =~= found.store.dom());
                    }
                },
                None => {},
            }
        },
    }
}

/// How a statement ends: control goes on to the next statement, with what
/// the variables hold, or it leaves the function with a value.
pub enum Flow {
    Goes(Store),
    Leaves(int),
}

/// What a statement does where the variables hold `store`. There is no
/// outcome where its expression has no value or it declares a variable a
/// second time. A variable that is declared without a value holds zero.
pub open spec fn execute(statement: Stmt, store: Store) -> Option<Flow> {
    match statement {
        Stmt::Return(value) => match evaluate(value, store) {
            Some(found) => Some(Flow::Leaves(found.value)),
            None => None,
        },
        Stmt::Expression(value) => match evaluate(value, store) {
            Some(found) => Some(Flow::Goes(found.store)),
            None => None,
        },
        Stmt::Declaration(name, Some(value)) => match evaluate(value, store) {
            Some(found) => {
                if store.contains_key(name) {
                    None
                } else {
                    Some(Flow::Goes(found.store.insert(name, found.value)))
                }
            },
            None => None,
        },
        Stmt::Declaration(name, None) => {
            if store.contains_key(name) {
                None
            } else {
                Some(Flow::Goes(store.insert(name, 0)))
            }
        },
    }
}

/// The value with which the statements of `body` from the place `from` on
/// leave the function. The first return statement that is come to gives
/// the value; where there is none, the value is zero.
pub open spec fn run(body: Seq<Stmt>, from: int, store: Store) -> Option<int>
    decreases body.len() - from,
{
    if from < 0 || from >= body.len() {
        Some(0)
    } else {
        match execute(body[from], store) {
            Some(Flow::Leaves(value)) => Some(value),
            Some(Flow::Goes(next)) => run(body, from + 1, next),
            None => None,
        }
    }
}

/// The value that a function returns.
pub open spec fn result(function: FunctionModel) -> Option<int> {
    run(function.body, 0, Map::empty())
}

/// Whether every division that the statements of `body` from the place
/// `from` on come to has a dividend that is not negative.
pub open spec fn body_dividends_natural(body: Seq<Stmt>, from: int, store: Store) -> bool
    decreases body.len() - from,
{
    if from < 0 || from >= body.len() {
        true
    } else {
        (match body[from].expression() {
            Some(value) => dividends_natural(value, store),
            None => true,
        }) && (match execute(body[from], store) {
            Some(Flow::Goes(next)) => body_dividends_natural(body, from + 1, next),
            _ => true,
        })
    }
}

} // verus!
