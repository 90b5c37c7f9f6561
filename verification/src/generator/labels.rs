//! The branch labels of generated code.
//!
//! Code that starts where `label` scopes are taken and takes `count` more
//! marks no label twice, marks only labels numbered from `label` up to
//! `label + count`, and jumps only to labels that it marks itself.

use vstd::prelude::*;
use crate::emitter::Register::{Rax, Rcx};
use crate::emitter::{epilogue, prologue, Instruction, Label, Operand};
use crate::generator::code::{
    advance, body_code, branch_code, combine_code, expression_code, fallthrough_code,
    function_code, operation_code, settle_code, slot, statement_code, unary_code,
};
use crate::parser::syntax::{body_clauses, BinaryOperator, Expr, FunctionModel, Stmt};

verus! {

/// The label that an instruction jumps to, if it is a jump.
pub open spec fn target(instruction: Instruction) -> Option<Label> {
    match instruction {
        Instruction::Jmp(label) => Some(label),
        Instruction::Je(label) => Some(label),
        Instruction::Jne(label) => Some(label),
        _ => None,
    }
}

/// Whether `code` marks `label` somewhere.
pub open spec fn marks(code: Seq<Instruction>, label: Label) -> bool {
    exists|i: int| 0 <= i < code.len() && #[trigger] code[i] == Instruction::Mark(label)
}

/// Whether no two places of `code` mark the same label.
pub open spec fn marks_once(code: Seq<Instruction>) -> bool {
    forall|i: int, j: int|
        0 <= i < j < code.len() && (#[trigger] code[i]) is Mark ==> code[i] != #[trigger] code[j]
}

/// Whether every label that `code` marks is numbered from `low` up to, but
/// not including, `high`.
pub open spec fn marks_within(code: Seq<Instruction>, low: int, high: int) -> bool {
    forall|i: int|
        0 <= i < code.len() ==> ((#[trigger] code[i]) matches Instruction::Mark(label) ==> low
            <= label.count() < high)
}

/// Whether every jump of `code` goes to a label that `code` marks.
pub open spec fn closed(code: Seq<Instruction>) -> bool {
    forall|i: int|
        0 <= i < code.len() ==> (target(#[trigger] code[i]) matches Some(label) ==> marks(
            code,
            label,
        ))
}

/// Whether `code` is sound in its labels, as code that takes the scopes
/// numbered from `low` up to `high`.
pub open spec fn labelled(code: Seq<Instruction>, low: int, high: int) -> bool {
    &&& marks_once(code)
    &&& marks_within(code, low, high)
    &&& closed(code)
}

/// Whether `code` neither marks a label nor jumps.
pub open spec fn plain(code: Seq<Instruction>) -> bool {
    forall|i: int| 0 <= i < code.len() ==> (#[trigger] code[i]) !is Mark && target(code[i]) is None
}

/// Code without labels and jumps is sound in its labels, whatever the
/// range.
pub proof fn lemma_plain_labelled(code: Seq<Instruction>, low: int, high: int)
    requires
        plain(code),
    ensures
        labelled(code, low, high),
{
}

/// Two pieces of code that are sound in their labels, the first in a range
/// that ends where the range of the second begins, are sound in a row.
pub proof fn lemma_labelled_concat(
    first: Seq<Instruction>,
    second: Seq<Instruction>,
    low: int,
    middle: int,
    high: int,
)
    requires
        labelled(first, low, middle),
        labelled(second, middle, high),
        low <= middle <= high,
    ensures
        labelled(first + second, low, high),
{
    let code = first + second;
    assert forall|i: int, j: int|
        0 <= i < j < code.len() && (#[trigger] code[i]) is Mark implies code[i]
        != #[trigger] code[j] by {
        if j < first.len() {
            assert(code[i] == first[i] && code[j] == first[j]);
        } else if i >= first.len() {
            assert(code[i] == second[i - first.len()] && code[j] == second[j - first.len()]);
        } else {
            assert(code[i] == first[i] && code[j] == second[j - first.len()]);
        }
    }
    assert forall|i: int| 0 <= i < code.len() implies (target(#[trigger] code[i]) matches Some(
        label,
    ) ==> marks(code, label)) by {
        if target(code[i]) is Some {
            let label = target(code[i])->0;
            if i < first.len() {
                assert(code[i] == first[i]);
                let k = choose|k: int|
                    0 <= k < first.len() && #[trigger] first[k] == Instruction::Mark(label);
                assert(code[k] == Instruction::Mark(label));
            } else {
                assert(code[i] == second[i - first.len()]);
                let k = choose|k: int|
                    0 <= k < second.len() && #[trigger] second[k] == Instruction::Mark(label);
                assert(code[k + first.len()] == Instruction::Mark(label));
            }
        }
    }
    assert forall|i: int| 0 <= i < code.len() implies ((#[trigger] code[i]) matches
    Instruction::Mark(label) ==> low <= label.count() < high) by {
        if i < first.len() {
            assert(code[i] == first[i]);
        } else {
            assert(code[i] == second[i - first.len()]);
        }
    }
}

/// The code of a short-circuit operator is sound in its labels if the code
/// of its right operand is: the scope of the operator has the number
/// before those of the operand.
pub proof fn lemma_branch_labelled(
    operator: BinaryOperator,
    value: Seq<Instruction>,
    clause: i64,
    high: int,
)
    requires
        operator.short_circuits(),
        labelled(value, clause + 1, high),
        clause + 1 <= high,
    ensures
        labelled(branch_code(operator, clause) + value + settle_code(clause), clause as int, high),
{
    let branch = branch_code(operator, clause);
    let settle = settle_code(clause);
    let code = branch + value + settle;
    let start = Instruction::Mark(Label::Start(clause));
    let end = Instruction::Mark(Label::End(clause));
    let begin = branch.len() - 1;
    let last = code.len() - 1;
    assert(code[begin] == branch[begin]);
    assert(code[begin] == start);
    assert(settle.len() == 4);
    assert(code[last] == settle[3]);
    assert(code[last] == end);
    assert forall|i: int| 0 <= i < code.len() && i != begin && i != last implies ((
    #[trigger] code[i]) matches Instruction::Mark(label) ==> clause + 1 <= label.count() < high
        && branch.len() <= i < branch.len() + value.len()) by {
        if i < branch.len() {
            assert(code[i] == branch[i]);
        } else if i < branch.len() + value.len() {
            assert(code[i] == value[i - branch.len()]);
        } else {
            assert(code[i] == settle[i - branch.len() - value.len()]);
        }
    }
    assert forall|i: int, j: int|
        0 <= i < j < code.len() && (#[trigger] code[i]) is Mark implies code[i]
        != #[trigger] code[j] by {
        if i != begin && i != last && j != begin && j != last && code[j] is Mark {
            assert(code[i] == value[i - branch.len()]);
            assert(code[j] == value[j - branch.len()]);
        }
    }
    assert forall|i: int| 0 <= i < code.len() implies (target(#[trigger] code[i]) matches Some(
        label,
    ) ==> marks(code, label)) by {
        if target(code[i]) is Some {
            let label = target(code[i])->0;
            if i < branch.len() {
                assert(code[i] == branch[i]);
                assert(label == Label::Start(clause) || label == Label::End(clause));
            } else if i < branch.len() + value.len() {
                assert(code[i] == value[i - branch.len()]);
                let k = choose|k: int|
                    0 <= k < value.len() && #[trigger] value[k] == Instruction::Mark(label);
                assert(code[k + branch.len()] == Instruction::Mark(label));
            } else {
                assert(code[i] == settle[i - branch.len() - value.len()]);
            }
        }
    }
}

/// The number of branch scopes that a binary operation takes beside those
/// of its left operand.
pub open spec fn operation_clauses(operator: BinaryOperator, right: Expr) -> nat {
    if operator.short_circuits() {
        right.clauses() + 1
    } else {
        right.clauses()
    }
}

/// The code of an expression is sound in its labels: it takes the scopes
/// numbered from `label` on, one for each short-circuit operator, so no
/// two of its operators share a label, however they are nested.
pub proof fn lemma_expression_labelled(expression: Expr, slots: Map<Seq<char>, i64>, label: i64)
    requires
        label + expression.clauses() <= i64::MAX,
    ensures
        labelled(
            expression_code(expression, slots, label),
            label as int,
            label + expression.clauses(),
        ),
    decreases expression, 0nat,
{
    let high = label + expression.clauses();
    match expression {
        Expr::Constant(_) => {},
        Expr::Variable(_) => {},
        Expr::Group(inner) => {
            lemma_expression_labelled(*inner, slots, label);
        },
        Expr::Unary(operator, operand) => {
            lemma_expression_labelled(*operand, slots, label);
            lemma_plain_labelled(unary_code(operator), high, high);
            lemma_labelled_concat(
                expression_code(*operand, slots, label),
                unary_code(operator),
                label as int,
                high,
                high,
            );
        },
        Expr::Binary(operator, left, right) => {
            let middle = advance(label, left.clauses());
            lemma_expression_labelled(*left, slots, label);
            lemma_operation_labelled(operator, *right, slots, middle);
            lemma_labelled_concat(
                expression_code(*left, slots, label),
                operation_code(operator, *right, slots, middle),
                label as int,
                middle as int,
                high,
            );
        },
        Expr::Assign(name, value) => {
            lemma_expression_labelled(*value, slots, label);
            let code = expression_code(*value, slots, label);
            let store = seq![Instruction::Mov(Operand::Register(Rax), slot(slots, name))];
            lemma_plain_labelled(store, high, high);
            lemma_labelled_concat(code, store, label as int, high, high);
            assert(code + store =~= expression_code(expression, slots, label));
        },
    }
}

/// The code of a binary operation after its left operand is sound in its
/// labels.
pub proof fn lemma_operation_labelled(
    operator: BinaryOperator,
    right: Expr,
    slots: Map<Seq<char>, i64>,
    label: i64,
)
    requires
        label + operation_clauses(operator, right) <= i64::MAX,
    ensures
        labelled(
            operation_code(operator, right, slots, label),
            label as int,
            label + operation_clauses(operator, right),
        ),
    decreases right, 1nat,
{
    let high = label + operation_clauses(operator, right);
    if operator.short_circuits() {
        lemma_expression_labelled(right, slots, advance(label, 1));
        lemma_branch_labelled(
            operator,
            expression_code(right, slots, advance(label, 1)),
            label,
            high,
        );
    } else {
        lemma_expression_labelled(right, slots, label);
        let save = seq![Instruction::Push(Operand::Register(Rax))];
        let value = expression_code(right, slots, label);
        let restore = seq![Instruction::Pop(Operand::Register(Rcx))];
        lemma_plain_labelled(save, label as int, label as int);
        lemma_labelled_concat(save, value, label as int, label as int, high);
        lemma_plain_labelled(restore, high, high);
        lemma_labelled_concat(save + value, restore, label as int, high, high);
        lemma_plain_labelled(combine_code(operator), high, high);
        lemma_labelled_concat(
            save + value + restore,
            combine_code(operator),
            label as int,
            high,
            high,
        );
    }
}

/// The code of a statement is sound in its labels.
pub proof fn lemma_statement_labelled(statement: Stmt, slots: Map<Seq<char>, i64>, label: i64)
    requires
        label + statement.clauses() <= i64::MAX,
    ensures
        labelled(
            statement_code(statement, slots, label),
            label as int,
            label + statement.clauses(),
        ),
{
    let high = label + statement.clauses();
    match statement {
        Stmt::Return(value) => {
            lemma_expression_labelled(value, slots, label);
            lemma_plain_labelled(epilogue(), high, high);
            lemma_labelled_concat(
                expression_code(value, slots, label),
                epilogue(),
                label as int,
                high,
                high,
            );
        },
        Stmt::Expression(value) => {
            lemma_expression_labelled(value, slots, label);
        },
        Stmt::Declaration(_, Some(value)) => {
            lemma_expression_labelled(value, slots, label);
            let code = expression_code(value, slots, label);
            let push = seq![Instruction::Push(Operand::Register(Rax))];
            lemma_plain_labelled(push, high, high);
            lemma_labelled_concat(code, push, label as int, high, high);
            assert(code + push =~= statement_code(statement, slots, label));
        },
        Stmt::Declaration(_, None) => {},
    }
}

/// The code of a sequence of statements is sound in its labels.
pub proof fn lemma_body_labelled(body: Seq<Stmt>, slots: Map<Seq<char>, i64>, label: i64)
    requires
        label + body_clauses(body) <= i64::MAX,
    ensures
        labelled(body_code(body, slots, label), label as int, label + body_clauses(body)),
    decreases body.len(),
{
    if body.len() > 0 {
        let middle = advance(label, body_clauses(body.drop_last()));
        lemma_body_labelled(body.drop_last(), slots, label);
        lemma_statement_labelled(body.last(), slots, middle);
        lemma_labelled_concat(
            body_code(body.drop_last(), slots, label),
            statement_code(body.last(), slots, middle),
            label as int,
            middle as int,
            label + body_clauses(body),
        );
    }
}

/// The code of a function is sound in its labels: no label is marked
/// twice, and every jump goes to a label that the function marks.
pub proof fn lemma_function_labelled(function: FunctionModel, label: i64)
    requires
        label + function.clauses() <= i64::MAX,
    ensures
        labelled(function_code(function, label), label as int, label + function.clauses()),
{
    let high = label + function.clauses();
    let body = body_code(function.body, function.frame.slots, label);
    lemma_body_labelled(function.body, function.frame.slots, label);
    lemma_plain_labelled(prologue(function.name), label as int, label as int);
    lemma_labelled_concat(prologue(function.name), body, label as int, label as int, high);
    lemma_plain_labelled(fallthrough_code(function.body), high, high);
    lemma_labelled_concat(
        prologue(function.name) + body,
        fallthrough_code(function.body),
        label as int,
        high,
        high,
    );
}

} // verus!
