//! The code of each construct of the source language, as a sequence of
//! instructions.
//!
//! The value of an expression is left in the accumulator, `%rax`. A binary
//! operator saves its left operand on the machine stack while the right one
//! is evaluated, and restores it into the scratch register, `%rcx`. A
//! short-circuit operator takes one branch scope, numbered by the count of
//! the scopes taken before it.

use vstd::prelude::*;
use crate::emitter::Operand::Immediate;
use crate::emitter::Register::{Al, Rax, Rbp, Rcx, Rdx};
use crate::emitter::{epilogue, prologue, Condition, Instruction, Label, Operand, RegisterOffset};
use crate::parser::factor::UnaryOperator;
use crate::parser::syntax::{body_clauses, BinaryOperator, Expr, FunctionModel, Stmt};

verus! {

/// The number `count` scopes after `label`.
pub open spec fn advance(label: i64, count: nat) -> i64 {
    (label + count) as i64
}

/// The stack slot of the variable called `name`.
pub open spec fn slot(slots: Map<Seq<char>, i64>, name: Seq<char>) -> Operand {
    Operand::Memory(RegisterOffset { register: Rbp, offset: slots[name] })
}

/// Replaces the accumulator by 1 if it compares to zero as `condition`
/// says, and by 0 if not.
pub open spec fn test_code(condition: Condition) -> Seq<Instruction> {
    seq![
        Instruction::Cmp(Immediate(0), Operand::Register(Rax)),
        Instruction::Mov(Immediate(0), Operand::Register(Rax)),
        Instruction::SetByte(condition, Operand::Register(Al)),
    ]
}

/// Replaces the accumulator by 1 if the saved left operand compares to it
/// as `condition` says, and by 0 if not.
pub open spec fn compare_code(condition: Condition) -> Seq<Instruction> {
    seq![
        Instruction::Cmp(Operand::Register(Rax), Operand::Register(Rcx)),
        Instruction::Mov(Immediate(0), Operand::Register(Rax)),
        Instruction::SetByte(condition, Operand::Register(Al)),
    ]
}

/// Applies a unary operator to the accumulator.
pub open spec fn unary_code(operator: UnaryOperator) -> Seq<Instruction> {
    match operator {
        UnaryOperator::Negation => seq![Instruction::Neg(Operand::Register(Rax))],
        UnaryOperator::BitwiseComplement => seq![Instruction::Not(Operand::Register(Rax))],
        UnaryOperator::LogicalNegation => test_code(Condition::Equal),
    }
}

/// Combines the left operand, in the scratch register, with the right one,
/// in the accumulator.
///
/// Subtraction takes the right operand from the left one in the scratch
/// register and moves the difference to the accumulator. Division moves the
/// left operand to the accumulator and the right one to the scratch
/// register, clears the high half of the dividend, and divides.
pub open spec fn combine_code(operator: BinaryOperator) -> Seq<Instruction> {
    match operator {
        BinaryOperator::Addition => seq![
            Instruction::Add(Operand::Register(Rcx), Operand::Register(Rax)),
        ],
        BinaryOperator::Subtraction => seq![
            Instruction::Sub(Operand::Register(Rax), Operand::Register(Rcx)),
            Instruction::Mov(Operand::Register(Rcx), Operand::Register(Rax)),
        ],
        BinaryOperator::Multiplication => seq![
            Instruction::Imul(Operand::Register(Rcx), Operand::Register(Rax)),
        ],
        BinaryOperator::Division => seq![
            Instruction::Mov(Operand::Register(Rcx), Operand::Register(Rdx)),
            Instruction::Mov(Operand::Register(Rax), Operand::Register(Rcx)),
            Instruction::Mov(Operand::Register(Rdx), Operand::Register(Rax)),
            Instruction::Mov(Immediate(0), Operand::Register(Rdx)),
            Instruction::Idiv(Operand::Register(Rcx)),
        ],
        BinaryOperator::Equal => compare_code(Condition::Equal),
        BinaryOperator::NotEqual => compare_code(Condition::NotEqual),
        BinaryOperator::LessThan => compare_code(Condition::Less),
        BinaryOperator::LessThanOrEqual => compare_code(Condition::LessOrEqual),
        BinaryOperator::GreaterThan => compare_code(Condition::Greater),
        BinaryOperator::GreaterThanOrEqual => compare_code(Condition::GreaterOrEqual),
        BinaryOperator::Or => Seq::empty(),
        BinaryOperator::And => Seq::empty(),
    }
}

/// The branch of a short-circuit operator, between its operands, in the
/// scope numbered `clause`.
///
/// For `||`, a left operand that is not zero makes the result 1 and skips
/// to the end of the scope. For `&&`, a left operand that is zero is the
/// result and skips to the end of the scope. Otherwise control reaches the
/// start of the scope, where the right operand follows.
pub open spec fn branch_code(operator: BinaryOperator, clause: i64) -> Seq<Instruction> {
    if operator is Or {
        seq![
            Instruction::Cmp(Immediate(0), Operand::Register(Rax)),
            Instruction::Je(Label::Start(clause)),
            Instruction::Mov(Immediate(1), Operand::Register(Rax)),
            Instruction::Jmp(Label::End(clause)),
            Instruction::Mark(Label::Start(clause)),
        ]
    } else {
        seq![
            Instruction::Cmp(Immediate(0), Operand::Register(Rax)),
            Instruction::Jne(Label::Start(clause)),
            Instruction::Jmp(Label::End(clause)),
            Instruction::Mark(Label::Start(clause)),
        ]
    }
}

/// What follows the right operand of a short-circuit operator: its value
/// becomes 0 or 1, and the scope ends.
pub open spec fn settle_code(clause: i64) -> Seq<Instruction> {
    test_code(Condition::NotEqual).push(Instruction::Mark(Label::End(clause)))
}

/// The code of a binary operation whose left operand has just been
/// evaluated, where `label` scopes are taken so far.
pub open spec fn operation_code(
    operator: BinaryOperator,
    right: Expr,
    slots: Map<Seq<char>, i64>,
    label: i64,
) -> Seq<Instruction>
    decreases right, 1nat,
{
    if operator.short_circuits() {
        branch_code(operator, label) + expression_code(right, slots, advance(label, 1))
            + settle_code(label)
    } else {
        seq![Instruction::Push(Operand::Register(Rax))] + expression_code(right, slots, label)
            + seq![Instruction::Pop(Operand::Register(Rcx))] + combine_code(operator)
    }
}

/// The code that evaluates `expression` into the accumulator, where
/// `label` scopes are taken before it.
pub open spec fn expression_code(
    expression: Expr,
    slots: Map<Seq<char>, i64>,
    label: i64,
) -> Seq<Instruction>
    decreases expression, 0nat,
{
    match expression {
        Expr::Constant(value) => seq![Instruction::Mov(Immediate(value), Operand::Register(Rax))],
        Expr::Variable(name) => seq![Instruction::Mov(slot(slots, name), Operand::Register(Rax))],
        Expr::Group(inner) => expression_code(*inner, slots, label),
        Expr::Unary(operator, operand) => expression_code(*operand, slots, label) + unary_code(
            operator,
        ),
        Expr::Binary(operator, left, right) => expression_code(*left, slots, label)
            + operation_code(operator, *right, slots, advance(label, left.clauses())),
        Expr::Assign(name, value) => expression_code(*value, slots, label).push(
            Instruction::Mov(Operand::Register(Rax), slot(slots, name)),
        ),
    }
}

/// The code of a statement, where `label` scopes are taken before it.
///
/// A return statement leaves the function at once: the epilogue and the
/// return follow its value. A declaration pushes the initial value of the
/// variable, zero where it has no initializer, which makes its slot.
pub open spec fn statement_code(
    statement: Stmt,
    slots: Map<Seq<char>, i64>,
    label: i64,
) -> Seq<Instruction> {
    match statement {
        Stmt::Return(value) => expression_code(value, slots, label) + epilogue(),
        Stmt::Expression(value) => expression_code(value, slots, label),
        Stmt::Declaration(_, Some(value)) => expression_code(value, slots, label).push(
            Instruction::Push(Operand::Register(Rax)),
        ),
        Stmt::Declaration(_, None) => seq![
            Instruction::Mov(Immediate(0), Operand::Register(Rax)),
            Instruction::Push(Operand::Register(Rax)),
        ],
    }
}

/// The code of the statements in order, where `label` scopes are taken
/// before them.
pub open spec fn body_code(body: Seq<Stmt>, slots: Map<Seq<char>, i64>, label: i64) -> Seq<
    Instruction,
>
    decreases body.len(),
{
    if body.len() == 0 {
        Seq::empty()
    } else {
        body_code(body.drop_last(), slots, label) + statement_code(
            body.last(),
            slots,
            advance(label, body_clauses(body.drop_last())),
        )
    }
}

/// Whether the last statement is a return.
pub open spec fn ends_in_return(body: Seq<Stmt>) -> bool {
    body.len() > 0 && body.last() is Return
}

/// What follows the statements of a function: nothing where the last one
/// returns, else the return of zero.
pub open spec fn fallthrough_code(body: Seq<Stmt>) -> Seq<Instruction> {
    if ends_in_return(body) {
        Seq::empty()
    } else {
        seq![Instruction::Mov(Immediate(0), Operand::Register(Rax))] + epilogue()
    }
}

/// The code of a function, where `label` scopes are taken before it: the
/// prologue, the statements, and the return of zero where the statements
/// do not end in a return.
pub open spec fn function_code(function: FunctionModel, label: i64) -> Seq<Instruction> {
    prologue(function.name) + body_code(function.body, function.frame.slots, label)
        + fallthrough_code(function.body)
}

} // verus!
