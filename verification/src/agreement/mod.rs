//! The generated code does what the source means.
//!
//! Run on the model of the machine, the code of an expression comes to its
//! end with the value of the expression in the accumulator and the values
//! of the variables in their stack slots, wherever the expression has a
//! value and no division has a negative dividend.

use vstd::prelude::*;

pub mod function;

use crate::emitter::Register::{Rax, Rcx};
use crate::emitter::{Condition, Instruction, Label, Operand};
use crate::generator::code::{
    advance, branch_code, combine_code, compare_code, expression_code, operation_code,
    settle_code, slot, test_code, unary_code,
};
use crate::generator::labels::marks_once;
use crate::machine::{
    fits, holds, lemma_reaches_next, lemma_reaches_self, lemma_reaches_then, position, quotient,
    reaches, step, unsigned, word, wrap, Machine, Outcome,
};
use crate::meaning::{
    apply_binary, apply_unary, decides, dividends_natural, evaluate, lemma_evaluate_words, truth,
    words, Evaluated, Store,
};
use crate::parser::factor::UnaryOperator;
use crate::parser::syntax::{BinaryOperator, Expr};

verus! {

/// Whether `piece` stands in `code` from the position `at` on.
pub open spec fn placed(code: Seq<Instruction>, at: int, piece: Seq<Instruction>) -> bool {
    &&& 0 <= at
    &&& at + piece.len() <= code.len()
    &&& forall|i: int| 0 <= i < piece.len() ==> code[at + i] == #[trigger] piece[i]
}

/// Where two pieces in a row stand in the code, each of them stands.
pub proof fn lemma_placed_parts(
    code: Seq<Instruction>,
    at: int,
    first: Seq<Instruction>,
    second: Seq<Instruction>,
)
    requires
        placed(code, at, first + second),
    ensures
        placed(code, at, first),
        placed(code, at + first.len(), second),
{
    let whole = first + second;
    assert forall|i: int| 0 <= i < first.len() implies code[at + i] == #[trigger] first[i] by {
        assert(whole[i] == first[i]);
    }
    assert forall|i: int| 0 <= i < second.len() implies code[at + first.len() + i]
        == #[trigger] second[i] by {
        assert(whole[first.len() + i] == second[i]);
    }
}

/// In code that marks no label twice, a jump to a label goes to the place
/// that marks it.
pub proof fn lemma_position(code: Seq<Instruction>, label: Label, place: int)
    requires
        marks_once(code),
        0 <= place < code.len(),
        code[place] == Instruction::Mark(label),
    ensures
        position(code, label) == Some(place),
{
    let found = choose|i: int|
        0 <= i < code.len() && #[trigger] code[i] == Instruction::Mark(label);
    if found < place {
        assert(code[found] != code[place]);
    } else if place < found {
        assert(code[place] != code[found]);
    }
}

/// Whether the machine holds the variables of `store` in their stack
/// slots: each variable has a slot of its own, no slot lies below the top
/// of the stack, and the word in the slot is the value of the variable.
pub open spec fn laid_out(machine: Machine, slots: Map<Seq<char>, i64>, store: Store) -> bool {
    &&& words(store)
    &&& forall|name: Seq<char>| #[trigger]
        store.contains_key(name) ==> {
            &&& slots.contains_key(name)
            &&& machine.rsp <= machine.rbp + slots[name]
            &&& machine.memory.contains_key(machine.rbp + slots[name])
            &&& machine.memory[machine.rbp + slots[name]] == store[name]
        }
    &&& forall|a: Seq<char>, b: Seq<char>|
        #![trigger store.contains_key(a), store.contains_key(b)]
        store.contains_key(a) && store.contains_key(b) && slots[a] == slots[b] ==> a == b
}

/// Whether `address` is the slot of a variable of `store`.
pub open spec fn is_slot(
    machine: Machine,
    slots: Map<Seq<char>, i64>,
    store: Store,
    address: int,
) -> bool {
    exists|name: Seq<char>| #[trigger]
        store.contains_key(name) && machine.rbp + slots[name] == address
}

/// Whether the run from `before` to `after` kept the stack: the two stack
/// registers are as they were, and so is every word from the top of the
/// stack up that is not the slot of a variable.
pub open spec fn preserved(
    before: Machine,
    after: Machine,
    slots: Map<Seq<char>, i64>,
    store: Store,
) -> bool {
    &&& after.rsp == before.rsp
    &&& after.rbp == before.rbp
    &&& forall|address: int|
        before.rsp <= address && #[trigger] before.memory.contains_key(address) && !is_slot(
            before,
            slots,
            store,
            address,
        ) ==> after.memory.contains_key(address) && after.memory[address]
            == before.memory[address]
}

/// Whether `after` is `before` but for the accumulator, the scratch
/// registers, the flags and the program counter.
pub open spec fn same_stack(before: Machine, after: Machine) -> bool {
    &&& after.rsp == before.rsp
    &&& after.rbp == before.rbp
    &&& after.memory == before.memory
}

/// The test of the accumulator against zero leaves the truth value of the
/// test in it.
pub proof fn lemma_test_runs(
    code: Seq<Instruction>,
    at: int,
    condition: Condition,
    machine: Machine,
) -> (after: Machine)
    requires
        placed(code, at, test_code(condition)),
        machine.pc == at,
    ensures
        reaches(code, machine, after),
        after.pc == at + 3,
        after.rax == truth(holds(condition, (0, machine.rax))),
        same_stack(machine, after),
{
    let piece = test_code(condition);
    assert(code[at + 0] == piece[0] && code[at + 1] == piece[1] && code[at + 2] == piece[2]);
    let first = Machine { compared: (0, machine.rax), ..machine }.next();
    let second = Machine { rax: 0, ..first }.next();
    let third = Machine { rax: truth(holds(condition, (0, machine.rax))), ..second }.next();
    assert(step(code, machine) == Outcome::Running(first));
    assert(step(code, first) == Outcome::Running(second));
    assert(step(code, second) == Outcome::Running(third));
    lemma_reaches_self(code, machine);
    lemma_reaches_next(code, machine, machine, first);
    lemma_reaches_next(code, machine, first, second);
    lemma_reaches_next(code, machine, second, third);
    third
}

/// The comparison of the saved left operand with the accumulator leaves
/// the truth value of the comparison in the accumulator.
pub proof fn lemma_compare_runs(
    code: Seq<Instruction>,
    at: int,
    condition: Condition,
    machine: Machine,
) -> (after: Machine)
    requires
        placed(code, at, compare_code(condition)),
        machine.pc == at,
    ensures
        reaches(code, machine, after),
        after.pc == at + 3,
        after.rax == truth(holds(condition, (machine.rax, machine.rcx))),
        same_stack(machine, after),
{
    let piece = compare_code(condition);
    assert(code[at + 0] == piece[0] && code[at + 1] == piece[1] && code[at + 2] == piece[2]);
    let first = Machine { compared: (machine.rax, machine.rcx), ..machine }.next();
    let second = Machine { rax: 0, ..first }.next();
    let third = Machine {
        rax: truth(holds(condition, (machine.rax, machine.rcx))),
        ..second
    }.next();
    assert(step(code, machine) == Outcome::Running(first));
    assert(step(code, first) == Outcome::Running(second));
    assert(step(code, second) == Outcome::Running(third));
    lemma_reaches_self(code, machine);
    lemma_reaches_next(code, machine, machine, first);
    lemma_reaches_next(code, machine, first, second);
    lemma_reaches_next(code, machine, second, third);
    third
}

/// The division of the saved left operand by the accumulator leaves the
/// quotient in the accumulator, where the left operand is not negative.
pub proof fn lemma_division_runs(code: Seq<Instruction>, at: int, machine: Machine) -> (after:
    Machine)
    requires
        placed(code, at, combine_code(BinaryOperator::Division)),
        machine.pc == at,
        fits(machine.rax),
        fits(machine.rcx),
        0 <= machine.rcx,
        machine.rax != 0,
        fits(quotient(machine.rcx, machine.rax)),
    ensures
        reaches(code, machine, after),
        after.pc == at + 5,
        after.rax == quotient(machine.rcx, machine.rax),
        same_stack(machine, after),
{
    let piece = combine_code(BinaryOperator::Division);
    assert(code[at + 0] == piece[0] && code[at + 1] == piece[1] && code[at + 2] == piece[2]
        && code[at + 3] == piece[3] && code[at + 4] == piece[4]);
    let left = machine.rcx;
    let right = machine.rax;
    let first = Machine { rdx: left, ..machine }.next();
    let second = Machine { rcx: right, ..first }.next();
    let third = Machine { rax: left, ..second }.next();
    let fourth = Machine { rdx: 0, ..third }.next();
    assert(unsigned(left) == left);
    let dividend = fourth.rdx * word() + unsigned(fourth.rax);
    assert(dividend == left);
    let fifth = Machine {
        rax: quotient(left, right),
        rdx: left - quotient(left, right) * right,
        ..fourth
    }.next();
    assert(step(code, machine) == Outcome::Running(first));
    assert(step(code, first) == Outcome::Running(second));
    assert(step(code, second) == Outcome::Running(third));
    assert(step(code, third) == Outcome::Running(fourth));
    assert(step(code, fourth) == Outcome::Running(fifth));
    lemma_reaches_self(code, machine);
    lemma_reaches_next(code, machine, machine, first);
    lemma_reaches_next(code, machine, first, second);
    lemma_reaches_next(code, machine, second, third);
    lemma_reaches_next(code, machine, third, fourth);
    lemma_reaches_next(code, machine, fourth, fifth);
    fifth
}

/// The condition that the code of a comparison operator tests.
pub open spec fn condition_of(operator: BinaryOperator) -> Condition {
    match operator {
        BinaryOperator::Equal => Condition::Equal,
        BinaryOperator::NotEqual => Condition::NotEqual,
        BinaryOperator::LessThan => Condition::Less,
        BinaryOperator::LessThanOrEqual => Condition::LessOrEqual,
        BinaryOperator::GreaterThan => Condition::Greater,
        _ => Condition::GreaterOrEqual,
    }
}

/// The code that combines the saved left operand with the accumulator
/// leaves the value of the operation in the accumulator, where the
/// operation has a value and, for a division, the left operand is not
/// negative.
pub proof fn lemma_combine_runs(
    code: Seq<Instruction>,
    at: int,
    operator: BinaryOperator,
    machine: Machine,
) -> (after: Machine)
    requires
        placed(code, at, combine_code(operator)),
        machine.pc == at,
        !operator.short_circuits(),
        fits(machine.rax),
        fits(machine.rcx),
        apply_binary(operator, machine.rcx, machine.rax) is Some,
        operator is Division ==> machine.rcx >= 0,
    ensures
        reaches(code, machine, after),
        after.pc == at + combine_code(operator).len(),
        Some(after.rax) == apply_binary(operator, machine.rcx, machine.rax),
        same_stack(machine, after),
{
    let piece = combine_code(operator);
    let left = machine.rcx;
    let right = machine.rax;
    match operator {
        BinaryOperator::Addition => {
            assert(code[at + 0] == piece[0]);
            let first = Machine { rax: wrap(right + left), ..machine }.next();
            assert(step(code, machine) == Outcome::Running(first));
            lemma_reaches_self(code, machine);
            lemma_reaches_next(code, machine, machine, first);
            first
        },
        BinaryOperator::Subtraction => {
            assert(code[at + 0] == piece[0] && code[at + 1] == piece[1]);
            let first = Machine { rcx: wrap(left - right), ..machine }.next();
            let second = Machine { rax: wrap(left - right), ..first }.next();
            assert(step(code, machine) == Outcome::Running(first));
            assert(step(code, first) == Outcome::Running(second));
            lemma_reaches_self(code, machine);
            lemma_reaches_next(code, machine, machine, first);
            lemma_reaches_next(code, machine, first, second);
            second
        },
        BinaryOperator::Multiplication => {
            assert(code[at + 0] == piece[0]);
            assert(right * left == left * right) by (nonlinear_arith);
            let first = Machine { rax: wrap(right * left), ..machine }.next();
            assert(step(code, machine) == Outcome::Running(first));
            lemma_reaches_self(code, machine);
            lemma_reaches_next(code, machine, machine, first);
            first
        },
        BinaryOperator::Division => lemma_division_runs(code, at, machine),
        _ => lemma_compare_runs(code, at, condition_of(operator), machine),
    }
}

/// The code of a unary operator leaves the value of the operation in the
/// accumulator.
pub proof fn lemma_unary_runs(
    code: Seq<Instruction>,
    at: int,
    operator: UnaryOperator,
    machine: Machine,
) -> (after: Machine)
    requires
        placed(code, at, unary_code(operator)),
        machine.pc == at,
    ensures
        reaches(code, machine, after),
        after.pc == at + unary_code(operator).len(),
        after.rax == apply_unary(operator, machine.rax),
        same_stack(machine, after),
{
    let piece = unary_code(operator);
    match operator {
        UnaryOperator::Negation => {
            assert(code[at + 0] == piece[0]);
            let first = Machine { rax: wrap(-machine.rax), ..machine }.next();
            assert(step(code, machine) == Outcome::Running(first));
            lemma_reaches_self(code, machine);
            lemma_reaches_next(code, machine, machine, first);
            first
        },
        UnaryOperator::BitwiseComplement => {
            assert(code[at + 0] == piece[0]);
            let first = Machine { rax: -machine.rax - 1, ..machine }.next();
            assert(step(code, machine) == Outcome::Running(first));
            lemma_reaches_self(code, machine);
            lemma_reaches_next(code, machine, machine, first);
            first
        },
        UnaryOperator::LogicalNegation => lemma_test_runs(code, at, Condition::Equal, machine),
    }
}

/// A run that kept the stack, and then another that did, kept it.
pub proof fn lemma_preserved_then(
    first: Machine,
    second: Machine,
    third: Machine,
    slots: Map<Seq<char>, i64>,
    before: Store,
    between: Store,
)
    requires
        preserved(first, second, slots, before),
        preserved(second, third, slots, between),
        before.dom() == between.dom(),
    ensures
        preserved(first, third, slots, before),
{
    assert forall|address: int|
        first.rsp <= address && #[trigger] first.memory.contains_key(address) && !is_slot(
            first,
            slots,
            before,
            address,
        ) implies third.memory.contains_key(address) && third.memory[address]
        == first.memory[address] by {
        assert(second.memory.contains_key(address));
        if is_slot(second, slots, between, address) {
            let name = choose|name: Seq<char>| #[trigger]
                between.contains_key(name) && second.rbp + slots[name] == address;
            assert(before.contains_key(name));
        }
    }
}

/// A step that left the stack alone kept it, and the variables are still
/// in their slots.
pub proof fn lemma_same_stack(
    before: Machine,
    after: Machine,
    slots: Map<Seq<char>, i64>,
    store: Store,
)
    requires
        same_stack(before, after),
    ensures
        preserved(before, after, slots, store),
        laid_out(before, slots, store) ==> laid_out(after, slots, store),
{
}

/// The code of an expression, run from its first instruction on a machine
/// that holds the variables in their slots, comes to its end with the
/// value of the expression in the accumulator and the variables, as the
/// expression leaves them, in their slots. The stack is as it was.
///
/// This holds where the expression has a value and no division that is
/// evaluated has a negative dividend. The right operand of `||` or `&&`
/// is run only where the left one does not decide the result: where it
/// does, the variables are as the left operand left them.
pub proof fn lemma_expression_agrees(
    code: Seq<Instruction>,
    at: int,
    expression: Expr,
    slots: Map<Seq<char>, i64>,
    label: i64,
    machine: Machine,
    store: Store,
) -> (after: Machine)
    requires
        placed(code, at, expression_code(expression, slots, label)),
        marks_once(code),
        machine.pc == at,
        laid_out(machine, slots, store),
        evaluate(expression, store) is Some,
        dividends_natural(expression, store),
    ensures
        reaches(code, machine, after),
        after.pc == at + expression_code(expression, slots, label).len(),
        after.rax == evaluate(expression, store)->0.value,
        laid_out(after, slots, evaluate(expression, store)->0.store),
        preserved(machine, after, slots, store),
    decreases expression, 0nat,
{
    let piece = expression_code(expression, slots, label);
    lemma_evaluate_words(expression, store);
    match expression {
        Expr::Constant(value) => {
            assert(code[at + 0] == piece[0]);
            let after = Machine { rax: value as int, ..machine }.next();
            assert(step(code, machine) == Outcome::Running(after));
            lemma_reaches_self(code, machine);
            lemma_reaches_next(code, machine, machine, after);
            lemma_same_stack(machine, after, slots, store);
            after
        },
        Expr::Variable(name) => {
            assert(code[at + 0] == piece[0]);
            assert(store.contains_key(name));
            let after = Machine { rax: store[name], ..machine }.next();
            assert(step(code, machine) == Outcome::Running(after));
            lemma_reaches_self(code, machine);
            lemma_reaches_next(code, machine, machine, after);
            lemma_same_stack(machine, after, slots, store);
            after
        },
        Expr::Group(inner) => lemma_expression_agrees(
            code,
            at,
            *inner,
            slots,
            label,
            machine,
            store,
        ),
        Expr::Unary(operator, operand) => {
            let value = expression_code(*operand, slots, label);
            lemma_placed_parts(code, at, value, unary_code(operator));
            let found = evaluate(*operand, store)->0;
            let evaluated = lemma_expression_agrees(
                code,
                at,
                *operand,
                slots,
                label,
                machine,
                store,
            );
            let after = lemma_unary_runs(code, at + value.len(), operator, evaluated);
            lemma_reaches_then(code, machine, evaluated, after);
            lemma_same_stack(evaluated, after, slots, found.store);
            lemma_evaluate_words(*operand, store);
            lemma_preserved_then(machine, evaluated, after, slots, store, found.store);
            after
        },
        Expr::Binary(operator, left, right) => {
            let value = expression_code(*left, slots, label);
            let middle = advance(label, left.clauses());
            lemma_placed_parts(code, at, value, operation_code(operator, *right, slots, middle));
            let first = evaluate(*left, store)->0;
            lemma_evaluate_words(*left, store);
            let evaluated = lemma_expression_agrees(
                code,
                at,
                *left,
                slots,
                label,
                machine,
                store,
            );
            let after = lemma_operation_agrees(
                code,
                at + value.len(),
                operator,
                *right,
                slots,
                middle,
                evaluated,
                first.store,
            );
            lemma_reaches_then(code, machine, evaluated, after);
            lemma_preserved_then(machine, evaluated, after, slots, store, first.store);
            after
        },
        Expr::Assign(name, value) => {
            let inner = expression_code(*value, slots, label);
            let store_to = Instruction::Mov(Operand::Register(Rax), slot(slots, name));
            assert(piece =~= inner + seq![store_to]);
            lemma_placed_parts(code, at, inner, seq![store_to]);
            let found = evaluate(*value, store)->0;
            lemma_evaluate_words(*value, store);
            let evaluated = lemma_expression_agrees(
                code,
                at,
                *value,
                slots,
                label,
                machine,
                store,
            );
            assert(code[at + inner.len() + 0] == seq![store_to][0]);
            let address = evaluated.rbp + slots[name];
            let after = Machine {
                memory: evaluated.memory.insert(address, found.value),
                ..evaluated
            }.next();
            assert(step(code, evaluated) == Outcome::Running(after));
            lemma_reaches_next(code, machine, evaluated, after);
            let left = found.store.insert(name, found.value);
            assert(found.store.contains_key(name));
            assert forall|other: Seq<char>| #[trigger] left.contains_key(other) implies {
                &&& slots.contains_key(other)
                &&& after.rsp <= after.rbp + slots[other]
                &&& after.memory.contains_key(after.rbp + slots[other])
                &&& after.memory[after.rbp + slots[other]] == left[other]
            } by {
                assert(found.store.contains_key(other));
            }
            assert forall|a: Seq<char>, b: Seq<char>|
                #![trigger left.contains_key(a), left.contains_key(b)]
                left.contains_key(a) && left.contains_key(b) && slots[a] == slots[b] implies a
                == b by {
                assert(found.store.contains_key(a) && found.store.contains_key(b));
            }
            assert forall|address: int|
                machine.rsp <= address && #[trigger] machine.memory.contains_key(address)
                    && !is_slot(machine, slots, store, address) implies after.memory.contains_key(
                address,
            ) && after.memory[address] == machine.memory[address] by {
                assert(store.contains_key(name));
            }
            after
        },
    }
}

/// The branch of a short-circuit operator whose left operand decides the
/// result goes to the end of the scope, with the result in the
/// accumulator.
pub proof fn lemma_branch_skips(
    code: Seq<Instruction>,
    at: int,
    operator: BinaryOperator,
    label: i64,
    exit: int,
    machine: Machine,
) -> (after: Machine)
    requires
        placed(code, at, branch_code(operator, label)),
        marks_once(code),
        0 <= exit < code.len(),
        code[exit] == Instruction::Mark(Label::End(label)),
        machine.pc == at,
        operator.short_circuits(),
        decides(operator, machine.rax),
    ensures
        reaches(code, machine, after),
        after.pc == exit + 1,
        after.rax == truth(operator is Or),
        same_stack(machine, after),
{
    let branch = branch_code(operator, label);
    lemma_position(code, Label::End(label), exit);
    let compared = Machine { compared: (0, machine.rax), ..machine }.next();
    assert(code[at + 0] == branch[0] && code[at + 1] == branch[1] && code[at + 2] == branch[2]
        && code[at + 3] == branch[3]);
    assert(step(code, machine) == Outcome::Running(compared));
    lemma_reaches_self(code, machine);
    lemma_reaches_next(code, machine, machine, compared);
    let skipped = compared.next();
    assert(step(code, compared) == Outcome::Running(skipped));
    lemma_reaches_next(code, machine, compared, skipped);
    let marked = if operator is Or {
        let loaded = Machine { rax: 1, ..skipped }.next();
        let jumped = loaded.at(exit);
        assert(step(code, skipped) == Outcome::Running(loaded));
        assert(step(code, loaded) == Outcome::Running(jumped));
        lemma_reaches_next(code, machine, skipped, loaded);
        lemma_reaches_next(code, machine, loaded, jumped);
        jumped
    } else {
        let jumped = skipped.at(exit);
        assert(step(code, skipped) == Outcome::Running(jumped));
        lemma_reaches_next(code, machine, skipped, jumped);
        jumped
    };
    let after = marked.next();
    assert(step(code, marked) == Outcome::Running(after));
    lemma_reaches_next(code, machine, marked, after);
    after
}

/// The branch of a short-circuit operator whose left operand does not
/// decide the result goes on to the code of the right operand.
pub proof fn lemma_branch_enters(
    code: Seq<Instruction>,
    at: int,
    operator: BinaryOperator,
    label: i64,
    machine: Machine,
) -> (after: Machine)
    requires
        placed(code, at, branch_code(operator, label)),
        marks_once(code),
        machine.pc == at,
        operator.short_circuits(),
        !decides(operator, machine.rax),
    ensures
        reaches(code, machine, after),
        after.pc == at + branch_code(operator, label).len(),
        same_stack(machine, after),
{
    let branch = branch_code(operator, label);
    let entry = at + branch.len();
    assert(code[at + 0] == branch[0] && code[at + 1] == branch[1] && code[at + 2] == branch[2]
        && code[at + 3] == branch[3]);
    assert(code[at + (branch.len() - 1)] == branch[branch.len() - 1]);
    lemma_position(code, Label::Start(label), entry - 1);
    let compared = Machine { compared: (0, machine.rax), ..machine }.next();
    assert(step(code, machine) == Outcome::Running(compared));
    lemma_reaches_self(code, machine);
    lemma_reaches_next(code, machine, machine, compared);
    let jumped = compared.at(entry - 1);
    assert(step(code, compared) == Outcome::Running(jumped));
    lemma_reaches_next(code, machine, compared, jumped);
    let after = jumped.next();
    assert(step(code, jumped) == Outcome::Running(after));
    lemma_reaches_next(code, machine, jumped, after);
    after
}

/// What follows the right operand of a short-circuit operator leaves 1 in
/// the accumulator if the operand is not zero, and 0 if it is.
pub proof fn lemma_settle_runs(
    code: Seq<Instruction>,
    at: int,
    label: i64,
    machine: Machine,
) -> (after: Machine)
    requires
        placed(code, at, settle_code(label)),
        machine.pc == at,
    ensures
        reaches(code, machine, after),
        after.pc == at + 4,
        after.rax == truth(machine.rax != 0),
        same_stack(machine, after),
{
    let test = test_code(Condition::NotEqual);
    let end = Instruction::Mark(Label::End(label));
    assert(settle_code(label) =~= test + seq![end]);
    lemma_placed_parts(code, at, test, seq![end]);
    assert(code[at + 3 + 0] == seq![end][0]);
    let tested = lemma_test_runs(code, at, Condition::NotEqual, machine);
    let after = tested.next();
    assert(step(code, tested) == Outcome::Running(after));
    lemma_reaches_next(code, machine, tested, after);
    after
}

/// The instruction that saves the accumulator pushes it: the stack grows
/// by one word, which holds the accumulator.
pub proof fn lemma_push_runs(
    code: Seq<Instruction>,
    machine: Machine,
    slots: Map<Seq<char>, i64>,
    store: Store,
) -> (after: Machine)
    requires
        0 <= machine.pc < code.len(),
        code[machine.pc] == Instruction::Push(Operand::Register(Rax)),
        laid_out(machine, slots, store),
    ensures
        step(code, machine) == Outcome::Running(after),
        after.pc == machine.pc + 1,
        after.rax == machine.rax,
        after.rsp == machine.rsp - 8,
        after.rbp == machine.rbp,
        after.memory == machine.memory.insert(machine.rsp - 8, machine.rax),
        laid_out(after, slots, store),
        !is_slot(after, slots, store, after.rsp),
{
    let after = Machine {
        rsp: machine.rsp - 8,
        memory: machine.memory.insert(machine.rsp - 8, machine.rax),
        ..machine
    }.next();
    if is_slot(after, slots, store, after.rsp) {
        let name = choose|name: Seq<char>| #[trigger]
            store.contains_key(name) && after.rbp + slots[name] == after.rsp;
        assert(machine.rsp <= machine.rbp + slots[name]);
    }
    after
}

/// The code of a binary operation that evaluates both operands, run where
/// the value of the left operand is in the accumulator, comes to its end
/// with the value of the operation there.
pub proof fn lemma_saved_agrees(
    code: Seq<Instruction>,
    at: int,
    operator: BinaryOperator,
    right: Expr,
    slots: Map<Seq<char>, i64>,
    label: i64,
    machine: Machine,
    store: Store,
) -> (after: Machine)
    requires
        placed(code, at, operation_code(operator, right, slots, label)),
        marks_once(code),
        machine.pc == at,
        laid_out(machine, slots, store),
        fits(machine.rax),
        !operator.short_circuits(),
        evaluate(right, store) matches Some(second) && apply_binary(
            operator,
            machine.rax,
            second.value,
        ) is Some,
        dividends_natural(right, store),
        operator is Division ==> machine.rax >= 0,
    ensures
        reaches(code, machine, after),
        after.pc == at + operation_code(operator, right, slots, label).len(),
        Some(after.rax) == apply_binary(
            operator,
            machine.rax,
            evaluate(right, store)->0.value,
        ),
        laid_out(after, slots, evaluate(right, store)->0.store),
        preserved(machine, after, slots, store),
    decreases right, 1nat,
{
    let left = machine.rax;
    let save = seq![Instruction::Push(Operand::Register(Rax))];
    let value = expression_code(right, slots, label);
    let restore = seq![Instruction::Pop(Operand::Register(Rcx))];
    let combine = combine_code(operator);
    lemma_placed_parts(code, at, save + value + restore, combine);
    lemma_placed_parts(code, at, save + value, restore);
    lemma_placed_parts(code, at, save, value);
    let second = evaluate(right, store)->0;
    lemma_evaluate_words(right, store);
    assert(code[at + 0] == save[0]);
    let saved = lemma_push_runs(code, machine, slots, store);
    lemma_reaches_self(code, machine);
    lemma_reaches_next(code, machine, machine, saved);
    let evaluated = lemma_expression_agrees(code, at + 1, right, slots, label, saved, store);
    lemma_reaches_then(code, machine, saved, evaluated);
    assert(saved.memory.contains_key(saved.rsp));
    assert(evaluated.memory[saved.rsp] == left);
    assert(code[at + 1 + value.len() + 0] == restore[0]);
    let restored = Machine { rsp: machine.rsp, rcx: left, ..evaluated }.next();
    assert(step(code, evaluated) == Outcome::Running(restored));
    lemma_reaches_next(code, machine, evaluated, restored);
    let after = lemma_combine_runs(code, at + 1 + value.len() + 1, operator, restored);
    lemma_reaches_then(code, machine, restored, after);
    assert forall|name: Seq<char>| #[trigger] second.store.contains_key(name) implies {
        &&& slots.contains_key(name)
        &&& after.rsp <= after.rbp + slots[name]
        &&& after.memory.contains_key(after.rbp + slots[name])
        &&& after.memory[after.rbp + slots[name]] == second.store[name]
    } by {
        assert(store.contains_key(name));
    }
    assert forall|address: int|
        machine.rsp <= address && #[trigger] machine.memory.contains_key(address) && !is_slot(
            machine,
            slots,
            store,
            address,
        ) implies after.memory.contains_key(address) && after.memory[address]
        == machine.memory[address] by {
        assert(saved.memory.contains_key(address));
        if is_slot(saved, slots, store, address) {
            let name = choose|name: Seq<char>| #[trigger]
                store.contains_key(name) && saved.rbp + slots[name] == address;
            assert(machine.rbp + slots[name] == address);
        }
    }
    after
}

/// The code of a binary operation, run where the value of the left
/// operand is in the accumulator, comes to its end with the value of the
/// operation there. Where the left operand of `||` or `&&` decides the
/// result, the code of the right operand is skipped.
pub proof fn lemma_operation_agrees(
    code: Seq<Instruction>,
    at: int,
    operator: BinaryOperator,
    right: Expr,
    slots: Map<Seq<char>, i64>,
    label: i64,
    machine: Machine,
    store: Store,
) -> (after: Machine)
    requires
        placed(code, at, operation_code(operator, right, slots, label)),
        marks_once(code),
        machine.pc == at,
        laid_out(machine, slots, store),
        fits(machine.rax),
        !decides(operator, machine.rax) ==> {
            &&& evaluate(right, store) matches Some(second)
            &&& apply_binary(operator, machine.rax, second.value) is Some
            &&& dividends_natural(right, store)
            &&& operator is Division ==> machine.rax >= 0
        },
    ensures
        reaches(code, machine, after),
        after.pc == at + operation_code(operator, right, slots, label).len(),
        decides(operator, machine.rax) ==> after.rax == truth(operator is Or) && laid_out(
            after,
            slots,
            store,
        ),
        !decides(operator, machine.rax) ==> Some(after.rax) == apply_binary(
            operator,
            machine.rax,
            evaluate(right, store)->0.value,
        ) && laid_out(after, slots, evaluate(right, store)->0.store),
        preserved(machine, after, slots, store),
    decreases right, 2nat,
{
    if operator.short_circuits() {
        let branch = branch_code(operator, label);
        let value = expression_code(right, slots, advance(label, 1));
        let settle = settle_code(label);
        lemma_placed_parts(code, at, branch + value, settle);
        lemma_placed_parts(code, at, branch, value);
        let entry = at + branch.len();
        let exit = entry + value.len() + 3;
        assert(code[entry + value.len() + 3] == settle[3]);
        if decides(operator, machine.rax) {
            let after = lemma_branch_skips(code, at, operator, label, exit, machine);
            lemma_same_stack(machine, after, slots, store);
            after
        } else {
            let second = evaluate(right, store)->0;
            lemma_evaluate_words(right, store);
            let started = lemma_branch_enters(code, at, operator, label, machine);
            lemma_same_stack(machine, started, slots, store);
            let evaluated = lemma_expression_agrees(
                code,
                entry,
                right,
                slots,
                advance(label, 1),
                started,
                store,
            );
            lemma_reaches_then(code, machine, started, evaluated);
            let after = lemma_settle_runs(code, entry + value.len(), label, evaluated);
            lemma_reaches_then(code, machine, evaluated, after);
            lemma_same_stack(evaluated, after, slots, second.store);
            lemma_preserved_then(machine, started, evaluated, slots, store, store);
            lemma_preserved_then(machine, evaluated, after, slots, store, second.store);
            after
        }
    } else {
        lemma_saved_agrees(code, at, operator, right, slots, label, machine, store)
    }
}

/// Whether `expression` is made of integer constants, parentheses,
/// negation and the four arithmetic operators alone.
pub open spec fn arithmetic(expression: Expr) -> bool
    decreases expression,
{
    match expression {
        Expr::Constant(_) => true,
        Expr::Variable(_) => false,
        Expr::Group(inner) => arithmetic(*inner),
        Expr::Unary(operator, operand) => operator is Negation && arithmetic(*operand),
        Expr::Binary(operator, left, right) => (operator is Addition || operator is Subtraction
            || operator is Multiplication || operator is Division) && arithmetic(*left)
            && arithmetic(*right),
        Expr::Assign(_, _) => false,
    }
}

/// The value of an expression without variables, where it has one.
pub open spec fn constant_value(expression: Expr) -> Option<int> {
    match evaluate(expression, Map::empty()) {
        Some(found) => Some(found.value),
        None => None,
    }
}

/// The code of an expression of constants and arithmetic leaves the value
/// of the expression in the accumulator, on whatever machine it is run,
/// and the stack as it was. The value is that of the expression read with
/// the usual precedence, from left to right, with division rounded toward
/// zero.
///
/// This holds where no division has a negative dividend: the code clears
/// the high half of the dividend, so it divides a negative dividend as a
/// large positive one.
pub proof fn lemma_arithmetic_agrees(
    code: Seq<Instruction>,
    at: int,
    expression: Expr,
    slots: Map<Seq<char>, i64>,
    label: i64,
    machine: Machine,
) -> (after: Machine)
    requires
        placed(code, at, expression_code(expression, slots, label)),
        marks_once(code),
        machine.pc == at,
        arithmetic(expression),
        constant_value(expression) is Some,
        dividends_natural(expression, Map::empty()),
    ensures
        reaches(code, machine, after),
        after.pc == at + expression_code(expression, slots, label).len(),
        Some(after.rax) == constant_value(expression),
        after.rsp == machine.rsp,
        after.rbp == machine.rbp,
{
    lemma_expression_agrees(code, at, expression, slots, label, machine, Map::empty())
}

/// The quotient is the dividend over the divisor rounded toward zero:
/// what is left of the dividend is smaller in size than the divisor and
/// has the sign of the dividend.
pub proof fn lemma_quotient_rounds_toward_zero(dividend: int, divisor: int)
    requires
        divisor != 0,
    ensures
        ({
            let rest = dividend - quotient(dividend, divisor) * divisor;
            &&& dividend >= 0 ==> 0 <= rest
            &&& dividend <= 0 ==> rest <= 0
            &&& divisor > 0 ==> -divisor < rest < divisor
            &&& divisor < 0 ==> divisor < rest < -divisor
        }),
{
    let size = if dividend >= 0 {
        dividend
    } else {
        -dividend
    };
    let by = if divisor > 0 {
        divisor
    } else {
        -divisor
    };
    assert(size == (size / by) * by + size % by && 0 <= size % by < by) by (nonlinear_arith)
        requires
            by > 0,
            size >= 0,
    ;
    let q = size / by;
    assert(q * divisor == -(q * (-divisor)) && (-q) * divisor == -(q * divisor))
        by (nonlinear_arith);
}

/// Where the left operand of `||` is not zero, or that of `&&` is zero,
/// the code of the operation leaves the result in the accumulator, 1 for
/// `||` and 0 for `&&`, and every variable as the left operand left it:
/// nothing that the right operand would assign is assigned. The right
/// operand need not even have a value.
pub proof fn lemma_short_circuit_skips(
    code: Seq<Instruction>,
    at: int,
    operator: BinaryOperator,
    left: Expr,
    right: Expr,
    slots: Map<Seq<char>, i64>,
    label: i64,
    machine: Machine,
    store: Store,
) -> (after: Machine)
    requires
        placed(
            code,
            at,
            expression_code(Expr::Binary(operator, Box::new(left), Box::new(right)), slots, label),
        ),
        marks_once(code),
        machine.pc == at,
        laid_out(machine, slots, store),
        operator.short_circuits(),
        evaluate(left, store) matches Some(first) && decides(operator, first.value),
        dividends_natural(left, store),
    ensures
        reaches(code, machine, after),
        after.rax == truth(operator is Or),
        laid_out(after, slots, evaluate(left, store)->0.store),
        evaluate(Expr::Binary(operator, Box::new(left), Box::new(right)), store) == Some(
            Evaluated { value: truth(operator is Or), store: evaluate(left, store)->0.store },
        ),
{
    lemma_expression_agrees(
        code,
        at,
        Expr::Binary(operator, Box::new(left), Box::new(right)),
        slots,
        label,
        machine,
        store,
    )
}

/// Where the left operand of `||` is zero, or that of `&&` is not, the
/// code of the operation evaluates the right operand: the result is 1 if
/// the right operand is not zero and 0 if it is, and the variables are as
/// the right operand left them.
pub proof fn lemma_short_circuit_enters(
    code: Seq<Instruction>,
    at: int,
    operator: BinaryOperator,
    left: Expr,
    right: Expr,
    slots: Map<Seq<char>, i64>,
    label: i64,
    machine: Machine,
    store: Store,
) -> (after: Machine)
    requires
        placed(
            code,
            at,
            expression_code(Expr::Binary(operator, Box::new(left), Box::new(right)), slots, label),
        ),
        marks_once(code),
        machine.pc == at,
        laid_out(machine, slots, store),
        operator.short_circuits(),
        evaluate(left, store) matches Some(first) && !decides(operator, first.value) && evaluate(
            right,
            first.store,
        ) is Some,
        dividends_natural(left, store),
        dividends_natural(right, evaluate(left, store)->0.store),
    ensures
        reaches(code, machine, after),
        after.rax == truth(evaluate(right, evaluate(left, store)->0.store)->0.value != 0),
        laid_out(after, slots, evaluate(right, evaluate(left, store)->0.store)->0.store),
{
    lemma_expression_agrees(
        code,
        at,
        Expr::Binary(operator, Box::new(left), Box::new(right)),
        slots,
        label,
        machine,
        store,
    )
}

} // verus!
