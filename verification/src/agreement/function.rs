//! A generated function does what its source means.
//!
//! Run on the model of the machine from its first instruction, the code of
//! a function returns to its caller with the value of the function in the
//! accumulator and the caller's stack as it was.

use vstd::prelude::*;
use crate::agreement::{
    is_slot, laid_out, lemma_expression_agrees, lemma_placed_parts, placed, preserved,
};
use crate::emitter::Operand::Immediate;
use crate::emitter::Register::Rax;
use crate::emitter::{epilogue, prologue, Instruction, Operand};
use crate::generator::code::{
    advance, body_code, ends_in_return, expression_code, fallthrough_code, function_code,
    statement_code,
};
use crate::generator::labels::{lemma_function_labelled, marks_once};
use crate::lexer::Token;
use crate::parser::function::MAX_TOKENS;
use crate::parser::grammar::parse_function;
use crate::parser::laws::{lemma_function_faithful, lemma_function_slotted};
use crate::machine::{
    comes_back, fits, lemma_reaches_comes_back, lemma_reaches_next, lemma_reaches_return,
    lemma_reaches_self, reaches, step, Machine, Outcome,
};
use crate::meaning::{
    body_dividends_natural, dividends_natural, evaluate, execute, lemma_evaluate_words, result,
    run, Flow, Store,
};
use crate::parser::syntax::{body_clauses, declarations, slotted, FunctionModel, Stmt};

verus! {

/// Whether the machine is inside the frame of a function that `caller`
/// called: the frame base is one word below the caller's stack and holds
/// the caller's frame base, the stack holds `depth` variables below it,
/// and the variables of `store` are in their slots.
pub open spec fn framed(
    machine: Machine,
    slots: Map<Seq<char>, i64>,
    store: Store,
    depth: nat,
    caller: Machine,
) -> bool {
    &&& laid_out(machine, slots, store)
    &&& machine.rsp == machine.rbp - 8 * depth
    &&& machine.rbp + 8 == caller.rsp
    &&& machine.memory.contains_key(machine.rbp)
    &&& machine.memory[machine.rbp] == caller.rbp
    &&& forall|name: Seq<char>| #[trigger] store.contains_key(name) ==> slots[name] <= -8
}

/// A frame that an expression ran in is a frame still.
pub proof fn lemma_framed_after(
    before: Machine,
    after: Machine,
    slots: Map<Seq<char>, i64>,
    store: Store,
    left: Store,
    depth: nat,
    caller: Machine,
)
    requires
        framed(before, slots, store, depth, caller),
        preserved(before, after, slots, store),
        laid_out(after, slots, left),
        left.dom() == store.dom(),
    ensures
        framed(after, slots, left, depth, caller),
{
    if is_slot(before, slots, store, before.rbp) {
        let name = choose|name: Seq<char>| #[trigger]
            store.contains_key(name) && before.rbp + slots[name] == before.rbp;
        assert(slots[name] <= -8);
    }
    assert forall|name: Seq<char>| #[trigger] left.contains_key(name) implies slots[name]
        <= -8 by {
        assert(store.contains_key(name));
    }
}

/// The epilogue and the return give the caller its stack back, and leave
/// the accumulator alone.
pub proof fn lemma_epilogue_runs(
    code: Seq<Instruction>,
    at: int,
    machine: Machine,
    caller: Machine,
) -> (after: Machine)
    requires
        placed(code, at, epilogue()),
        machine.pc == at,
        machine.rbp + 8 == caller.rsp,
        machine.memory.contains_key(machine.rbp),
        machine.memory[machine.rbp] == caller.rbp,
    ensures
        comes_back(code, machine, after),
        after.rax == machine.rax,
        after.rsp == caller.rsp,
        after.rbp == caller.rbp,
{
    let piece = epilogue();
    assert(code[at + 0] == piece[0] && code[at + 1] == piece[1] && code[at + 2] == piece[2]);
    let first = Machine { rsp: machine.rbp, ..machine }.next();
    let second = Machine { rsp: machine.rbp + 8, rbp: caller.rbp, ..first }.next();
    assert(step(code, machine) == Outcome::Running(first));
    assert(step(code, first) == Outcome::Running(second));
    assert(step(code, second) == Outcome::Returned(second));
    lemma_reaches_self(code, machine);
    lemma_reaches_next(code, machine, machine, first);
    lemma_reaches_next(code, machine, first, second);
    lemma_reaches_return(code, machine, second);
    second
}

/// The instruction that makes the slot of a new variable pushes the
/// accumulator: the frame holds one variable more.
pub proof fn lemma_declare_runs(
    code: Seq<Instruction>,
    machine: Machine,
    slots: Map<Seq<char>, i64>,
    store: Store,
    name: Seq<char>,
    depth: nat,
    caller: Machine,
) -> (after: Machine)
    requires
        0 <= machine.pc < code.len(),
        code[machine.pc] == Instruction::Push(Operand::Register(Rax)),
        framed(machine, slots, store, depth, caller),
        fits(machine.rax),
        !store.contains_key(name),
        slots.contains_key(name),
        slots[name] == -8 * (depth + 1),
    ensures
        step(code, machine) == Outcome::Running(after),
        after.pc == machine.pc + 1,
        framed(after, slots, store.insert(name, machine.rax), depth + 1, caller),
{
    let after = Machine {
        rsp: machine.rsp - 8,
        memory: machine.memory.insert(machine.rsp - 8, machine.rax),
        ..machine
    }.next();
    let left = store.insert(name, machine.rax);
    assert forall|other: Seq<char>| #[trigger] left.contains_key(other) implies {
        &&& slots.contains_key(other)
        &&& after.rsp <= after.rbp + slots[other]
        &&& after.memory.contains_key(after.rbp + slots[other])
        &&& after.memory[after.rbp + slots[other]] == left[other]
        &&& slots[other] <= -8
    } by {
        if other != name {
            assert(store.contains_key(other));
        }
    }
    assert forall|a: Seq<char>, b: Seq<char>|
        #![trigger left.contains_key(a), left.contains_key(b)]
        left.contains_key(a) && left.contains_key(b) && slots[a] == slots[b] implies a == b by {
        if a != name {
            assert(store.contains_key(a));
        }
        if b != name {
            assert(store.contains_key(b));
        }
    }
    after
}

/// The number of variables that a frame holds after `statement`, where it
/// held `depth` before it.
pub open spec fn deepened(depth: nat, statement: Stmt) -> nat {
    if statement is Declaration {
        depth + 1
    } else {
        depth
    }
}

/// The code of a statement does what the statement means: a return
/// statement returns to the caller with its value in the accumulator and
/// the caller's stack as it was; any other statement comes to its end in
/// the same frame, with the variables as it leaves them in their slots.
pub proof fn lemma_statement_agrees(
    code: Seq<Instruction>,
    at: int,
    statement: Stmt,
    slots: Map<Seq<char>, i64>,
    label: i64,
    machine: Machine,
    store: Store,
    depth: nat,
    caller: Machine,
) -> (after: Machine)
    requires
        placed(code, at, statement_code(statement, slots, label)),
        marks_once(code),
        machine.pc == at,
        framed(machine, slots, store, depth, caller),
        execute(statement, store) is Some,
        statement.expression() matches Some(value) ==> dividends_natural(value, store),
        statement matches Stmt::Declaration(name, _) ==> slots.contains_key(name) && slots[name]
            == -8 * (depth + 1),
    ensures
        match execute(statement, store)->0 {
            Flow::Goes(next) => {
                &&& reaches(code, machine, after)
                &&& after.pc == at + statement_code(statement, slots, label).len()
                &&& framed(after, slots, next, deepened(depth, statement), caller)
            },
            Flow::Leaves(value) => {
                &&& comes_back(code, machine, after)
                &&& after.rax == value
                &&& after.rsp == caller.rsp
                &&& after.rbp == caller.rbp
            },
        },
{
    match statement {
        Stmt::Return(value) => {
            let piece = expression_code(value, slots, label);
            lemma_placed_parts(code, at, piece, epilogue());
            let found = evaluate(value, store)->0;
            lemma_evaluate_words(value, store);
            let evaluated = lemma_expression_agrees(code, at, value, slots, label, machine, store);
            lemma_framed_after(machine, evaluated, slots, store, found.store, depth, caller);
            let after = lemma_epilogue_runs(code, at + piece.len(), evaluated, caller);
            lemma_reaches_comes_back(code, machine, evaluated, after);
            after
        },
        Stmt::Expression(value) => {
            let found = evaluate(value, store)->0;
            lemma_evaluate_words(value, store);
            let after = lemma_expression_agrees(code, at, value, slots, label, machine, store);
            lemma_framed_after(machine, after, slots, store, found.store, depth, caller);
            after
        },
        Stmt::Declaration(name, Some(value)) => {
            let piece = expression_code(value, slots, label);
            let push = seq![Instruction::Push(Operand::Register(Rax))];
            assert(statement_code(statement, slots, label) =~= piece + push);
            lemma_placed_parts(code, at, piece, push);
            assert(code[at + piece.len() + 0] == push[0]);
            let found = evaluate(value, store)->0;
            lemma_evaluate_words(value, store);
            let evaluated = lemma_expression_agrees(code, at, value, slots, label, machine, store);
            lemma_framed_after(machine, evaluated, slots, store, found.store, depth, caller);
            let after = lemma_declare_runs(
                code,
                evaluated,
                slots,
                found.store,
                name,
                depth,
                caller,
            );
            lemma_reaches_next(code, machine, evaluated, after);
            after
        },
        Stmt::Declaration(name, None) => {
            let piece = statement_code(statement, slots, label);
            assert(code[at + 0] == piece[0] && code[at + 1] == piece[1]);
            let cleared = Machine { rax: 0, ..machine }.next();
            assert(step(code, machine) == Outcome::Running(cleared));
            lemma_reaches_self(code, machine);
            lemma_reaches_next(code, machine, machine, cleared);
            let after = lemma_declare_runs(code, cleared, slots, store, name, depth, caller);
            lemma_reaches_next(code, machine, cleared, after);
            after
        },
    }
}

/// Where the code of a body stands, the code of each of its statements
/// stands after the code of the statements before it.
pub proof fn lemma_statement_placed(
    code: Seq<Instruction>,
    at: int,
    body: Seq<Stmt>,
    slots: Map<Seq<char>, i64>,
    label: i64,
    k: int,
)
    requires
        placed(code, at, body_code(body, slots, label)),
        0 <= k < body.len(),
    ensures
        placed(
            code,
            at + body_code(body.take(k), slots, label).len(),
            statement_code(body[k], slots, advance(label, body_clauses(body.take(k)))),
        ),
        body_code(body.take(k + 1), slots, label).len() == body_code(
            body.take(k),
            slots,
            label,
        ).len() + statement_code(
            body[k],
            slots,
            advance(label, body_clauses(body.take(k))),
        ).len(),
    decreases body.len(),
{
    let front = body.drop_last();
    lemma_placed_parts(
        code,
        at,
        body_code(front, slots, label),
        statement_code(body.last(), slots, advance(label, body_clauses(front))),
    );
    assert(body.take(k + 1).drop_last() =~= body.take(k));
    if k == body.len() - 1 {
        assert(body.take(k) =~= front);
    } else {
        lemma_statement_placed(code, at, front, slots, label, k);
        assert(front.take(k) =~= body.take(k));
    }
}

/// The code of the statements of a function from a place on returns to
/// the caller with the value that the statements give, and the caller's
/// stack as it was.
pub proof fn lemma_body_agrees(
    code: Seq<Instruction>,
    at: int,
    body: Seq<Stmt>,
    slots: Map<Seq<char>, i64>,
    label: i64,
    from: int,
    machine: Machine,
    store: Store,
    caller: Machine,
) -> (after: Machine)
    requires
        placed(code, at, body_code(body, slots, label) + fallthrough_code(body)),
        marks_once(code),
        0 <= from <= body.len(),
        machine.pc == at + body_code(body.take(from), slots, label).len(),
        framed(machine, slots, store, declarations(body.take(from)), caller),
        slotted(body, slots),
        run(body, from, store) is Some,
        body_dividends_natural(body, from, store),
        from == body.len() ==> !ends_in_return(body),
    ensures
        comes_back(code, machine, after),
        Some(after.rax) == run(body, from, store),
        after.rsp == caller.rsp,
        after.rbp == caller.rbp,
    decreases body.len() - from,
{
    let whole = body_code(body, slots, label);
    lemma_placed_parts(code, at, whole, fallthrough_code(body));
    if from == body.len() {
        assert(body.take(from) =~= body);
        let clear = seq![Instruction::Mov(Immediate(0), Operand::Register(Rax))];
        lemma_placed_parts(code, at + whole.len(), clear, epilogue());
        assert(code[at + whole.len() + 0] == clear[0]);
        let cleared = Machine { rax: 0, ..machine }.next();
        assert(step(code, machine) == Outcome::Running(cleared));
        lemma_reaches_self(code, machine);
        lemma_reaches_next(code, machine, machine, cleared);
        let after = lemma_epilogue_runs(code, at + whole.len() + 1, cleared, caller);
        lemma_reaches_comes_back(code, machine, cleared, after);
        after
    } else {
        let statement = body[from];
        let depth = declarations(body.take(from));
        lemma_statement_placed(code, at, body, slots, label, from);
        assert(body.take(from + 1).drop_last() =~= body.take(from));
        assert(body.take(from + 1).last() == statement);
        let reached = lemma_statement_agrees(
            code,
            machine.pc,
            statement,
            slots,
            advance(label, body_clauses(body.take(from))),
            machine,
            store,
            depth,
            caller,
        );
        match execute(statement, store)->0 {
            Flow::Goes(next) => {
                let after = lemma_body_agrees(
                    code,
                    at,
                    body,
                    slots,
                    label,
                    from + 1,
                    reached,
                    next,
                    caller,
                );
                lemma_reaches_comes_back(code, machine, reached, after);
                after
            },
            Flow::Leaves(_) => reached,
        }
    }
}

/// The code of a function, run from its first instruction, returns to the
/// caller with the value of the function in the accumulator and the
/// caller's stack and frame base as they were.
///
/// This holds where the function has a value, its variables have their
/// slots in the order of their declarations, and no division that is come
/// to has a negative dividend.
pub proof fn lemma_function_agrees(
    code: Seq<Instruction>,
    at: int,
    function: FunctionModel,
    label: i64,
    machine: Machine,
) -> (after: Machine)
    requires
        placed(code, at, function_code(function, label)),
        marks_once(code),
        machine.pc == at,
        slotted(function.body, function.frame.slots),
        result(function) is Some,
        body_dividends_natural(function.body, 0, Map::empty()),
    ensures
        comes_back(code, machine, after),
        Some(after.rax) == result(function),
        after.rsp == machine.rsp,
        after.rbp == machine.rbp,
{
    let body = function.body;
    let slots = function.frame.slots;
    let enter = prologue(function.name);
    let rest = body_code(body, slots, label) + fallthrough_code(body);
    assert(function_code(function, label) =~= enter + rest);
    lemma_placed_parts(code, at, enter, rest);
    assert(code[at + 0] == enter[0] && code[at + 1] == enter[1] && code[at + 2] == enter[2]
        && code[at + 3] == enter[3]);
    let first = machine.next();
    let second = first.next();
    let third = Machine {
        rsp: machine.rsp - 8,
        memory: machine.memory.insert(machine.rsp - 8, machine.rbp),
        ..second
    }.next();
    let fourth = Machine { rbp: machine.rsp - 8, ..third }.next();
    assert(step(code, machine) == Outcome::Running(first));
    assert(step(code, first) == Outcome::Running(second));
    assert(step(code, second) == Outcome::Running(third));
    assert(step(code, third) == Outcome::Running(fourth));
    lemma_reaches_self(code, machine);
    lemma_reaches_next(code, machine, machine, first);
    lemma_reaches_next(code, machine, first, second);
    lemma_reaches_next(code, machine, second, third);
    lemma_reaches_next(code, machine, third, fourth);
    assert(body.take(0) =~= Seq::<Stmt>::empty());
    let after = lemma_body_agrees(
        code,
        at + 4,
        body,
        slots,
        label,
        0,
        fourth,
        Map::empty(),
        machine,
    );
    lemma_reaches_comes_back(code, machine, fourth, after);
    after
}

/// The code that is generated for a function that was parsed, run from
/// its first instruction, returns to the caller with the value of the
/// function in the accumulator, wherever the function has a value and no
/// division that is come to has a negative dividend.
pub proof fn lemma_compiled_agrees(tokens: Seq<Token>, machine: Machine) -> (after: Machine)
    requires
        tokens.len() <= MAX_TOKENS,
        parse_function(tokens) matches Ok(function) && result(function) is Some
            && body_dividends_natural(function.body, 0, Map::empty()),
        machine.pc == 0,
    ensures
        comes_back(function_code(parse_function(tokens)->Ok_0, 0), machine, after),
        Some(after.rax) == result(parse_function(tokens)->Ok_0),
        after.rsp == machine.rsp,
        after.rbp == machine.rbp,
{
    let function = parse_function(tokens)->Ok_0;
    let code = function_code(function, 0);
    lemma_function_faithful(tokens);
    lemma_function_slotted(tokens);
    lemma_function_labelled(function, 0);
    lemma_function_agrees(code, 0, function, 0, machine)
}

} // verus!
