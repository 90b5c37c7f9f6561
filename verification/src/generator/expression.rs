//! Code for expressions.

use vstd::prelude::*;
use crate::emitter::Operand::{Immediate, Memory};
use crate::emitter::Register::{Al, Rax, Rbp, Rcx};
use crate::emitter::{
    Asm, Clause, ClauseState, Condition, Instruction, Label, Operand, RegisterOffset,
};
use crate::generator::code::{
    advance, branch_code, combine_code, expression_code, operation_code, settle_code,
    test_code,
};
use crate::generator::factor::test_asm;
use crate::generator::term::term_asm;
use crate::generator::{
    emits, lemma_emits_nothing, lemma_emits_one, lemma_emits_push, lemma_emits_then,
};
use crate::parser::expression::{
    additive_links, equality_links, logical_and_links, relational_links, term_links,
    AdditiveExpression, AdditiveOperator, Assignment, BinaryAdditiveExpression,
    BinaryEqualityExpression, BinaryLogicalAndExpression, BinaryRelationalExpression, BinaryTerms,
    EqualityExpression, EqualityOperator, Expression, LogicalAndExpression, LogicalOrExpression,
    RelationalExpression, RelationalOperator,
};
use crate::parser::syntax::{chain, lemma_chain_prefix, BinaryOperator, Link};
use crate::parser::StackFrame;

verus! {

/// Emits the code that evaluates `expression` into the accumulator.
///
/// Every variable of the expression must be in `stack_frame`, and the
/// branch scopes that it takes must not run the emitter's count over.
pub fn expression_asm(out: &mut Asm, expression: Expression, stack_frame: &StackFrame)
    requires
        expression@.declared(stack_frame@.names()),
        old(out).clause_count + expression@.clauses() <= i64::MAX,
    ensures
        emits(
            *old(out),
            *final(out),
            expression_code(expression@, stack_frame@.slots, old(out).clause_count),
            expression@.clauses(),
        ),
    decreases expression, 2nat,
{
    match expression {
        Expression::Assignment(assignment) => {
            assignment_asm(out, assignment, stack_frame);
        },
        Expression::LogicalOrExpression(expression) => {
            logical_or_asm(out, expression, stack_frame);
        },
    }
}

/// Emits the code of a chain of `||`. The operand to the right of an
/// operator is evaluated only where all the operands before it are zero.
pub fn logical_or_asm(out: &mut Asm, expression: LogicalOrExpression, stack_frame: &StackFrame)
    requires
        expression@.declared(stack_frame@.names()),
        old(out).clause_count + expression@.clauses() <= i64::MAX,
    ensures
        emits(
            *old(out),
            *final(out),
            expression_code(expression@, stack_frame@.slots, old(out).clause_count),
            expression@.clauses(),
        ),
    decreases expression, 1nat,
{
    let ghost start = *out;
    let ghost names = stack_frame@.names();
    let ghost slots = stack_frame@.slots;
    let ghost first = expression.expression@;
    let ghost items = expression.binary_expressions@;
    let ghost links = logical_and_links(items);
    proof {
        assert(links.take(0) =~= Seq::<Link>::empty());
        if links.len() > 0 {
            lemma_chain_prefix(first, links, names, 0);
        }
    }
    logical_and_asm(out, expression.expression, stack_frame);
    for binary in iter: expression.binary_expressions
        invariant
            iter.seq() == items,
            links == logical_and_links(items),
            names == stack_frame@.names(),
            slots == stack_frame@.slots,
            chain(first, links).declared(names),
            start.clause_count + chain(first, links).clauses() <= i64::MAX,
            emits(
                start,
                *out,
                expression_code(
                    chain(first, links.take(iter.index() as int)),
                    slots,
                    start.clause_count,
                ),
                chain(first, links.take(iter.index() as int)).clauses(),
            ),
    {
        let ghost between = *out;
        let ghost done = chain(first, links.take(iter.index() as int));
        let ghost link = links[iter.index() as int];
        proof {
            lemma_chain_prefix(first, links, names, iter.index() as int);
            assert(link.0 == binary.operator@);
            assert(link.1 == binary.right_expression@);
        }
        or_operand_asm(out, binary, stack_frame);
        proof {
            lemma_emits_then(
                start,
                between,
                *out,
                expression_code(done, slots, start.clause_count),
                done.clauses(),
                operation_code(link.0, link.1, slots, between.clause_count),
                (link.1.clauses() + 1) as nat,
            );
        }
    }
    proof {
        assert(links.take(links.len() as int) =~= links);
    }
}

/// Emits the code of `||` and its right operand, where the left operand
/// is in the accumulator.
fn or_operand_asm(out: &mut Asm, binary: BinaryLogicalAndExpression, stack_frame: &StackFrame)
    requires
        binary.right_expression@.declared(stack_frame@.names()),
        old(out).clause_count + binary.right_expression@.clauses() + 1 <= i64::MAX,
    ensures
        emits(
            *old(out),
            *final(out),
            operation_code(
                binary.operator@,
                binary.right_expression@,
                stack_frame@.slots,
                old(out).clause_count,
            ),
            binary.right_expression@.clauses() + 1,
        ),
    decreases binary, 0nat,
{
    let ghost start = *out;
    let ghost slots = stack_frame@.slots;
    let ghost right = binary.right_expression@;
    let ghost operator = binary.operator@;
    let mut clause = out.new_clause();
    let ghost opened = *out;
    or_branch_asm(out, &mut clause);
    let ghost branched = *out;
    logical_and_asm(out, binary.right_expression, stack_frame);
    let ghost evaluated = *out;
    settle_asm(out, &mut clause);
    proof {
        let branch = branch_code(operator, start.clause_count);
        let value = expression_code(right, slots, advance(start.clause_count, 1));
        lemma_emits_nothing(start);
        assert(emits(start, opened, Seq::empty(), 1));
        lemma_emits_then(start, opened, branched, Seq::empty(), 1, branch, 0);
        assert(Seq::<Instruction>::empty() + branch =~= branch);
        lemma_emits_then(start, branched, evaluated, branch, 1, value, right.clauses());
        lemma_emits_then(
            start,
            evaluated,
            *out,
            branch + value,
            1 + right.clauses(),
            settle_code(start.clause_count),
            0,
        );
    }
}

/// Emits the code of a chain of `&&`. The operand to the right of an
/// operator is evaluated only where none of the operands before it is zero.
fn logical_and_asm(out: &mut Asm, expression: LogicalAndExpression, stack_frame: &StackFrame)
    requires
        expression@.declared(stack_frame@.names()),
        old(out).clause_count + expression@.clauses() <= i64::MAX,
    ensures
        emits(
            *old(out),
            *final(out),
            expression_code(expression@, stack_frame@.slots, old(out).clause_count),
            expression@.clauses(),
        ),
    decreases expression, 1nat,
{
    let ghost start = *out;
    let ghost names = stack_frame@.names();
    let ghost slots = stack_frame@.slots;
    let ghost first = expression.expression@;
    let ghost items = expression.binary_expressions@;
    let ghost links = equality_links(items);
    proof {
        assert(links.take(0) =~= Seq::<Link>::empty());
        if links.len() > 0 {
            lemma_chain_prefix(first, links, names, 0);
        }
    }
    equality_asm(out, expression.expression, stack_frame);
    for binary in iter: expression.binary_expressions
        invariant
            iter.seq() == items,
            links == equality_links(items),
            names == stack_frame@.names(),
            slots == stack_frame@.slots,
            chain(first, links).declared(names),
            start.clause_count + chain(first, links).clauses() <= i64::MAX,
            emits(
                start,
                *out,
                expression_code(
                    chain(first, links.take(iter.index() as int)),
                    slots,
                    start.clause_count,
                ),
                chain(first, links.take(iter.index() as int)).clauses(),
            ),
    {
        let ghost between = *out;
        let ghost done = chain(first, links.take(iter.index() as int));
        let ghost link = links[iter.index() as int];
        proof {
            lemma_chain_prefix(first, links, names, iter.index() as int);
            assert(link.0 == binary.operator@);
            assert(link.1 == binary.right_expression@);
        }
        and_operand_asm(out, binary, stack_frame);
        proof {
            lemma_emits_then(
                start,
                between,
                *out,
                expression_code(done, slots, start.clause_count),
                done.clauses(),
                operation_code(link.0, link.1, slots, between.clause_count),
                (link.1.clauses() + 1) as nat,
            );
        }
    }
    proof {
        assert(links.take(links.len() as int) =~= links);
    }
}

/// Emits the code of `&&` and its right operand, where the left operand
/// is in the accumulator.
fn and_operand_asm(out: &mut Asm, binary: BinaryEqualityExpression, stack_frame: &StackFrame)
    requires
        binary.right_expression@.declared(stack_frame@.names()),
        old(out).clause_count + binary.right_expression@.clauses() + 1 <= i64::MAX,
    ensures
        emits(
            *old(out),
            *final(out),
            operation_code(
                binary.operator@,
                binary.right_expression@,
                stack_frame@.slots,
                old(out).clause_count,
            ),
            binary.right_expression@.clauses() + 1,
        ),
    decreases binary, 0nat,
{
    let ghost start = *out;
    let ghost slots = stack_frame@.slots;
    let ghost right = binary.right_expression@;
    let ghost operator = binary.operator@;
    let mut clause = out.new_clause();
    let ghost opened = *out;
    and_branch_asm(out, &mut clause);
    let ghost branched = *out;
    equality_asm(out, binary.right_expression, stack_frame);
    let ghost evaluated = *out;
    settle_asm(out, &mut clause);
    proof {
        let branch = branch_code(operator, start.clause_count);
        let value = expression_code(right, slots, advance(start.clause_count, 1));
        lemma_emits_nothing(start);
        assert(emits(start, opened, Seq::empty(), 1));
        lemma_emits_then(start, opened, branched, Seq::empty(), 1, branch, 0);
        assert(Seq::<Instruction>::empty() + branch =~= branch);
        lemma_emits_then(start, branched, evaluated, branch, 1, value, right.clauses());
        lemma_emits_then(
            start,
            evaluated,
            *out,
            branch + value,
            1 + right.clauses(),
            settle_code(start.clause_count),
            0,
        );
    }
}

/// Emits the code of a chain of equality tests.
fn equality_asm(out: &mut Asm, expression: EqualityExpression, stack_frame: &StackFrame)
    requires
        expression@.declared(stack_frame@.names()),
        old(out).clause_count + expression@.clauses() <= i64::MAX,
    ensures
        emits(
            *old(out),
            *final(out),
            expression_code(expression@, stack_frame@.slots, old(out).clause_count),
            expression@.clauses(),
        ),
    decreases expression, 1nat,
{
    let ghost start = *out;
    let ghost names = stack_frame@.names();
    let ghost slots = stack_frame@.slots;
    let ghost first = expression.expression@;
    let ghost items = expression.binary_expressions@;
    let ghost links = relational_links(items);
    proof {
        assert(links.take(0) =~= Seq::<Link>::empty());
        if links.len() > 0 {
            lemma_chain_prefix(first, links, names, 0);
        }
    }
    relational_asm(out, expression.expression, stack_frame);
    for binary in iter: expression.binary_expressions
        invariant
            iter.seq() == items,
            links == relational_links(items),
            names == stack_frame@.names(),
            slots == stack_frame@.slots,
            chain(first, links).declared(names),
            start.clause_count + chain(first, links).clauses() <= i64::MAX,
            emits(
                start,
                *out,
                expression_code(
                    chain(first, links.take(iter.index() as int)),
                    slots,
                    start.clause_count,
                ),
                chain(first, links.take(iter.index() as int)).clauses(),
            ),
    {
        let ghost between = *out;
        let ghost done = chain(first, links.take(iter.index() as int));
        let ghost link = links[iter.index() as int];
        proof {
            lemma_chain_prefix(first, links, names, iter.index() as int);
            assert(link.0 == binary.operator@);
            assert(link.1 == binary.right_expression@);
        }
        equality_operand_asm(out, binary, stack_frame);
        proof {
            lemma_emits_then(
                start,
                between,
                *out,
                expression_code(done, slots, start.clause_count),
                done.clauses(),
                operation_code(link.0, link.1, slots, between.clause_count),
                (link.1.clauses()) as nat,
            );
        }
    }
    proof {
        assert(links.take(links.len() as int) =~= links);
    }
}

/// Emits the code of an equality test and its right operand, where the
/// left operand is in the accumulator.
fn equality_operand_asm(out: &mut Asm, binary: BinaryRelationalExpression, stack_frame: &StackFrame)
    requires
        binary.right_expression@.declared(stack_frame@.names()),
        old(out).clause_count + binary.right_expression@.clauses() <= i64::MAX,
    ensures
        emits(
            *old(out),
            *final(out),
            operation_code(
                binary.operator@,
                binary.right_expression@,
                stack_frame@.slots,
                old(out).clause_count,
            ),
            binary.right_expression@.clauses(),
        ),
    decreases binary, 0nat,
{
    let ghost start = *out;
    let ghost slots = stack_frame@.slots;
    let ghost right = binary.right_expression@;
    let ghost operator = binary.operator@;
    out.push(&Operand::Register(Rax));
    let ghost saved = *out;
    relational_asm(out, binary.right_expression, stack_frame);
    let ghost evaluated = *out;
    out.pop(&Operand::Register(Rcx));
    let ghost restored = *out;
    equality_combine_asm(out, binary.operator);
    proof {
        let save = seq![Instruction::Push(Operand::Register(Rax))];
        let value = expression_code(right, slots, start.clause_count);
        let restore = seq![Instruction::Pop(Operand::Register(Rcx))];
        lemma_emits_one(start, saved, Instruction::Push(Operand::Register(Rax)));
        lemma_emits_then(start, saved, evaluated, save, 0, value, right.clauses());
        lemma_emits_one(evaluated, restored, Instruction::Pop(Operand::Register(Rcx)));
        lemma_emits_then(start, evaluated, restored, save + value, right.clauses(), restore, 0);
        lemma_emits_then(
            start,
            restored,
            *out,
            save + value + restore,
            right.clauses(),
            combine_code(operator),
            0,
        );
    }
}

/// Emits the code of a chain of ordering tests.
fn relational_asm(out: &mut Asm, expression: RelationalExpression, stack_frame: &StackFrame)
    requires
        expression@.declared(stack_frame@.names()),
        old(out).clause_count + expression@.clauses() <= i64::MAX,
    ensures
        emits(
            *old(out),
            *final(out),
            expression_code(expression@, stack_frame@.slots, old(out).clause_count),
            expression@.clauses(),
        ),
    decreases expression, 1nat,
{
    let ghost start = *out;
    let ghost names = stack_frame@.names();
    let ghost slots = stack_frame@.slots;
    let ghost first = expression.expression@;
    let ghost items = expression.binary_expressions@;
    let ghost links = additive_links(items);
    proof {
        assert(links.take(0) =~= Seq::<Link>::empty());
        if links.len() > 0 {
            lemma_chain_prefix(first, links, names, 0);
        }
    }
    additive_asm(out, expression.expression, stack_frame);
    for binary in iter: expression.binary_expressions
        invariant
            iter.seq() == items,
            links == additive_links(items),
            names == stack_frame@.names(),
            slots == stack_frame@.slots,
            chain(first, links).declared(names),
            start.clause_count + chain(first, links).clauses() <= i64::MAX,
            emits(
                start,
                *out,
                expression_code(
                    chain(first, links.take(iter.index() as int)),
                    slots,
                    start.clause_count,
                ),
                chain(first, links.take(iter.index() as int)).clauses(),
            ),
    {
        let ghost between = *out;
        let ghost done = chain(first, links.take(iter.index() as int));
        let ghost link = links[iter.index() as int];
        proof {
            lemma_chain_prefix(first, links, names, iter.index() as int);
            assert(link.0 == binary.operator@);
            assert(link.1 == binary.right_expression@);
        }
        relational_operand_asm(out, binary, stack_frame);
        proof {
            lemma_emits_then(
                start,
                between,
                *out,
                expression_code(done, slots, start.clause_count),
                done.clauses(),
                operation_code(link.0, link.1, slots, between.clause_count),
                (link.1.clauses()) as nat,
            );
        }
    }
    proof {
        assert(links.take(links.len() as int) =~= links);
    }
}

/// Emits the code of an ordering test and its right operand, where the
/// left operand is in the accumulator.
fn relational_operand_asm(out: &mut Asm, binary: BinaryAdditiveExpression, stack_frame: &StackFrame)
    requires
        binary.right_expression@.declared(stack_frame@.names()),
        old(out).clause_count + binary.right_expression@.clauses() <= i64::MAX,
    ensures
        emits(
            *old(out),
            *final(out),
            operation_code(
                binary.operator@,
                binary.right_expression@,
                stack_frame@.slots,
                old(out).clause_count,
            ),
            binary.right_expression@.clauses(),
        ),
    decreases binary, 0nat,
{
    let ghost start = *out;
    let ghost slots = stack_frame@.slots;
    let ghost right = binary.right_expression@;
    let ghost operator = binary.operator@;
    out.push(&Operand::Register(Rax));
    let ghost saved = *out;
    additive_asm(out, binary.right_expression, stack_frame);
    let ghost evaluated = *out;
    out.pop(&Operand::Register(Rcx));
    let ghost restored = *out;
    relational_combine_asm(out, binary.operator);
    proof {
        let save = seq![Instruction::Push(Operand::Register(Rax))];
        let value = expression_code(right, slots, start.clause_count);
        let restore = seq![Instruction::Pop(Operand::Register(Rcx))];
        lemma_emits_one(start, saved, Instruction::Push(Operand::Register(Rax)));
        lemma_emits_then(start, saved, evaluated, save, 0, value, right.clauses());
        lemma_emits_one(evaluated, restored, Instruction::Pop(Operand::Register(Rcx)));
        lemma_emits_then(start, evaluated, restored, save + value, right.clauses(), restore, 0);
        lemma_emits_then(
            start,
            restored,
            *out,
            save + value + restore,
            right.clauses(),
            combine_code(operator),
            0,
        );
    }
}

/// Emits the code of a chain of additions and subtractions.
fn additive_asm(out: &mut Asm, expression: AdditiveExpression, stack_frame: &StackFrame)
    requires
        expression@.declared(stack_frame@.names()),
        old(out).clause_count + expression@.clauses() <= i64::MAX,
    ensures
        emits(
            *old(out),
            *final(out),
            expression_code(expression@, stack_frame@.slots, old(out).clause_count),
            expression@.clauses(),
        ),
    decreases expression, 1nat,
{
    let ghost start = *out;
    let ghost names = stack_frame@.names();
    let ghost slots = stack_frame@.slots;
    let ghost first = expression.term@;
    let ghost items = expression.binary_terms@;
    let ghost links = term_links(items);
    proof {
        assert(links.take(0) =~= Seq::<Link>::empty());
        if links.len() > 0 {
            lemma_chain_prefix(first, links, names, 0);
        }
    }
    term_asm(out, expression.term, stack_frame);
    for binary in iter: expression.binary_terms
        invariant
            iter.seq() == items,
            links == term_links(items),
            names == stack_frame@.names(),
            slots == stack_frame@.slots,
            chain(first, links).declared(names),
            start.clause_count + chain(first, links).clauses() <= i64::MAX,
            emits(
                start,
                *out,
                expression_code(
                    chain(first, links.take(iter.index() as int)),
                    slots,
                    start.clause_count,
                ),
                chain(first, links.take(iter.index() as int)).clauses(),
            ),
    {
        let ghost between = *out;
        let ghost done = chain(first, links.take(iter.index() as int));
        let ghost link = links[iter.index() as int];
        proof {
            lemma_chain_prefix(first, links, names, iter.index() as int);
            assert(link.0 == binary.operator@);
            assert(link.1 == binary.right_term@);
        }
        additive_operand_asm(out, binary, stack_frame);
        proof {
            lemma_emits_then(
                start,
                between,
                *out,
                expression_code(done, slots, start.clause_count),
                done.clauses(),
                operation_code(link.0, link.1, slots, between.clause_count),
                (link.1.clauses()) as nat,
            );
        }
    }
    proof {
        assert(links.take(links.len() as int) =~= links);
    }
}

/// Emits the code of an addition or subtraction and its right operand,
/// where the left operand is in the accumulator.
fn additive_operand_asm(out: &mut Asm, binary: BinaryTerms, stack_frame: &StackFrame)
    requires
        binary.right_term@.declared(stack_frame@.names()),
        old(out).clause_count + binary.right_term@.clauses() <= i64::MAX,
    ensures
        emits(
            *old(out),
            *final(out),
            operation_code(
                binary.operator@,
                binary.right_term@,
                stack_frame@.slots,
                old(out).clause_count,
            ),
            binary.right_term@.clauses(),
        ),
    decreases binary, 0nat,
{
    let ghost start = *out;
    let ghost slots = stack_frame@.slots;
    let ghost right = binary.right_term@;
    let ghost operator = binary.operator@;
    out.push(&Operand::Register(Rax));
    let ghost saved = *out;
    term_asm(out, binary.right_term, stack_frame);
    let ghost evaluated = *out;
    out.pop(&Operand::Register(Rcx));
    let ghost restored = *out;
    additive_combine_asm(out, binary.operator);
    proof {
        let save = seq![Instruction::Push(Operand::Register(Rax))];
        let value = expression_code(right, slots, start.clause_count);
        let restore = seq![Instruction::Pop(Operand::Register(Rcx))];
        lemma_emits_one(start, saved, Instruction::Push(Operand::Register(Rax)));
        lemma_emits_then(start, saved, evaluated, save, 0, value, right.clauses());
        lemma_emits_one(evaluated, restored, Instruction::Pop(Operand::Register(Rcx)));
        lemma_emits_then(start, evaluated, restored, save + value, right.clauses(), restore, 0);
        lemma_emits_then(
            start,
            restored,
            *out,
            save + value + restore,
            right.clauses(),
            combine_code(operator),
            0,
        );
    }
}

/// Emits the branch of `||`: a left operand that is not zero makes the
/// result 1 and skips the right operand. Starts the scope.
fn or_branch_asm(out: &mut Asm, clause: &mut Clause)
    requires
        old(clause).state == ClauseState::New,
    ensures
        emits(*old(out), *final(out), branch_code(BinaryOperator::Or, old(clause).count), 0),
        final(clause).state == ClauseState::Started,
        final(clause).count == old(clause).count,
{
    let ghost start = *out;
    let ghost mut last = *out;
    let ghost mut code = Seq::<Instruction>::empty();
    proof {
        lemma_emits_nothing(start);
    }
    out.cmp(&Immediate(0), &Operand::Register(Rax));
    proof {
        let emitted = Instruction::Cmp(Immediate(0), Operand::Register(Rax));
        lemma_emits_push(start, last, *out, code, 0, emitted);
        code = code.push(emitted);
        last = *out;
    }
    out.je(clause.start_id());
    proof {
        let emitted = Instruction::Je(Label::Start(clause.count));
        lemma_emits_push(start, last, *out, code, 0, emitted);
        code = code.push(emitted);
        last = *out;
    }
    out.mov(&Immediate(1), &Operand::Register(Rax));
    proof {
        let emitted = Instruction::Mov(Immediate(1), Operand::Register(Rax));
        lemma_emits_push(start, last, *out, code, 0, emitted);
        code = code.push(emitted);
        last = *out;
    }
    out.jmp(clause.end_id());
    proof {
        let emitted = Instruction::Jmp(Label::End(clause.count));
        lemma_emits_push(start, last, *out, code, 0, emitted);
        code = code.push(emitted);
        last = *out;
    }
    out.start_clause(clause);
    proof {
        let emitted = Instruction::Mark(Label::Start(clause.count));
        lemma_emits_push(start, last, *out, code, 0, emitted);
        code = code.push(emitted);
        last = *out;
    }
    assert(code =~= branch_code(BinaryOperator::Or, clause.count));
}

/// Emits the branch of `&&`: a left operand that is zero is the result and
/// skips the right operand. Starts the scope.
fn and_branch_asm(out: &mut Asm, clause: &mut Clause)
    requires
        old(clause).state == ClauseState::New,
    ensures
        emits(*old(out), *final(out), branch_code(BinaryOperator::And, old(clause).count), 0),
        final(clause).state == ClauseState::Started,
        final(clause).count == old(clause).count,
{
    let ghost start = *out;
    let ghost mut last = *out;
    let ghost mut code = Seq::<Instruction>::empty();
    proof {
        lemma_emits_nothing(start);
    }
    out.cmp(&Immediate(0), &Operand::Register(Rax));
    proof {
        let emitted = Instruction::Cmp(Immediate(0), Operand::Register(Rax));
        lemma_emits_push(start, last, *out, code, 0, emitted);
        code = code.push(emitted);
        last = *out;
    }
    out.jne(clause.start_id());
    proof {
        let emitted = Instruction::Jne(Label::Start(clause.count));
        lemma_emits_push(start, last, *out, code, 0, emitted);
        code = code.push(emitted);
        last = *out;
    }
    out.jmp(clause.end_id());
    proof {
        let emitted = Instruction::Jmp(Label::End(clause.count));
        lemma_emits_push(start, last, *out, code, 0, emitted);
        code = code.push(emitted);
        last = *out;
    }
    out.start_clause(clause);
    proof {
        let emitted = Instruction::Mark(Label::Start(clause.count));
        lemma_emits_push(start, last, *out, code, 0, emitted);
        code = code.push(emitted);
        last = *out;
    }
    assert(code =~= branch_code(BinaryOperator::And, clause.count));
}

/// Emits what follows the right operand of a short-circuit operator: its
/// value becomes 0 or 1. Ends the scope.
fn settle_asm(out: &mut Asm, clause: &mut Clause)
    requires
        old(clause).state == ClauseState::Started,
    ensures
        emits(*old(out), *final(out), settle_code(old(clause).count), 0),
        final(clause).state == ClauseState::Ended,
        final(clause).count == old(clause).count,
{
    let ghost start = *out;
    test_asm(out, Condition::NotEqual);
    let ghost tested = *out;
    out.end_clause(clause);
    proof {
        lemma_emits_push(
            start,
            tested,
            *out,
            test_code(Condition::NotEqual),
            0,
            Instruction::Mark(Label::End(clause.count)),
        );
    }
}

/// Emits the code that replaces the accumulator by the outcome of an
/// equality test of the saved left operand against it.
fn equality_combine_asm(out: &mut Asm, operator: EqualityOperator)
    ensures
        emits(*old(out), *final(out), combine_code(operator@), 0),
{
    let ghost start = *out;
    proof {
        lemma_emits_nothing(start);
    }
    match operator {
        EqualityOperator::Equal => {
            let ghost mut last = *out;
            let ghost mut code = Seq::<Instruction>::empty();
            out.cmp(&Operand::Register(Rax), &Operand::Register(Rcx));
            proof {
                let emitted = Instruction::Cmp(Operand::Register(Rax), Operand::Register(Rcx));
                lemma_emits_push(start, last, *out, code, 0, emitted);
                code = code.push(emitted);
                last = *out;
            }
            out.mov(&Immediate(0), &Operand::Register(Rax));
            proof {
                let emitted = Instruction::Mov(Immediate(0), Operand::Register(Rax));
                lemma_emits_push(start, last, *out, code, 0, emitted);
                code = code.push(emitted);
                last = *out;
            }
            out.sete(&Operand::Register(Al));
            proof {
                let emitted = Instruction::SetByte(Condition::Equal, Operand::Register(Al));
                lemma_emits_push(start, last, *out, code, 0, emitted);
                code = code.push(emitted);
                last = *out;
            }
            assert(code =~= combine_code(operator@));
        },
        EqualityOperator::NotEqual => {
            let ghost mut last = *out;
            let ghost mut code = Seq::<Instruction>::empty();
            out.cmp(&Operand::Register(Rax), &Operand::Register(Rcx));
            proof {
                let emitted = Instruction::Cmp(Operand::Register(Rax), Operand::Register(Rcx));
                lemma_emits_push(start, last, *out, code, 0, emitted);
                code = code.push(emitted);
                last = *out;
            }
            out.mov(&Immediate(0), &Operand::Register(Rax));
            proof {
                let emitted = Instruction::Mov(Immediate(0), Operand::Register(Rax));
                lemma_emits_push(start, last, *out, code, 0, emitted);
                code = code.push(emitted);
                last = *out;
            }
            out.setne(&Operand::Register(Al));
            proof {
                let emitted = Instruction::SetByte(Condition::NotEqual, Operand::Register(Al));
                lemma_emits_push(start, last, *out, code, 0, emitted);
                code = code.push(emitted);
                last = *out;
            }
            assert(code =~= combine_code(operator@));
        },
    }
}

/// Emits the code that replaces the accumulator by the outcome of an
/// ordering test of the saved left operand against it.
fn relational_combine_asm(out: &mut Asm, operator: RelationalOperator)
    ensures
        emits(*old(out), *final(out), combine_code(operator@), 0),
{
    let ghost start = *out;
    proof {
        lemma_emits_nothing(start);
    }
    match operator {
        RelationalOperator::LessThan => {
            let ghost mut last = *out;
            let ghost mut code = Seq::<Instruction>::empty();
            out.cmp(&Operand::Register(Rax), &Operand::Register(Rcx));
            proof {
                let emitted = Instruction::Cmp(Operand::Register(Rax), Operand::Register(Rcx));
                lemma_emits_push(start, last, *out, code, 0, emitted);
                code = code.push(emitted);
                last = *out;
            }
            out.mov(&Immediate(0), &Operand::Register(Rax));
            proof {
                let emitted = Instruction::Mov(Immediate(0), Operand::Register(Rax));
                lemma_emits_push(start, last, *out, code, 0, emitted);
                code = code.push(emitted);
                last = *out;
            }
            out.setl(&Operand::Register(Al));
            proof {
                let emitted = Instruction::SetByte(Condition::Less, Operand::Register(Al));
                lemma_emits_push(start, last, *out, code, 0, emitted);
                code = code.push(emitted);
                last = *out;
            }
            assert(code =~= combine_code(operator@));
        },
        RelationalOperator::LessThanOrEqual => {
            let ghost mut last = *out;
            let ghost mut code = Seq::<Instruction>::empty();
            out.cmp(&Operand::Register(Rax), &Operand::Register(Rcx));
            proof {
                let emitted = Instruction::Cmp(Operand::Register(Rax), Operand::Register(Rcx));
                lemma_emits_push(start, last, *out, code, 0, emitted);
                code = code.push(emitted);
                last = *out;
            }
            out.mov(&Immediate(0), &Operand::Register(Rax));
            proof {
                let emitted = Instruction::Mov(Immediate(0), Operand::Register(Rax));
                lemma_emits_push(start, last, *out, code, 0, emitted);
                code = code.push(emitted);
                last = *out;
            }
            out.setle(&Operand::Register(Al));
            proof {
                let emitted = Instruction::SetByte(Condition::LessOrEqual, Operand::Register(Al));
                lemma_emits_push(start, last, *out, code, 0, emitted);
                code = code.push(emitted);
                last = *out;
            }
            assert(code =~= combine_code(operator@));
        },
        RelationalOperator::GreaterThan => {
            let ghost mut last = *out;
            let ghost mut code = Seq::<Instruction>::empty();
            out.cmp(&Operand::Register(Rax), &Operand::Register(Rcx));
            proof {
                let emitted = Instruction::Cmp(Operand::Register(Rax), Operand::Register(Rcx));
                lemma_emits_push(start, last, *out, code, 0, emitted);
                code = code.push(emitted);
                last = *out;
            }
            out.mov(&Immediate(0), &Operand::Register(Rax));
            proof {
                let emitted = Instruction::Mov(Immediate(0), Operand::Register(Rax));
                lemma_emits_push(start, last, *out, code, 0, emitted);
                code = code.push(emitted);
                last = *out;
            }
            out.setg(&Operand::Register(Al));
            proof {
                let emitted = Instruction::SetByte(Condition::Greater, Operand::Register(Al));
                lemma_emits_push(start, last, *out, code, 0, emitted);
                code = code.push(emitted);
                last = *out;
            }
            assert(code =~= combine_code(operator@));
        },
        RelationalOperator::GreaterThanOrEqual => {
            let ghost mut last = *out;
            let ghost mut code = Seq::<Instruction>::empty();
            out.cmp(&Operand::Register(Rax), &Operand::Register(Rcx));
            proof {
                let emitted = Instruction::Cmp(Operand::Register(Rax), Operand::Register(Rcx));
                lemma_emits_push(start, last, *out, code, 0, emitted);
                code = code.push(emitted);
                last = *out;
            }
            out.mov(&Immediate(0), &Operand::Register(Rax));
            proof {
                let emitted = Instruction::Mov(Immediate(0), Operand::Register(Rax));
                lemma_emits_push(start, last, *out, code, 0, emitted);
                code = code.push(emitted);
                last = *out;
            }
            out.setge(&Operand::Register(Al));
            proof {
                let emitted = Instruction::SetByte(
                    Condition::GreaterOrEqual,
                    Operand::Register(Al),
                );
                lemma_emits_push(start, last, *out, code, 0, emitted);
                code = code.push(emitted);
                last = *out;
            }
            assert(code =~= combine_code(operator@));
        },
    }
}

/// Emits the code that adds the accumulator to the saved left operand, or
/// takes it from the saved left operand, and leaves the result in the
/// accumulator.
fn additive_combine_asm(out: &mut Asm, operator: AdditiveOperator)
    ensures
        emits(*old(out), *final(out), combine_code(operator@), 0),
{
    let ghost start = *out;
    proof {
        lemma_emits_nothing(start);
    }
    match operator {
        AdditiveOperator::Addition => {
            let ghost mut last = *out;
            let ghost mut code = Seq::<Instruction>::empty();
            out.add(&Operand::Register(Rcx), &Operand::Register(Rax));
            proof {
                let emitted = Instruction::Add(Operand::Register(Rcx), Operand::Register(Rax));
                lemma_emits_push(start, last, *out, code, 0, emitted);
                code = code.push(emitted);
                last = *out;
            }
            assert(code =~= combine_code(operator@));
        },
        AdditiveOperator::Subtraction => {
            let ghost mut last = *out;
            let ghost mut code = Seq::<Instruction>::empty();
            out.sub(&Operand::Register(Rax), &Operand::Register(Rcx));
            proof {
                let emitted = Instruction::Sub(Operand::Register(Rax), Operand::Register(Rcx));
                lemma_emits_push(start, last, *out, code, 0, emitted);
                code = code.push(emitted);
                last = *out;
            }
            out.mov(&Operand::Register(Rcx), &Operand::Register(Rax));
            proof {
                let emitted = Instruction::Mov(Operand::Register(Rcx), Operand::Register(Rax));
                lemma_emits_push(start, last, *out, code, 0, emitted);
                code = code.push(emitted);
                last = *out;
            }
            assert(code =~= combine_code(operator@));
        },
    }
}

/// Emits the code of an assignment: the value is evaluated into the
/// accumulator and stored in the slot of the variable. The accumulator
/// keeps the value.
fn assignment_asm(out: &mut Asm, assignment: Box<Assignment>, stack_frame: &StackFrame)
    requires
        assignment@.declared(stack_frame@.names()),
        old(out).clause_count + assignment@.clauses() <= i64::MAX,
    ensures
        emits(
            *old(out),
            *final(out),
            expression_code(assignment@, stack_frame@.slots, old(out).clause_count),
            assignment@.clauses(),
        ),
    decreases assignment, 0nat,
{
    let ghost start = *out;
    let ghost value = assignment.expression@;
    let Assignment { var, expression } = *assignment;
    expression_asm(out, expression, stack_frame);
    let ghost evaluated = *out;
    match stack_frame.vars.get(var.name.as_str()) {
        Some(offset) => {
            let slot = RegisterOffset { register: Rbp, offset: *offset };
            out.mov(&Operand::Register(Rax), &Memory(slot));
            proof {
                lemma_emits_push(
                    start,
                    evaluated,
                    *out,
                    expression_code(value, stack_frame@.slots, start.clause_count),
                    value.clauses(),
                    Instruction::Mov(Operand::Register(Rax), Memory(slot)),
                );
            }
        },
        None => {
            assert(false);
        },
    }
}

} // verus!
