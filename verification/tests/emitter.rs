use acc::emitter::{
    integer_string, Asm, Clause, ClauseState, Operand, Register, RegisterOffset,
};

fn reg(register: Register) -> Operand {
    Operand::Register(register)
}

fn emitted(emit: impl FnOnce(&mut Asm)) -> String {
    let mut out = Asm::default();
    emit(&mut out);
    assert_eq!(out.clause_count, 0);
    out.source
}

#[test]
fn mov_writes_one_line() {
    let mut out = Asm::default();
    out.mov(&Operand::Immediate(7), &Operand::Register(Register::Rax));
    assert_eq!(out.source, "\tmov\t$7, %rax\n");
}

#[test]
fn a_new_emitter_is_empty() {
    let out = Asm::default();
    assert_eq!(out.source, "");
    assert_eq!(out.clause_count, 0);
    assert_eq!(ClauseState::default(), ClauseState::New);
}

#[test]
fn operands_are_written_in_their_forms() {
    assert_eq!(reg(Register::Rax).render(), "%rax");
    assert_eq!(reg(Register::Rcx).render(), "%rcx");
    assert_eq!(reg(Register::Rdx).render(), "%rdx");
    assert_eq!(reg(Register::Rbp).render(), "%rbp");
    assert_eq!(reg(Register::Rsp).render(), "%rsp");
    assert_eq!(reg(Register::Al).render(), "%al");
    assert_eq!(Register::Al.name(), "%al");
    assert_eq!(Operand::Immediate(0).render(), "$0");
    assert_eq!(Operand::Immediate(-12).render(), "$-12");
    let slot = RegisterOffset { register: Register::Rbp, offset: -16 };
    assert_eq!(slot.render(), "-16(%rbp)");
    assert_eq!(Operand::Memory(slot).render(), "-16(%rbp)");
    let slot = RegisterOffset { register: Register::Rsp, offset: 8 };
    assert_eq!(slot.render(), "8(%rsp)");
}

#[test]
fn integers_are_written_in_decimal() {
    assert_eq!(integer_string(0), "0");
    assert_eq!(integer_string(9), "9");
    assert_eq!(integer_string(10), "10");
    assert_eq!(integer_string(1234567890), "1234567890");
    assert_eq!(integer_string(-1), "-1");
    assert_eq!(integer_string(-105), "-105");
    assert_eq!(integer_string(i64::MAX), "9223372036854775807");
    assert_eq!(integer_string(i64::MIN), "-9223372036854775808");
}

#[test]
fn each_mnemonic_writes_its_line() {
    let rax = reg(Register::Rax);
    let rcx = reg(Register::Rcx);
    let al = reg(Register::Al);
    assert_eq!(emitted(|out| out.push(&rax)), "\tpush\t%rax\n");
    assert_eq!(emitted(|out| out.pop(&rcx)), "\tpop\t%rcx\n");
    assert_eq!(emitted(|out| out.ret()), "\tret\n");
    assert_eq!(emitted(|out| out.add(&rcx, &rax)), "\tadd\t%rcx, %rax\n");
    assert_eq!(emitted(|out| out.sub(&rax, &rcx)), "\tsub\t%rax, %rcx\n");
    assert_eq!(emitted(|out| out.imul(&rcx, &rax)), "\timul\t%rcx, %rax\n");
    assert_eq!(emitted(|out| out.idiv(&rcx)), "\tidiv\t%rcx\n");
    assert_eq!(emitted(|out| out.neg(&rax)), "\tneg\t%rax\n");
    assert_eq!(emitted(|out| out.not(&rax)), "\tnot\t%rax\n");
    assert_eq!(emitted(|out| out.cmp(&Operand::Immediate(0), &rax)), "\tcmp\t$0, %rax\n");
    assert_eq!(emitted(|out| out.sete(&al)), "\tsete\t%al\n");
    assert_eq!(emitted(|out| out.setne(&al)), "\tsetne\t%al\n");
    assert_eq!(emitted(|out| out.setl(&al)), "\tsetl\t%al\n");
    assert_eq!(emitted(|out| out.setle(&al)), "\tsetle\t%al\n");
    assert_eq!(emitted(|out| out.setg(&al)), "\tsetg\t%al\n");
    assert_eq!(emitted(|out| out.setge(&al)), "\tsetge\t%al\n");
    assert_eq!(emitted(|out| out.jmp("_end_3".to_string())), "\tjmp\t_end_3\n");
    assert_eq!(emitted(|out| out.je("_clause_0".to_string())), "\tje\t_clause_0\n");
    assert_eq!(emitted(|out| out.jne("_clause_12".to_string())), "\tjne\t_clause_12\n");
    let slot = Operand::Memory(RegisterOffset { register: Register::Rbp, offset: -8 });
    assert_eq!(emitted(|out| out.mov(&rax, &slot)), "\tmov\t%rax, -8(%rbp)\n");
    assert_eq!(emitted(|out| out.mov(&slot, &rax)), "\tmov\t-8(%rbp), %rax\n");
}

#[test]
fn lines_are_appended_in_order() {
    let mut out = Asm::default();
    out.mov(&Operand::Immediate(1), &reg(Register::Rax));
    out.push(&reg(Register::Rax));
    out.ret();
    assert_eq!(out.source, "\tmov\t$1, %rax\n\tpush\t%rax\n\tret\n");
}

#[test]
fn declare_function_writes_the_symbol_and_the_prologue() {
    assert_eq!(
        emitted(|out| out.declare_function("main".to_string())),
        "\t.globl\t_main\n_main:\n\tpush\t%rbp\n\tmov\t%rsp, %rbp\n"
    );
}

#[test]
fn function_return_writes_the_epilogue_and_the_return() {
    assert_eq!(
        emitted(|out| out.function_return()),
        "\tmov\t%rbp, %rsp\n\tpop\t%rbp\n\tret\n"
    );
}

#[test]
fn clauses_are_numbered_in_the_order_they_are_taken() {
    let mut out = Asm::default();
    let first = out.new_clause();
    let second = out.new_clause();
    let third = out.new_clause();
    assert_eq!(out.clause_count, 3);
    assert_eq!(out.source, "");
    assert_eq!((first.count, second.count, third.count), (0, 1, 2));
    assert_eq!(first.state, ClauseState::New);
    assert_eq!(first.start_id(), "_clause_0");
    assert_eq!(first.end_id(), "_end_0");
    assert_eq!(third.start_id(), "_clause_2");
    assert_eq!(third.end_id(), "_end_2");
}

#[test]
fn a_clause_goes_from_new_to_started_to_ended() {
    let mut out = Asm::default();
    let mut clause = out.new_clause();
    assert_eq!(clause.state, ClauseState::New);
    out.start_clause(&mut clause);
    assert_eq!(clause.state, ClauseState::Started);
    assert_eq!(out.source, "_clause_0:\n");
    out.end_clause(&mut clause);
    assert_eq!(clause.state, ClauseState::Ended);
    assert_eq!(clause.count, 0);
    assert_eq!(out.source, "_clause_0:\n_end_0:\n");
    assert_eq!(out.clause_count, 1);
}

#[test]
fn a_label_is_named_by_the_number_of_its_clause() {
    let clause = Clause { state: ClauseState::New, count: 41 };
    assert_eq!(clause.start_id(), "_clause_41");
    assert_eq!(clause.end_id(), "_end_41");
}
