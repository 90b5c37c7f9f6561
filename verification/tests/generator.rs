use acc::emitter::{Asm, Condition};
use acc::generator::expression::{expression_asm, logical_or_asm};
use acc::generator::factor::{factor_asm, test_asm, unary_operation_asm};
use acc::generator::function::function_asm;
use acc::generator::program::program_asm;
use acc::generator::statement::statement_asm;
use acc::generator::term::term_asm;
use acc::lexer::{parse as lex, Token};
use acc::parser::factor::Factor;
use acc::parser::{expression, factor, function, program, statement, term, StackFrame};

fn tokens(source: &str) -> Vec<Token> {
    lex(source.to_string()).unwrap()
}

fn frame(names: &[&str]) -> StackFrame {
    let mut frame = StackFrame::default();
    for name in names {
        frame.add_var(name.to_string());
    }
    frame
}

fn lines(code: &[&str]) -> String {
    let mut text = String::new();
    for line in code {
        if !line.ends_with(':') {
            text.push('\t');
        }
        text.push_str(line);
        text.push('\n');
    }
    text
}

fn expression_text(source: &str, names: &[&str]) -> String {
    let names = frame(names);
    let input = tokens(source);
    let (tree, rest) = expression::parse(&input, &names).unwrap();
    assert!(rest.is_empty());
    let mut out = Asm::default();
    expression_asm(&mut out, tree, &names);
    out.source
}

fn program_text(source: &str) -> String {
    let tree = program::parse(tokens(source)).unwrap();
    let mut out = Asm::default();
    program_asm(&mut out, tree);
    out.source
}

#[test]
fn a_constant_is_moved_to_the_accumulator() {
    assert_eq!(expression_text("42", &[]), lines(&["mov\t$42, %rax"]));
}

#[test]
fn a_variable_is_read_from_its_slot() {
    assert_eq!(expression_text("b", &["a", "b"]), lines(&["mov\t-16(%rbp), %rax"]));
}

#[test]
fn an_assignment_stores_the_accumulator() {
    assert_eq!(
        expression_text("a = 5", &["a"]),
        lines(&["mov\t$5, %rax", "mov\t%rax, -8(%rbp)"])
    );
}

#[test]
fn unary_operators_work_on_the_accumulator() {
    assert_eq!(expression_text("-1", &[]), lines(&["mov\t$1, %rax", "neg\t%rax"]));
    assert_eq!(expression_text("~1", &[]), lines(&["mov\t$1, %rax", "not\t%rax"]));
    assert_eq!(
        expression_text("!5", &[]),
        lines(&["mov\t$5, %rax", "cmp\t$0, %rax", "mov\t$0, %rax", "sete\t%al"])
    );
}

#[test]
fn addition_saves_the_left_operand() {
    assert_eq!(
        expression_text("1 + 2", &[]),
        lines(&["mov\t$1, %rax", "push\t%rax", "mov\t$2, %rax", "pop\t%rcx", "add\t%rcx, %rax"])
    );
}

#[test]
fn subtraction_takes_the_right_operand_from_the_left() {
    assert_eq!(
        expression_text("1 - 2", &[]),
        lines(&[
            "mov\t$1, %rax",
            "push\t%rax",
            "mov\t$2, %rax",
            "pop\t%rcx",
            "sub\t%rax, %rcx",
            "mov\t%rcx, %rax",
        ])
    );
}

#[test]
fn multiplication_comes_before_addition() {
    assert_eq!(
        expression_text("2 + 3 * 4", &[]),
        lines(&[
            "mov\t$2, %rax",
            "push\t%rax",
            "mov\t$3, %rax",
            "push\t%rax",
            "mov\t$4, %rax",
            "pop\t%rcx",
            "imul\t%rcx, %rax",
            "pop\t%rcx",
            "add\t%rcx, %rax",
        ])
    );
}

#[test]
fn division_makes_the_left_operand_the_dividend() {
    assert_eq!(
        expression_text("7 / 2", &[]),
        lines(&[
            "mov\t$7, %rax",
            "push\t%rax",
            "mov\t$2, %rax",
            "pop\t%rcx",
            "mov\t%rcx, %rdx",
            "mov\t%rax, %rcx",
            "mov\t%rdx, %rax",
            "mov\t$0, %rdx",
            "idiv\t%rcx",
        ])
    );
}

#[test]
fn comparisons_set_the_low_byte() {
    let compare = |source: &str, set: &str| {
        assert_eq!(
            expression_text(source, &[]),
            lines(&[
                "mov\t$1, %rax",
                "push\t%rax",
                "mov\t$2, %rax",
                "pop\t%rcx",
                "cmp\t%rax, %rcx",
                "mov\t$0, %rax",
                set,
            ])
        );
    };
    compare("1 == 2", "sete\t%al");
    compare("1 != 2", "setne\t%al");
    compare("1 < 2", "setl\t%al");
    compare("1 <= 2", "setle\t%al");
    compare("1 > 2", "setg\t%al");
    compare("1 >= 2", "setge\t%al");
}

#[test]
fn or_skips_the_right_operand_where_the_left_is_not_zero() {
    assert_eq!(
        expression_text("x || (y = 5)", &["x", "y"]),
        lines(&[
            "mov\t-8(%rbp), %rax",
            "cmp\t$0, %rax",
            "je\t_clause_0",
            "mov\t$1, %rax",
            "jmp\t_end_0",
            "_clause_0:",
            "mov\t$5, %rax",
            "mov\t%rax, -16(%rbp)",
            "cmp\t$0, %rax",
            "mov\t$0, %rax",
            "setne\t%al",
            "_end_0:",
        ])
    );
}

#[test]
fn and_skips_the_right_operand_where_the_left_is_zero() {
    assert_eq!(
        expression_text("x && (y = 5)", &["x", "y"]),
        lines(&[
            "mov\t-8(%rbp), %rax",
            "cmp\t$0, %rax",
            "jne\t_clause_0",
            "jmp\t_end_0",
            "_clause_0:",
            "mov\t$5, %rax",
            "mov\t%rax, -16(%rbp)",
            "cmp\t$0, %rax",
            "mov\t$0, %rax",
            "setne\t%al",
            "_end_0:",
        ])
    );
}

#[test]
fn nested_clauses_have_different_labels() {
    let text = expression_text("(1 || (0 && (2 || 3))) && ((4 && 5) || 6) || 7", &[]);
    let mut labels: Vec<&str> = text.lines().filter(|line| line.ends_with(':')).collect();
    assert_eq!(labels.len(), 14);
    labels.sort();
    labels.dedup();
    assert_eq!(labels.len(), 14);
    for n in 0..7 {
        assert!(labels.contains(&format!("_clause_{}:", n).as_str()));
        assert!(labels.contains(&format!("_end_{}:", n).as_str()));
    }
    for line in text.lines() {
        if let Some(target) = line.strip_prefix("\tj") {
            let label = target.split('\t').nth(1).unwrap();
            assert!(labels.contains(&format!("{}:", label).as_str()));
        }
    }
}

#[test]
fn clauses_go_on_from_the_count_of_the_emitter() {
    let names = frame(&[]);
    let mut out = Asm::default();
    let first = tokens("1 || 2");
    let (tree, _) = expression::parse_logical_or(&first, &names).unwrap();
    logical_or_asm(&mut out, tree, &names);
    assert_eq!(out.clause_count, 1);
    let second = tokens("3 && 4 || 5");
    let (tree, _) = expression::parse(&second, &names).unwrap();
    let before = out.source.len();
    expression_asm(&mut out, tree, &names);
    assert_eq!(out.clause_count, 3);
    let text = &out.source[before..];
    assert!(text.contains("_clause_1:") && text.contains("_end_1:"));
    assert!(text.contains("_clause_2:") && text.contains("_end_2:"));
    assert!(!text.contains("_clause_0"));
}

#[test]
fn the_pieces_emit_what_the_whole_emits() {
    let names = frame(&["a"]);
    let mut out = Asm::default();
    factor_asm(&mut out, Factor::Constant(3), &names);
    assert_eq!(out.source, lines(&["mov\t$3, %rax"]));

    let input = tokens("!a");
    let tree = match factor::parse(&input, &names).unwrap().0 {
        Factor::UnaryOperation(operation) => *operation,
        _ => panic!("not a unary operation"),
    };
    let mut out = Asm::default();
    unary_operation_asm(&mut out, tree, &names);
    assert_eq!(
        out.source,
        lines(&["mov\t-8(%rbp), %rax", "cmp\t$0, %rax", "mov\t$0, %rax", "sete\t%al"])
    );

    let mut out = Asm::default();
    test_asm(&mut out, Condition::NotEqual);
    assert_eq!(out.source, lines(&["cmp\t$0, %rax", "mov\t$0, %rax", "setne\t%al"]));

    let input = tokens("a * 2");
    let (tree, _) = term::parse(&input, &names).unwrap();
    let mut out = Asm::default();
    term_asm(&mut out, tree, &names);
    assert_eq!(
        out.source,
        lines(&[
            "mov\t-8(%rbp), %rax",
            "push\t%rax",
            "mov\t$2, %rax",
            "pop\t%rcx",
            "imul\t%rcx, %rax",
        ])
    );
}

#[test]
fn statements_emit_their_code() {
    let text = |source: &str, names: &[&str]| {
        let mut names = frame(names);
        let input = tokens(source);
        let (tree, _) = statement::parse(&input, &mut names).unwrap();
        let mut out = Asm::default();
        statement_asm(&mut out, tree, &names);
        out.source
    };
    assert_eq!(
        text("return 1;", &[]),
        lines(&["mov\t$1, %rax", "mov\t%rbp, %rsp", "pop\t%rbp", "ret"])
    );
    assert_eq!(text("a = 1;", &["a"]), lines(&["mov\t$1, %rax", "mov\t%rax, -8(%rbp)"]));
    assert_eq!(text("int a;", &[]), lines(&["mov\t$0, %rax", "push\t%rax"]));
    assert_eq!(text("int a = 4;", &[]), lines(&["mov\t$4, %rax", "push\t%rax"]));
}

#[test]
fn a_function_that_returns_has_one_epilogue() {
    assert_eq!(
        program_text("int main(){ return 2; }"),
        lines(&[
            ".globl\t_main",
            "_main:",
            "push\t%rbp",
            "mov\t%rsp, %rbp",
            "mov\t$2, %rax",
            "mov\t%rbp, %rsp",
            "pop\t%rbp",
            "ret",
        ])
    );
}

#[test]
fn a_function_without_a_return_returns_zero() {
    assert_eq!(
        program_text("int main(){ int a = 1; }"),
        lines(&[
            ".globl\t_main",
            "_main:",
            "push\t%rbp",
            "mov\t%rsp, %rbp",
            "mov\t$1, %rax",
            "push\t%rax",
            "mov\t$0, %rax",
            "mov\t%rbp, %rsp",
            "pop\t%rbp",
            "ret",
        ])
    );
    assert_eq!(
        program_text("int f(){}"),
        lines(&[
            ".globl\t_f",
            "_f:",
            "push\t%rbp",
            "mov\t%rsp, %rbp",
            "mov\t$0, %rax",
            "mov\t%rbp, %rsp",
            "pop\t%rbp",
            "ret",
        ])
    );
}

#[test]
fn every_return_leaves_the_function() {
    let text = program_text("int main(){ return 1; return 2; }");
    assert_eq!(text.matches("\tret\n").count(), 2);
    let text = program_text("int main(){ return 1; int a; }");
    assert_eq!(text.matches("\tret\n").count(), 2);
    assert!(text.ends_with(&lines(&["mov\t$0, %rax", "mov\t%rbp, %rsp", "pop\t%rbp", "ret"])));
}

#[test]
fn function_asm_emits_what_program_asm_emits() {
    let source = "int main(){ int a = 1 + 2 * 3; return a; }";
    let tree = function::parse(tokens(source)).unwrap();
    let mut out = Asm::default();
    function_asm(&mut out, tree);
    assert_eq!(out.source, program_text(source));
    assert_eq!(
        out.source,
        lines(&[
            ".globl\t_main",
            "_main:",
            "push\t%rbp",
            "mov\t%rsp, %rbp",
            "mov\t$1, %rax",
            "push\t%rax",
            "mov\t$2, %rax",
            "push\t%rax",
            "mov\t$3, %rax",
            "pop\t%rcx",
            "imul\t%rcx, %rax",
            "pop\t%rcx",
            "add\t%rcx, %rax",
            "push\t%rax",
            "mov\t-8(%rbp), %rax",
            "mov\t%rbp, %rsp",
            "pop\t%rbp",
            "ret",
        ])
    );
}
