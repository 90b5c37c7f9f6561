use acc::emitter::Asm;
use acc::generator::program::program_asm;
use acc::lexer::parse as lex;
use acc::parser::program;
use std::collections::HashMap;

// A small interpreter of the emitted text: the registers, a memory of
// words, the flags of the last comparison as its two operands.
struct Machine {
    rax: i64,
    rcx: i64,
    rdx: i64,
    rbp: i64,
    rsp: i64,
    memory: HashMap<i64, i64>,
    compared: (i64, i64),
}

fn address(machine: &Machine, operand: &str) -> i64 {
    let open = operand.find('(').unwrap();
    let offset: i64 = operand[..open].parse().unwrap();
    offset + read(machine, &operand[open + 1..operand.len() - 1])
}

fn read(machine: &Machine, operand: &str) -> i64 {
    if let Some(value) = operand.strip_prefix('$') {
        return value.parse().unwrap();
    }
    match operand {
        "%rax" => machine.rax,
        "%rcx" => machine.rcx,
        "%rdx" => machine.rdx,
        "%rbp" => machine.rbp,
        "%rsp" => machine.rsp,
        _ => machine.memory[&address(machine, operand)],
    }
}

fn write(machine: &mut Machine, operand: &str, value: i64) {
    match operand {
        "%rax" => machine.rax = value,
        "%rcx" => machine.rcx = value,
        "%rdx" => machine.rdx = value,
        "%rbp" => machine.rbp = value,
        "%rsp" => machine.rsp = value,
        _ => {
            let place = address(machine, operand);
            machine.memory.insert(place, value);
        }
    }
}

fn run_text(text: &str) -> (i64, Machine) {
    let code: Vec<&str> = text.lines().collect();
    let mut labels = HashMap::new();
    for (place, line) in code.iter().enumerate() {
        if let Some(label) = line.strip_suffix(':') {
            assert!(labels.insert(label, place).is_none(), "label {} twice", label);
        }
    }
    let base = 1 << 20;
    let mut machine = Machine {
        rax: 0x1111,
        rcx: 0x2222,
        rdx: 0x3333,
        rbp: 0x4444,
        rsp: base,
        memory: HashMap::new(),
        compared: (0, 0),
    };
    let mut pc = labels["_main"];
    let mut count = 0;
    loop {
        count += 1;
        assert!(count < 100000);
        let line = code[pc];
        pc += 1;
        if line.ends_with(':') || line.starts_with("\t.globl") {
            continue;
        }
        let mut parts = line[1..].split('\t');
        let mnemonic = parts.next().unwrap();
        let operands: Vec<&str> = parts.next().unwrap_or("").split(", ").collect();
        match mnemonic {
            "mov" => {
                let value = read(&machine, operands[0]);
                write(&mut machine, operands[1], value);
            }
            "push" => {
                machine.rsp -= 8;
                let value = read(&machine, operands[0]);
                machine.memory.insert(machine.rsp, value);
            }
            "pop" => {
                let value = machine.memory[&machine.rsp];
                machine.rsp += 8;
                write(&mut machine, operands[0], value);
            }
            "add" | "sub" | "imul" => {
                let source = read(&machine, operands[0]);
                let old = read(&machine, operands[1]);
                let value = match mnemonic {
                    "add" => old.wrapping_add(source),
                    "sub" => old.wrapping_sub(source),
                    _ => old.wrapping_mul(source),
                };
                write(&mut machine, operands[1], value);
            }
            "neg" => {
                let old = read(&machine, operands[0]);
                write(&mut machine, operands[0], old.wrapping_neg());
            }
            "not" => {
                let old = read(&machine, operands[0]);
                write(&mut machine, operands[0], !old);
            }
            "idiv" => {
                let divisor = read(&machine, operands[0]) as i128;
                let dividend = ((machine.rdx as i128) << 64) | (machine.rax as u64 as i128);
                assert!(divisor != 0, "division by zero");
                let quotient = dividend / divisor;
                assert!(i64::try_from(quotient).is_ok(), "quotient out of range");
                machine.rax = quotient as i64;
                machine.rdx = (dividend % divisor) as i64;
            }
            "cmp" => {
                machine.compared = (read(&machine, operands[0]), read(&machine, operands[1]));
            }
            "sete" | "setne" | "setl" | "setle" | "setg" | "setge" => {
                assert_eq!(operands[0], "%al");
                let (first, second) = machine.compared;
                let holds = match mnemonic {
                    "sete" => second == first,
                    "setne" => second != first,
                    "setl" => second < first,
                    "setle" => second <= first,
                    "setg" => second > first,
                    _ => second >= first,
                };
                machine.rax = (machine.rax & !0xff) | holds as i64;
            }
            "jmp" => pc = labels[operands[0]],
            "je" => {
                if machine.compared.1 == machine.compared.0 {
                    pc = labels[operands[0]];
                }
            }
            "jne" => {
                if machine.compared.1 != machine.compared.0 {
                    pc = labels[operands[0]];
                }
            }
            "ret" => {
                assert_eq!(machine.rsp, base, "the stack is not as the caller left it");
                assert_eq!(machine.rbp, 0x4444, "the frame base is not the caller's");
                return (machine.rax, machine);
            }
            _ => panic!("unknown instruction {}", line),
        }
    }
}

fn compile(source: &str) -> String {
    let tokens = lex(source.to_string()).unwrap();
    let tree = program::parse(tokens).unwrap();
    let mut out = Asm::default();
    program_asm(&mut out, tree);
    out.source
}

fn result(source: &str) -> i64 {
    run_text(&compile(source)).0
}

fn value(expression: &str) -> i64 {
    result(&format!("int main(){{ return {}; }}", expression))
}

// What the process would exit with.
fn status(source: &str) -> i64 {
    result(source) & 0xff
}

// The word in the slot of the variable declared at the given place.
fn variable(source: &str, place: i64) -> i64 {
    let (_, machine) = run_text(&compile(source));
    machine.memory[&((1 << 20) - 16 - 8 * place)]
}

#[test]
fn subtraction_is_evaluated_from_the_left() {
    assert_eq!(value("1 - 2 - 3"), -4);
    assert_eq!(value("10 - 4 - 3 - 2"), 1);
    assert_eq!(value("1 - (2 - 3)"), 2);
}

#[test]
fn multiplication_and_division_bind_tighter() {
    assert_eq!(value("2 + 3 * 4"), 14);
    assert_eq!(value("2 * 3 + 4"), 10);
    assert_eq!(value("(2 + 3) * 4"), 20);
    assert_eq!(value("20 - 12 / 4"), 17);
    assert_eq!(value("100 / 10 / 5"), 2);
    assert_eq!(value("100 / (10 / 5)"), 50);
}

#[test]
fn arithmetic_wraps() {
    assert_eq!(value("9223372036854775807 + 1"), i64::MIN);
    assert_eq!(value("-9223372036854775807 - 2"), i64::MAX);
    assert_eq!(value("4611686018427387904 * 2"), i64::MIN);
}

#[test]
fn division_rounds_toward_zero() {
    assert_eq!(value("7 / 2"), 3);
    assert_eq!(value("7 / -2"), -3);
    assert_eq!(value("0 / 5"), 0);
    assert_eq!(value("6 / 3"), 2);
    assert_eq!(value("9223372036854775807 / -1"), -9223372036854775807);
}

#[test]
fn a_negative_dividend_is_divided_as_a_large_positive_one() {
    // The high half of the dividend is cleared, not filled with the sign.
    assert_eq!(value("-7 / 2"), 9223372036854775804);
    assert_eq!(value("(0 - 8) / 4"), 4611686018427387902);
}

#[test]
fn unary_operators_have_their_values() {
    assert_eq!(value("-5"), -5);
    assert_eq!(value("--5"), 5);
    assert_eq!(value("~0"), -1);
    assert_eq!(value("~12"), -13);
    assert_eq!(value("!5"), 0);
    assert_eq!(value("!0"), 1);
    assert_eq!(value("!!7"), 1);
    assert_eq!(value("-~!0"), 2);
}

#[test]
fn comparisons_give_zero_or_one() {
    assert_eq!(value("1 < 2"), 1);
    assert_eq!(value("2 < 1"), 0);
    assert_eq!(value("2 < 2"), 0);
    assert_eq!(value("2 <= 2"), 1);
    assert_eq!(value("3 <= 2"), 0);
    assert_eq!(value("3 > 2"), 1);
    assert_eq!(value("2 > 2"), 0);
    assert_eq!(value("2 >= 2"), 1);
    assert_eq!(value("1 >= 2"), 0);
    assert_eq!(value("2 == 2"), 1);
    assert_eq!(value("2 == 3"), 0);
    assert_eq!(value("2 != 3"), 1);
    assert_eq!(value("2 != 2"), 0);
    assert_eq!(value("-1 < 1"), 1);
    assert_eq!(value("1 < 2 == 1"), 1);
    assert_eq!(value("1 + 1 < 3"), 1);
}

#[test]
fn or_skips_its_right_operand_where_the_left_is_not_zero() {
    let source = "int main(){ int x = 3; int y = 0; int r = x || (y = 5); return r; }";
    assert_eq!(result(source), 1);
    assert_eq!(variable(source, 1), 0);
}

#[test]
fn or_evaluates_its_right_operand_where_the_left_is_zero() {
    let source = "int main(){ int x = 0; int y = 0; int r = x || (y = 5); return r; }";
    assert_eq!(result(source), 1);
    assert_eq!(variable(source, 1), 5);
    let source = "int main(){ int x = 0; int y = 7; int r = x || (y = 0); return r; }";
    assert_eq!(result(source), 0);
    assert_eq!(variable(source, 1), 0);
}

#[test]
fn and_skips_its_right_operand_where_the_left_is_zero() {
    let source = "int main(){ int x = 0; int y = 0; int r = x && (y = 5); return r; }";
    assert_eq!(result(source), 0);
    assert_eq!(variable(source, 1), 0);
}

#[test]
fn and_evaluates_its_right_operand_where_the_left_is_not_zero() {
    let source = "int main(){ int x = 2; int y = 0; int r = x && (y = 5); return r; }";
    assert_eq!(result(source), 1);
    assert_eq!(variable(source, 1), 5);
    let source = "int main(){ int x = 2; int y = 1; int r = x && (y = 0); return r; }";
    assert_eq!(result(source), 0);
    assert_eq!(variable(source, 1), 0);
}

#[test]
fn short_circuit_operators_give_zero_or_one() {
    assert_eq!(value("0 || 0"), 0);
    assert_eq!(value("0 || 9"), 1);
    assert_eq!(value("9 || 0"), 1);
    assert_eq!(value("9 && 8"), 1);
    assert_eq!(value("9 && 0"), 0);
    assert_eq!(value("0 && 8"), 0);
    assert_eq!(value("0 || 0 || 3"), 1);
    assert_eq!(value("1 && 2 && 0"), 0);
    assert_eq!(value("0 && 1 || 1"), 1);
    assert_eq!(value("1 || 0 && 0"), 1);
    assert_eq!(value("(1 || 0) && 0"), 0);
}

#[test]
fn nested_short_circuits_find_their_own_labels() {
    assert_eq!(value("(1 || (0 && (2 || 3))) && ((4 && 5) || 6) || 7"), 1);
    assert_eq!(value("(0 || (0 && (2 || 3))) || ((4 && 0) || 0) || 0"), 0);
    assert_eq!(value("((0 || 1) && (1 && (0 || 1))) + ((0 && 1) || (1 && 1))"), 2);
}

#[test]
fn the_end_to_end_programs_exit_as_they_should() {
    assert_eq!(status("int main(){ int a = 1 + 2 * 3; return a; }"), 7);
    assert_eq!(status("int main(){ return !5; }"), 0);
    assert_eq!(status("int main(){ return 1 < 2; }"), 1);
    assert_eq!(status("int main(){ int a = 0; int b = (a = 3) && (a = 4); return a; }"), 4);
}

#[test]
fn an_assignment_has_the_value_assigned() {
    assert_eq!(result("int main(){ int a; int b; a = b = 4; return a + b; }"), 8);
    assert_eq!(result("int main(){ int a = 1; return (a = a + 1) * a; }"), 4);
}

#[test]
fn variables_keep_their_slots() {
    let source = "int main(){ int a = 1; int b = 2; int c = a + b * 10; a = c - b; return a; }";
    assert_eq!(result(source), 19);
    assert_eq!(variable(source, 0), 19);
    assert_eq!(variable(source, 1), 2);
    assert_eq!(variable(source, 2), 21);
}

#[test]
fn a_declaration_without_a_value_is_zero() {
    assert_eq!(result("int main(){ int a; return a; }"), 0);
    assert_eq!(result("int main(){ int a = 5; int b; return a + b; }"), 5);
}

#[test]
fn a_function_without_a_return_gives_zero() {
    assert_eq!(result("int main(){ }"), 0);
    assert_eq!(result("int main(){ int a = 5; a = a + 1; }"), 0);
}

#[test]
fn the_first_return_leaves_the_function() {
    assert_eq!(result("int main(){ return 1; return 2; }"), 1);
    assert_eq!(result("int main(){ int a = 3; return a; a = 4; return a; }"), 3);
    assert_eq!(result("int main(){ int a = 3; return a; int b = 9; }"), 3);
}

#[test]
fn the_stack_is_balanced_however_deep_the_expression() {
    assert_eq!(value("1 + (2 + (3 + (4 + (5 + (6 + (7 + 8))))))"), 36);
    assert_eq!(value("((((((1 + 2) * 3) - 4) * 5) + 6) / 7)"), 4);
    assert_eq!(
        result("int main(){ int a = 2; int b = (a + (a * (a + (a * a)))) == 14; return b + a; }"),
        3
    );
}
