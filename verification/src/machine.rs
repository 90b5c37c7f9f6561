//! A model of the target machine, as far as the generated code uses it.
//!
//! The machine has the registers that the code names, a memory of 64-bit
//! words, the operands of the last comparison, and a program counter that
//! is a position in the code. Arithmetic is that of signed 64-bit words.
//! Addresses are not bounded: the stack never runs out.

use vstd::prelude::*;
use crate::emitter::{Condition, Instruction, Label, Operand, Register};

verus! {

/// The state of the machine.
pub struct Machine {
    pub rax: int,
    pub rcx: int,
    pub rdx: int,
    pub rbp: int,
    pub rsp: int,
    pub memory: Map<int, int>,
    /// The first and the second operand of the last comparison.
    pub compared: (int, int),
    /// The position in the code of the instruction that runs next.
    pub pc: int,
}

/// How a run goes on, or how it ended.
pub enum Outcome {
    Running(Machine),
    /// The code returned to its caller, with the machine as given.
    Returned(Machine),
    /// The machine cannot go on: the instruction is ill-formed, reads
    /// memory that was never written, jumps to no label or divides out of
    /// range.
    Fault,
}

/// The number of values of a 64-bit word.
pub open spec fn word() -> int {
    0x1_0000_0000_0000_0000
}

/// Whether `value` is a signed 64-bit word.
pub open spec fn fits(value: int) -> bool {
    i64::MIN <= value <= i64::MAX
}

/// The signed 64-bit word that arithmetic leaves of `value`.
pub open spec fn wrap(value: int) -> int {
    let low = value % word();
    if low > i64::MAX {
        low - word()
    } else {
        low
    }
}

/// The word `value` read as an unsigned number.
pub open spec fn unsigned(value: int) -> int {
    value % word()
}

/// The quotient of `dividend` by `divisor`, rounded toward zero.
pub open spec fn quotient(dividend: int, divisor: int) -> int {
    if dividend >= 0 {
        if divisor > 0 {
            dividend / divisor
        } else {
            -(dividend / (-divisor))
        }
    } else {
        if divisor > 0 {
            -((-dividend) / divisor)
        } else {
            (-dividend) / (-divisor)
        }
    }
}

/// The word `value` with its low byte replaced by `byte`.
pub open spec fn with_low_byte(value: int, byte: int) -> int {
    value - value % 256 + byte
}

/// Whether a comparison of `compared.0` with `compared.1` set the flags
/// that `condition` tests: the second operand is what is compared, the
/// first what it is compared to.
pub open spec fn holds(condition: Condition, compared: (int, int)) -> bool {
    match condition {
        Condition::Equal => compared.1 == compared.0,
        Condition::NotEqual => compared.1 != compared.0,
        Condition::Less => compared.1 < compared.0,
        Condition::LessOrEqual => compared.1 <= compared.0,
        Condition::Greater => compared.1 > compared.0,
        Condition::GreaterOrEqual => compared.1 >= compared.0,
    }
}

impl Machine {
    /// What a register holds.
    pub open spec fn register(self, register: Register) -> int {
        match register {
            Register::Rax => self.rax,
            Register::Rcx => self.rcx,
            Register::Rdx => self.rdx,
            Register::Rbp => self.rbp,
            Register::Rsp => self.rsp,
            Register::Al => self.rax % 256,
        }
    }

    /// What an operand holds, if it can be read.
    pub open spec fn read(self, operand: Operand) -> Option<int> {
        match operand {
            Operand::Register(register) => Some(self.register(register)),
            Operand::Memory(slot) => {
                let address = self.register(slot.register) + slot.offset;
                if self.memory.contains_key(address) {
                    Some(self.memory[address])
                } else {
                    None
                }
            },
            Operand::Immediate(value) => Some(value as int),
        }
    }

    /// The machine after `value` is written to an operand, if it can be
    /// written as a whole word.
    pub open spec fn write(self, operand: Operand, value: int) -> Option<Machine> {
        match operand {
            Operand::Register(Register::Rax) => Some(Machine { rax: value, ..self }),
            Operand::Register(Register::Rcx) => Some(Machine { rcx: value, ..self }),
            Operand::Register(Register::Rdx) => Some(Machine { rdx: value, ..self }),
            Operand::Register(Register::Rbp) => Some(Machine { rbp: value, ..self }),
            Operand::Register(Register::Rsp) => Some(Machine { rsp: value, ..self }),
            Operand::Register(Register::Al) => None,
            Operand::Memory(slot) => Some(
                Machine {
                    memory: self.memory.insert(self.register(slot.register) + slot.offset, value),
                    ..self
                },
            ),
            Operand::Immediate(_) => None,
        }
    }

    /// The machine at the next instruction.
    pub open spec fn next(self) -> Machine {
        Machine { pc: self.pc + 1, ..self }
    }

    /// The machine at the instruction at `position`.
    pub open spec fn at(self, position: int) -> Machine {
        Machine { pc: position, ..self }
    }
}

/// A position at which `code` marks `label`, if there is one.
pub open spec fn position(code: Seq<Instruction>, label: Label) -> Option<int> {
    if exists|i: int| 0 <= i < code.len() && #[trigger] code[i] == Instruction::Mark(label) {
        Some(choose|i: int| 0 <= i < code.len() && #[trigger] code[i] == Instruction::Mark(label))
    } else {
        None
    }
}

/// What becomes of `machine` when it jumps to `label`.
pub open spec fn jump(code: Seq<Instruction>, machine: Machine, label: Label) -> Outcome {
    match position(code, label) {
        Some(place) => Outcome::Running(machine.at(place)),
        None => Outcome::Fault,
    }
}

/// What becomes of `machine` when a value read from `source`, changed by
/// `change`, is written to `destination`.
pub open spec fn transfer(
    machine: Machine,
    source: Operand,
    destination: Operand,
    change: spec_fn(int, int) -> int,
) -> Outcome {
    match (machine.read(source), machine.read(destination)) {
        (Some(value), Some(old)) => match machine.write(destination, change(value, old)) {
            Some(after) => Outcome::Running(after.next()),
            None => Outcome::Fault,
        },
        _ => Outcome::Fault,
    }
}

/// What becomes of `machine` when it divides by what `source` holds. The
/// dividend is the double word with `%rdx` as its high and `%rax` as its
/// low half; the quotient, rounded toward zero, goes to `%rax` and the
/// remainder to `%rdx`. A zero divisor and a quotient that is no signed
/// word are faults.
pub open spec fn divide(machine: Machine, source: Operand) -> Outcome {
    match machine.read(source) {
        Some(divisor) => {
            let dividend = machine.rdx * word() + unsigned(machine.rax);
            if divisor == 0 || !fits(quotient(dividend, divisor)) {
                Outcome::Fault
            } else {
                Outcome::Running(
                    Machine {
                        rax: quotient(dividend, divisor),
                        rdx: dividend - quotient(dividend, divisor) * divisor,
                        ..machine
                    }.next(),
                )
            }
        },
        None => Outcome::Fault,
    }
}

/// What becomes of `machine` when it runs the instruction at its program
/// counter.
pub open spec fn step(code: Seq<Instruction>, machine: Machine) -> Outcome {
    if !(0 <= machine.pc < code.len()) {
        Outcome::Fault
    } else {
        match code[machine.pc] {
            Instruction::Global(_) => Outcome::Running(machine.next()),
            Instruction::Entry(_) => Outcome::Running(machine.next()),
            Instruction::Mark(_) => Outcome::Running(machine.next()),
            Instruction::Mov(source, destination) => transfer(
                machine,
                source,
                destination,
                |value: int, old: int| value,
            ),
            Instruction::Add(source, destination) => transfer(
                machine,
                source,
                destination,
                |value: int, old: int| wrap(old + value),
            ),
            Instruction::Sub(source, destination) => transfer(
                machine,
                source,
                destination,
                |value: int, old: int| wrap(old - value),
            ),
            Instruction::Imul(source, destination) => transfer(
                machine,
                source,
                destination,
                |value: int, old: int| wrap(old * value),
            ),
            Instruction::Neg(destination) => transfer(
                machine,
                destination,
                destination,
                |value: int, old: int| wrap(-old),
            ),
            Instruction::Not(destination) => transfer(
                machine,
                destination,
                destination,
                |value: int, old: int| -old - 1,
            ),
            Instruction::Push(source) => match machine.read(source) {
                Some(value) => Outcome::Running(
                    Machine {
                        rsp: machine.rsp - 8,
                        memory: machine.memory.insert(machine.rsp - 8, value),
                        ..machine
                    }.next(),
                ),
                None => Outcome::Fault,
            },
            Instruction::Pop(destination) => {
                if machine.memory.contains_key(machine.rsp) {
                    let popped = Machine { rsp: machine.rsp + 8, ..machine };
                    match popped.write(destination, machine.memory[machine.rsp]) {
                        Some(after) => Outcome::Running(after.next()),
                        None => Outcome::Fault,
                    }
                } else {
                    Outcome::Fault
                }
            },
            Instruction::Idiv(source) => divide(machine, source),
            Instruction::Cmp(first, second) => match (machine.read(first), machine.read(second)) {
                (Some(a), Some(b)) => Outcome::Running(
                    Machine { compared: (a, b), ..machine }.next(),
                ),
                _ => Outcome::Fault,
            },
            Instruction::SetByte(condition, destination) => {
                if destination == Operand::Register(Register::Al) {
                    Outcome::Running(
                        Machine {
                            rax: with_low_byte(
                                machine.rax,
                                if holds(condition, machine.compared) {
                                    1
                                } else {
                                    0
                                },
                            ),
                            ..machine
                        }.next(),
                    )
                } else {
                    Outcome::Fault
                }
            },
            Instruction::Jmp(label) => jump(code, machine, label),
            Instruction::Je(label) => {
                if holds(Condition::Equal, machine.compared) {
                    jump(code, machine, label)
                } else {
                    Outcome::Running(machine.next())
                }
            },
            Instruction::Jne(label) => {
                if holds(Condition::NotEqual, machine.compared) {
                    jump(code, machine, label)
                } else {
                    Outcome::Running(machine.next())
                }
            },
            Instruction::Ret => Outcome::Returned(machine),
        }
    }
}

/// What becomes of `machine` after `count` instructions, or sooner if the
/// run ends.
pub open spec fn steps(code: Seq<Instruction>, machine: Machine, count: nat) -> Outcome
    decreases count,
{
    if count == 0 {
        Outcome::Running(machine)
    } else {
        match step(code, machine) {
            Outcome::Running(after) => steps(code, after, (count - 1) as nat),
            ended => ended,
        }
    }
}

/// Whether a run from `from` comes to `to`.
pub open spec fn reaches(code: Seq<Instruction>, from: Machine, to: Machine) -> bool {
    exists|count: nat| steps(code, from, count) == Outcome::Running(to)
}

/// Whether a run from `from` returns to the caller with the machine `to`.
pub open spec fn comes_back(code: Seq<Instruction>, from: Machine, to: Machine) -> bool {
    exists|count: nat| steps(code, from, count) == Outcome::Returned(to)
}

/// A run of `first` and then `second` instructions is a run of both.
pub proof fn lemma_steps_add(code: Seq<Instruction>, machine: Machine, first: nat, second: nat)
    ensures
        steps(code, machine, first) matches Outcome::Running(between) ==> steps(
            code,
            machine,
            first + second,
        ) == steps(code, between, second),
    decreases first,
{
    if first > 0 {
        match step(code, machine) {
            Outcome::Running(after) => {
                lemma_steps_add(code, after, (first - 1) as nat, second);
                assert(((first + second) - 1) as nat == (first - 1) as nat + second);
            },
            _ => {},
        }
    }
}

/// A machine reaches itself.
pub proof fn lemma_reaches_self(code: Seq<Instruction>, machine: Machine)
    ensures
        reaches(code, machine, machine),
{
    assert(steps(code, machine, 0) == Outcome::Running(machine));
}

/// A machine reaches what one instruction makes of it.
pub proof fn lemma_reaches_step(code: Seq<Instruction>, from: Machine, to: Machine)
    requires
        step(code, from) == Outcome::Running(to),
    ensures
        reaches(code, from, to),
{
    assert(steps(code, to, 0) == Outcome::Running(to));
    assert(steps(code, from, 1) == Outcome::Running(to));
}

/// A machine reaches what is reached from a machine that it reaches.
pub proof fn lemma_reaches_then(
    code: Seq<Instruction>,
    from: Machine,
    between: Machine,
    to: Machine,
)
    requires
        reaches(code, from, between),
        reaches(code, between, to),
    ensures
        reaches(code, from, to),
{
    let first = choose|count: nat| steps(code, from, count) == Outcome::Running(between);
    let second = choose|count: nat| steps(code, between, count) == Outcome::Running(to);
    lemma_steps_add(code, from, first, second);
    assert(steps(code, from, first + second) == Outcome::Running(to));
}

/// A machine reaches what one instruction makes of a machine that it
/// reaches.
pub proof fn lemma_reaches_next(
    code: Seq<Instruction>,
    from: Machine,
    between: Machine,
    to: Machine,
)
    requires
        reaches(code, from, between),
        step(code, between) == Outcome::Running(to),
    ensures
        reaches(code, from, to),
{
    lemma_reaches_step(code, between, to);
    lemma_reaches_then(code, from, between, to);
}

/// A run that comes to a machine at a return returns with that machine.
pub proof fn lemma_reaches_return(code: Seq<Instruction>, from: Machine, to: Machine)
    requires
        reaches(code, from, to),
        step(code, to) == Outcome::Returned(to),
    ensures
        comes_back(code, from, to),
{
    let first = choose|count: nat| steps(code, from, count) == Outcome::Running(to);
    lemma_steps_add(code, from, first, 1);
    assert(steps(code, to, 0) == Outcome::Running(to));
    assert(steps(code, to, 1) == Outcome::Returned(to));
}

/// A run that comes to a machine from which the code returns, returns.
pub proof fn lemma_reaches_comes_back(
    code: Seq<Instruction>,
    from: Machine,
    between: Machine,
    to: Machine,
)
    requires
        reaches(code, from, between),
        comes_back(code, between, to),
    ensures
        comes_back(code, from, to),
{
    let first = choose|count: nat| steps(code, from, count) == Outcome::Running(between);
    let second = choose|count: nat| steps(code, between, count) == Outcome::Returned(to);
    lemma_steps_add(code, from, first, second);
    assert(steps(code, from, first + second) == Outcome::Returned(to));
}

} // verus!
