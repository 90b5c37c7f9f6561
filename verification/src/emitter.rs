//! The assembly emitter: an append-only buffer of instruction text, one
//! mnemonic per method, and the allocator of branch-label pairs.
//!
//! Every method is specified by the line it appends. A line is the text of
//! an [`Instruction`], the structured form that the rest of the crate reasons
//! about.

use vstd::prelude::*;
use vstd::string::*;

verus! {

/// A machine register, by its name in the emitted text.
#[derive(Debug, Clone, Copy, PartialEq, Eq, Structural)]
pub enum Register {
    Rax,
    Rcx,
    Rdx,
    Rbp,
    Rsp,
    Al,
}

/// A memory operand: the slot at `offset` bytes from the address in `register`.
#[derive(Debug, Clone, Copy, PartialEq, Eq, Structural)]
pub struct RegisterOffset {
    pub register: Register,
    pub offset: i64,
}

/// What an instruction reads or writes.
#[derive(Debug, Clone, Copy, PartialEq, Eq, Structural)]
pub enum Operand {
    Register(Register),
    Memory(RegisterOffset),
    Immediate(i64),
}

/// The lifecycle of a branch scope. The only legal path is
/// `New`, then `Started`, then `Ended`.
#[derive(Debug, Clone, Copy, PartialEq, Eq, Structural)]
pub enum ClauseState {
    New,
    Started,
    Ended,
}

/// A branch scope: the pair of labels numbered `count`.
#[derive(Debug)]
pub struct Clause {
    pub state: ClauseState,
    pub count: i64,
}

/// One of the two labels of a branch scope.
pub enum Label {
    Start(i64),
    End(i64),
}

/// The flag test of a set-on-condition instruction.
pub enum Condition {
    Equal,
    NotEqual,
    Less,
    LessOrEqual,
    Greater,
    GreaterOrEqual,
}

/// One emitted line, in structured form.
pub enum Instruction {
    /// Exports the symbol of the function called `name`.
    Global(Seq<char>),
    /// The entry point of the function called `name`.
    Entry(Seq<char>),
    Mov(Operand, Operand),
    Push(Operand),
    Pop(Operand),
    Ret,
    Add(Operand, Operand),
    Sub(Operand, Operand),
    Imul(Operand, Operand),
    Idiv(Operand),
    Neg(Operand),
    Not(Operand),
    Cmp(Operand, Operand),
    SetByte(Condition, Operand),
    Jmp(Label),
    Je(Label),
    Jne(Label),
    /// The place that a label names.
    Mark(Label),
}

/// The emitter's state: the text emitted so far and the number of the next
/// branch scope.
#[derive(Debug)]
pub struct Asm {
    pub clause_count: i64,
    pub source: String,
}

/// The character that stands for the digit `d`.
pub open spec fn digit(d: int) -> char {
    if d == 0 {
        '0'
    } else if d == 1 {
        '1'
    } else if d == 2 {
        '2'
    } else if d == 3 {
        '3'
    } else if d == 4 {
        '4'
    } else if d == 5 {
        '5'
    } else if d == 6 {
        '6'
    } else if d == 7 {
        '7'
    } else if d == 8 {
        '8'
    } else {
        '9'
    }
}

/// The decimal digits of a natural number, most significant first.
pub open spec fn natural_text(n: int) -> Seq<char>
    decreases n,
{
    if n < 10 {
        seq![digit(n)]
    } else {
        natural_text(n / 10).push(digit(n % 10))
    }
}

/// The decimal text of an integer, with a leading `-` when it is negative.
pub open spec fn integer_text(v: int) -> Seq<char> {
    if v < 0 {
        seq!['-'] + natural_text(-v)
    } else {
        natural_text(v)
    }
}

/// The text of a line with one operand: a tab, the mnemonic, a tab, the
/// operand, a line feed.
pub open spec fn unary_line(mnemonic: Seq<char>, operand: Seq<char>) -> Seq<char> {
    "\t"@ + mnemonic + "\t"@ + operand + "\n"@
}

/// The text of a line with two operands, separated by a comma and a space.
pub open spec fn binary_line(mnemonic: Seq<char>, first: Seq<char>, second: Seq<char>) -> Seq<
    char,
> {
    "\t"@ + mnemonic + "\t"@ + first + ", "@ + second + "\n"@
}

/// The text of a line that declares a label.
pub open spec fn label_line(name: Seq<char>) -> Seq<char> {
    name + ":\n"@
}

impl Register {
    /// The register as it is written in the emitted text.
    pub open spec fn text(self) -> Seq<char> {
        match self {
            Register::Rax => "%rax"@,
            Register::Rcx => "%rcx"@,
            Register::Rdx => "%rdx"@,
            Register::Rbp => "%rbp"@,
            Register::Rsp => "%rsp"@,
            Register::Al => "%al"@,
        }
    }

    /// The register as it is written in the emitted text.
    pub fn name(&self) -> (r: &'static str)
        ensures
            r@ == self.text(),
    {
        match self {
            Register::Rax => "%rax",
            Register::Rcx => "%rcx",
            Register::Rdx => "%rdx",
            Register::Rbp => "%rbp",
            Register::Rsp => "%rsp",
            Register::Al => "%al",
        }
    }
}

impl RegisterOffset {
    /// The offset in decimal, then the register in parentheses.
    pub open spec fn text(self) -> Seq<char> {
        integer_text(self.offset as int) + "("@ + self.register.text() + ")"@
    }

    /// The operand as it is written in the emitted text.
    pub fn render(&self) -> (r: String)
        ensures
            r@ == self.text(),
    {
        let mut r = integer_string(self.offset);
        r.append("(");
        r.append(self.register.name());
        r.append(")");
        r
    }
}

impl Operand {
    /// A register by its name, a memory slot as offset and base, a literal
    /// as `$` and its decimal value.
    pub open spec fn text(self) -> Seq<char> {
        match self {
            Operand::Register(register) => register.text(),
            Operand::Memory(slot) => slot.text(),
            Operand::Immediate(value) => "$"@ + integer_text(value as int),
        }
    }

    /// The operand as it is written in the emitted text.
    pub fn render(&self) -> (r: String)
        ensures
            r@ == self.text(),
    {
        match self {
            Operand::Register(register) => String::from_str(register.name()),
            Operand::Memory(slot) => slot.render(),
            Operand::Immediate(value) => {
                let mut r = String::from_str("$");
                let digits = integer_string(*value);
                r.append(digits.as_str());
                r
            },
        }
    }
}

impl Label {
    /// The number of the branch scope that the label belongs to.
    pub open spec fn count(self) -> i64 {
        match self {
            Label::Start(n) => n,
            Label::End(n) => n,
        }
    }

    /// `_clause_` or `_end_`, then the scope's number.
    pub open spec fn text(self) -> Seq<char> {
        match self {
            Label::Start(n) => "_clause_"@ + integer_text(n as int),
            Label::End(n) => "_end_"@ + integer_text(n as int),
        }
    }
}

impl Condition {
    /// The mnemonic of the set-on-condition instruction.
    pub open spec fn mnemonic(self) -> Seq<char> {
        match self {
            Condition::Equal => "sete"@,
            Condition::NotEqual => "setne"@,
            Condition::Less => "setl"@,
            Condition::LessOrEqual => "setle"@,
            Condition::Greater => "setg"@,
            Condition::GreaterOrEqual => "setge"@,
        }
    }
}

impl Instruction {
    /// The line that the emitter writes for the instruction.
    pub open spec fn text(self) -> Seq<char> {
        match self {
            Instruction::Global(name) => "\t.globl\t_"@ + name + "\n"@,
            Instruction::Entry(name) => "_"@ + name + ":\n"@,
            Instruction::Mov(src, dest) => binary_line("mov"@, src.text(), dest.text()),
            Instruction::Push(src) => unary_line("push"@, src.text()),
            Instruction::Pop(dest) => unary_line("pop"@, dest.text()),
            Instruction::Ret => "\tret\n"@,
            Instruction::Add(src, dest) => binary_line("add"@, src.text(), dest.text()),
            Instruction::Sub(src, dest) => binary_line("sub"@, src.text(), dest.text()),
            Instruction::Imul(src, dest) => binary_line("imul"@, src.text(), dest.text()),
            Instruction::Idiv(src) => unary_line("idiv"@, src.text()),
            Instruction::Neg(dest) => unary_line("neg"@, dest.text()),
            Instruction::Not(dest) => unary_line("not"@, dest.text()),
            Instruction::Cmp(first, second) => binary_line("cmp"@, first.text(), second.text()),
            Instruction::SetByte(condition, dest) => unary_line(condition.mnemonic(), dest.text()),
            Instruction::Jmp(target) => unary_line("jmp"@, target.text()),
            Instruction::Je(target) => unary_line("je"@, target.text()),
            Instruction::Jne(target) => unary_line("jne"@, target.text()),
            Instruction::Mark(label) => label_line(label.text()),
        }
    }
}

/// The text of a sequence of instructions: their lines, one after another.
pub open spec fn listing(code: Seq<Instruction>) -> Seq<char>
    decreases code.len(),
{
    if code.len() == 0 {
        Seq::empty()
    } else {
        listing(code.drop_last()) + code.last().text()
    }
}

/// The text of two pieces of code in a row is the text of the first followed
/// by the text of the second.
pub broadcast proof fn lemma_listing_concat(first: Seq<Instruction>, second: Seq<Instruction>)
    ensures
        #[trigger] listing(first + second) == listing(first) + listing(second),
    decreases second.len(),
{
    if second.len() == 0 {
        assert(first + second =~= first);
        assert(listing(first) + listing(second) =~= listing(first));
    } else {
        lemma_listing_concat(first, second.drop_last());
        assert((first + second).drop_last() =~= first + second.drop_last());
        assert((first + second).last() == second.last());
        assert(listing(first + second) =~= listing(first) + listing(second));
    }
}

/// The text of a piece of code with one more instruction is the text of
/// the piece followed by the line of the instruction.
pub broadcast proof fn lemma_listing_push(code: Seq<Instruction>, instruction: Instruction)
    ensures
        #[trigger] listing(code.push(instruction)) == listing(code) + instruction.text(),
{
    assert(code.push(instruction).drop_last() =~= code);
}

/// The text of a single instruction, taken as a piece of code, is its line.
pub proof fn lemma_listing_one(instruction: Instruction)
    ensures
        listing(seq![instruction]) == instruction.text(),
{
    let code = seq![instruction];
    assert(code.drop_last() =~= Seq::<Instruction>::empty());
    assert(listing(code.drop_last()) =~= Seq::<char>::empty());
    assert(code.last() == instruction);
    assert(listing(code) =~= instruction.text());
}

/// How the text of a piece of code follows from the text of its parts.
pub broadcast group group_listing {
    lemma_listing_concat,
    lemma_listing_push,
}

/// The instructions on entry to the function called `name`: its symbol, its
/// entry point, and the prologue that saves the caller's frame base and
/// installs a new one.
pub open spec fn prologue(name: Seq<char>) -> Seq<Instruction> {
    seq![
        Instruction::Global(name),
        Instruction::Entry(name),
        Instruction::Push(Operand::Register(Register::Rbp)),
        Instruction::Mov(Operand::Register(Register::Rsp), Operand::Register(Register::Rbp)),
    ]
}

/// The instructions on every way out of a function: the epilogue that
/// restores the caller's frame, then the return.
pub open spec fn epilogue() -> Seq<Instruction> {
    seq![
        Instruction::Mov(Operand::Register(Register::Rbp), Operand::Register(Register::Rsp)),
        Instruction::Pop(Operand::Register(Register::Rbp)),
        Instruction::Ret,
    ]
}

fn digit_str(d: u64) -> (r: &'static str)
    requires
        d < 10,
    ensures
        r@ == seq![digit(d as int)],
{
    proof {
        reveal_strlit("0");
        reveal_strlit("1");
        reveal_strlit("2");
        reveal_strlit("3");
        reveal_strlit("4");
        reveal_strlit("5");
        reveal_strlit("6");
        reveal_strlit("7");
        reveal_strlit("8");
        reveal_strlit("9");
    }
    let r = if d == 0 {
        "0"
    } else if d == 1 {
        "1"
    } else if d == 2 {
        "2"
    } else if d == 3 {
        "3"
    } else if d == 4 {
        "4"
    } else if d == 5 {
        "5"
    } else if d == 6 {
        "6"
    } else if d == 7 {
        "7"
    } else if d == 8 {
        "8"
    } else {
        "9"
    };
    assert(r@ =~= seq![digit(d as int)]);
    r
}

fn natural_string(n: u64) -> (r: String)
    ensures
        r@ == natural_text(n as int),
    decreases n,
{
    if n < 10 {
        String::from_str(digit_str(n))
    } else {
        let mut r = natural_string(n / 10);
        r.append(digit_str(n % 10));
        assert(r@ =~= natural_text(n as int));
        r
    }
}

/// The decimal text of `value`.
pub fn integer_string(value: i64) -> (r: String)
    ensures
        r@ == integer_text(value as int),
{
    if value < 0 {
        let magnitude: u64 = (-(value + 1)) as u64 + 1;
        let mut r = String::from_str("-");
        let digits = natural_string(magnitude);
        r.append(digits.as_str());
        proof {
            reveal_strlit("-");
            assert("-"@ =~= seq!['-']);
        }
        r
    } else {
        natural_string(value as u64)
    }
}

impl Default for ClauseState {
    fn default() -> (r: Self)
        ensures
            r == ClauseState::New,
    {
        ClauseState::New
    }
}

impl Default for Clause {
    fn default() -> (r: Self)
        ensures
            r.state == ClauseState::New,
            r.count == 0,
    {
        Clause { state: ClauseState::New, count: 0 }
    }
}

impl Clause {
    /// The name of the label at which the scope starts.
    pub fn start_id(&self) -> (r: String)
        ensures
            r@ == Label::Start(self.count).text(),
    {
        let mut r = String::from_str("_clause_");
        let digits = integer_string(self.count);
        r.append(digits.as_str());
        r
    }

    /// The name of the label at which the scope ends.
    pub fn end_id(&self) -> (r: String)
        ensures
            r@ == Label::End(self.count).text(),
    {
        let mut r = String::from_str("_end_");
        let digits = integer_string(self.count);
        r.append(digits.as_str());
        r
    }
}

impl Default for Asm {
    fn default() -> (r: Self)
        ensures
            r.clause_count == 0,
            r.source@ == Seq::<char>::empty(),
    {
        Asm { clause_count: 0, source: String::new() }
    }
}

impl Asm {
    fn unary(&mut self, mnemonic: &str, operand: &str)
        ensures
            final(self).source@ == old(self).source@ + unary_line(mnemonic@, operand@),
            final(self).clause_count == old(self).clause_count,
    {
        self.source.append("\t");
        self.source.append(mnemonic);
        self.source.append("\t");
        self.source.append(operand);
        self.source.append("\n");
        assert(self.source@ =~= old(self).source@ + unary_line(mnemonic@, operand@));
    }

    fn binary(&mut self, mnemonic: &str, first: &str, second: &str)
        ensures
            final(self).source@ == old(self).source@ + binary_line(mnemonic@, first@, second@),
            final(self).clause_count == old(self).clause_count,
    {
        self.source.append("\t");
        self.source.append(mnemonic);
        self.source.append("\t");
        self.source.append(first);
        self.source.append(", ");
        self.source.append(second);
        self.source.append("\n");
        assert(self.source@ =~= old(self).source@ + binary_line(mnemonic@, first@, second@));
    }

    /// Opens the function called `name`: declares its symbol and entry
    /// point, then emits the prologue.
    pub fn declare_function(&mut self, name: String)
        ensures
            final(self).source@ == old(self).source@ + listing(prologue(name@)),
            final(self).clause_count == old(self).clause_count,
    {
        self.source.append("\t.globl\t_");
        self.source.append(name.as_str());
        self.source.append("\n");
        self.source.append("_");
        self.source.append(name.as_str());
        self.source.append(":\n");
        self.push(&Operand::Register(Register::Rbp));
        self.mov(&Operand::Register(Register::Rsp), &Operand::Register(Register::Rbp));
        proof {
            let code = prologue(name@);
            lemma_listing_one(code[0]);
            assert(code.take(1) =~= seq![code[0]]);
            assert(code.take(2).drop_last() =~= code.take(1));
            assert(code.take(3).drop_last() =~= code.take(2));
            assert(code.drop_last() =~= code.take(3));
            assert(listing(code.take(2)) == listing(code.take(1)) + code[1].text());
            assert(listing(code.take(3)) == listing(code.take(2)) + code[2].text());
            assert(listing(code) == listing(code.take(3)) + code[3].text());
            assert(self.source@ =~= old(self).source@ + listing(code));
        }
    }

    /// Leaves the function: emits the epilogue, then the return.
    pub fn function_return(&mut self)
        ensures
            final(self).source@ == old(self).source@ + listing(epilogue()),
            final(self).clause_count == old(self).clause_count,
    {
        self.mov(&Operand::Register(Register::Rbp), &Operand::Register(Register::Rsp));
        self.pop(&Operand::Register(Register::Rbp));
        self.ret();
        proof {
            let code = epilogue();
            lemma_listing_one(code[0]);
            assert(code.take(1) =~= seq![code[0]]);
            assert(code.take(2).drop_last() =~= code.take(1));
            assert(code.drop_last() =~= code.take(2));
            assert(listing(code.take(2)) == listing(code.take(1)) + code[1].text());
            assert(listing(code) == listing(code.take(2)) + code[2].text());
            assert(self.source@ =~= old(self).source@ + listing(code));
        }
    }

    /// Emits `mov src, dest`.
    pub fn mov(&mut self, src: &Operand, dest: &Operand)
        ensures
            final(self).source@ == old(self).source@ + Instruction::Mov(*src, *dest).text(),
            final(self).clause_count == old(self).clause_count,
    {
        let first = src.render();
        let second = dest.render();
        self.binary("mov", first.as_str(), second.as_str());
    }

    /// Emits `push src`.
    pub fn push(&mut self, src: &Operand)
        ensures
            final(self).source@ == old(self).source@ + Instruction::Push(*src).text(),
            final(self).clause_count == old(self).clause_count,
    {
        let operand = src.render();
        self.unary("push", operand.as_str());
    }

    /// Emits `pop dest`.
    pub fn pop(&mut self, dest: &Operand)
        ensures
            final(self).source@ == old(self).source@ + Instruction::Pop(*dest).text(),
            final(self).clause_count == old(self).clause_count,
    {
        let operand = dest.render();
        self.unary("pop", operand.as_str());
    }

    /// Emits `ret`.
    pub fn ret(&mut self)
        ensures
            final(self).source@ == old(self).source@ + Instruction::Ret.text(),
            final(self).clause_count == old(self).clause_count,
    {
        self.source.append("\tret\n");
    }

    /// Emits `add src, dest`.
    pub fn add(&mut self, src: &Operand, dest: &Operand)
        ensures
            final(self).source@ == old(self).source@ + Instruction::Add(*src, *dest).text(),
            final(self).clause_count == old(self).clause_count,
    {
        let first = src.render();
        let second = dest.render();
        self.binary("add", first.as_str(), second.as_str());
    }

    /// Emits `sub src, dest`.
    pub fn sub(&mut self, src: &Operand, dest: &Operand)
        ensures
            final(self).source@ == old(self).source@ + Instruction::Sub(*src, *dest).text(),
            final(self).clause_count == old(self).clause_count,
    {
        let first = src.render();
        let second = dest.render();
        self.binary("sub", first.as_str(), second.as_str());
    }

    /// Emits `imul src, dest`.
    pub fn imul(&mut self, src: &Operand, dest: &Operand)
        ensures
            final(self).source@ == old(self).source@ + Instruction::Imul(*src, *dest).text(),
            final(self).clause_count == old(self).clause_count,
    {
        let first = src.render();
        let second = dest.render();
        self.binary("imul", first.as_str(), second.as_str());
    }

    /// Emits `idiv src`.
    pub fn idiv(&mut self, src: &Operand)
        ensures
            final(self).source@ == old(self).source@ + Instruction::Idiv(*src).text(),
            final(self).clause_count == old(self).clause_count,
    {
        let operand = src.render();
        self.unary("idiv", operand.as_str());
    }

    /// Emits `neg dest`.
    pub fn neg(&mut self, dest: &Operand)
        ensures
            final(self).source@ == old(self).source@ + Instruction::Neg(*dest).text(),
            final(self).clause_count == old(self).clause_count,
    {
        let operand = dest.render();
        self.unary("neg", operand.as_str());
    }

    /// Emits `cmp first, second`.
    pub fn cmp(&mut self, first: &Operand, second: &Operand)
        ensures
            final(self).source@ == old(self).source@ + Instruction::Cmp(*first, *second).text(),
            final(self).clause_count == old(self).clause_count,
    {
        let left = first.render();
        let right = second.render();
        self.binary("cmp", left.as_str(), right.as_str());
    }

    /// Emits `sete dest`.
    pub fn sete(&mut self, dest: &Operand)
        ensures
            final(self).source@ == old(self).source@ + Instruction::SetByte(
                Condition::Equal,
                *dest,
            ).text(),
            final(self).clause_count == old(self).clause_count,
    {
        let operand = dest.render();
        self.unary("sete", operand.as_str());
    }

    /// Emits `setne dest`.
    pub fn setne(&mut self, dest: &Operand)
        ensures
            final(self).source@ == old(self).source@ + Instruction::SetByte(
                Condition::NotEqual,
                *dest,
            ).text(),
            final(self).clause_count == old(self).clause_count,
    {
        let operand = dest.render();
        self.unary("setne", operand.as_str());
    }

    /// Emits `setl dest`.
    pub fn setl(&mut self, dest: &Operand)
        ensures
            final(self).source@ == old(self).source@ + Instruction::SetByte(
                Condition::Less,
                *dest,
            ).text(),
            final(self).clause_count == old(self).clause_count,
    {
        let operand = dest.render();
        self.unary("setl", operand.as_str());
    }

    /// Emits `setle dest`.
    pub fn setle(&mut self, dest: &Operand)
        ensures
            final(self).source@ == old(self).source@ + Instruction::SetByte(
                Condition::LessOrEqual,
                *dest,
            ).text(),
            final(self).clause_count == old(self).clause_count,
    {
        let operand = dest.render();
        self.unary("setle", operand.as_str());
    }

    /// Emits `setg dest`.
    pub fn setg(&mut self, dest: &Operand)
        ensures
            final(self).source@ == old(self).source@ + Instruction::SetByte(
                Condition::Greater,
                *dest,
            ).text(),
            final(self).clause_count == old(self).clause_count,
    {
        let operand = dest.render();
        self.unary("setg", operand.as_str());
    }

    /// Emits `setge dest`.
    pub fn setge(&mut self, dest: &Operand)
        ensures
            final(self).source@ == old(self).source@ + Instruction::SetByte(
                Condition::GreaterOrEqual,
                *dest,
            ).text(),
            final(self).clause_count == old(self).clause_count,
    {
        let operand = dest.render();
        self.unary("setge", operand.as_str());
    }

    /// Emits `not dest`.
    pub fn not(&mut self, dest: &Operand)
        ensures
            final(self).source@ == old(self).source@ + Instruction::Not(*dest).text(),
            final(self).clause_count == old(self).clause_count,
    {
        let operand = dest.render();
        self.unary("not", operand.as_str());
    }

    /// Emits an unconditional jump to the label called `clause_id`.
    pub fn jmp(&mut self, clause_id: String)
        ensures
            final(self).source@ == old(self).source@ + unary_line("jmp"@, clause_id@),
            final(self).clause_count == old(self).clause_count,
    {
        self.unary("jmp", clause_id.as_str());
    }

    /// Emits a jump to the label called `clause_id`, taken when the last
    /// comparison found its operands equal.
    pub fn je(&mut self, clause_id: String)
        ensures
            final(self).source@ == old(self).source@ + unary_line("je"@, clause_id@),
            final(self).clause_count == old(self).clause_count,
    {
        self.unary("je", clause_id.as_str());
    }

    /// Emits a jump to the label called `clause_id`, taken when the last
    /// comparison found its operands different.
    pub fn jne(&mut self, clause_id: String)
        ensures
            final(self).source@ == old(self).source@ + unary_line("jne"@, clause_id@),
            final(self).clause_count == old(self).clause_count,
    {
        self.unary("jne", clause_id.as_str());
    }

    /// Allocates a branch scope. Its number is the count before the call,
    /// and the count moves on by one, so no two scopes of one emitter share
    /// a number.
    pub fn new_clause(&mut self) -> (clause: Clause)
        requires
            old(self).clause_count < i64::MAX,
        ensures
            clause.count == old(self).clause_count,
            clause.state == ClauseState::New,
            final(self).clause_count == old(self).clause_count + 1,
            final(self).source@ == old(self).source@,
    {
        let clause = Clause { state: ClauseState::New, count: self.clause_count };
        self.clause_count = self.clause_count + 1;
        clause
    }

    /// Starts a new scope: declares its start label.
    pub fn start_clause(&mut self, clause: &mut Clause)
        requires
            old(clause).state == ClauseState::New,
        ensures
            final(clause).state == ClauseState::Started,
            final(clause).count == old(clause).count,
            final(self).source@ == old(self).source@ + Instruction::Mark(
                Label::Start(old(clause).count),
            ).text(),
            final(self).clause_count == old(self).clause_count,
    {
        let name = clause.start_id();
        self.source.append(name.as_str());
        self.source.append(":\n");
        clause.state = ClauseState::Started;
        assert(self.source@ =~= old(self).source@ + label_line(name@));
    }

    /// Ends a started scope: declares its end label.
    pub fn end_clause(&mut self, clause: &mut Clause)
        requires
            old(clause).state == ClauseState::Started,
        ensures
            final(clause).state == ClauseState::Ended,
            final(clause).count == old(clause).count,
            final(self).source@ == old(self).source@ + Instruction::Mark(
                Label::End(old(clause).count),
            ).text(),
            final(self).clause_count == old(self).clause_count,
    {
        let name = clause.end_id();
        self.source.append(name.as_str());
        self.source.append(":\n");
        clause.state = ClauseState::Ended;
        assert(self.source@ =~= old(self).source@ + label_line(name@));
    }
}

} // verus!
