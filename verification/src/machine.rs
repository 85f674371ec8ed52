//! A model of the target machine: two registers, a memory of 16-bit words
//! that the address register selects, and a program counter.
//!
//! An instruction either loads the address register with a number of at
//! most fifteen bits, or computes a word from the registers and the selected
//! cell, stores it in any of the three, and perhaps jumps. The cell is
//! stored at the address that the register held before the instruction; a
//! jump goes to the address that the register holds after it.
//!
//! What a computation computes is said twice: by name, and by the bits
//! that the instruction holds for it as they drive the arithmetic unit. The
//! two are shown to agree.

use crate::instruction::{Address, CompToken, DestToken, JumpToken, Operation};
use crate::listing::Line;
use vstd::prelude::*;

verus! {

/// The number of values a word can have: two to the sixteenth.
pub open spec fn words() -> int {
    0x10000
}

/// The number of values a load instruction can hold, which is also the
/// least word that is negative in two's complement: two to the fifteenth.
pub open spec fn half() -> int {
    0x8000
}

/// Whether `x` is a word: sixteen bits, read as a number from 0.
pub open spec fn is_word(x: int) -> bool {
    0 <= x < words()
}

/// The word that the sixteen lowest bits of `x` make.
pub open spec fn wrap(x: int) -> int {
    x % words()
}

/// Whether the word is negative when it is read in two's complement.
pub open spec fn is_negative(x: int) -> bool {
    x >= half()
}

/// The state of the machine.
pub ghost struct Machine {
    /// The address register.
    pub a: int,
    /// The data register.
    pub d: int,
    /// The memory, cell by cell.
    pub ram: Map<int, int>,
    /// The address of the next instruction.
    pub pc: int,
}

impl Machine {
    /// The registers and all cells hold words.
    pub open spec fn wf(self) -> bool {
        &&& is_word(self.a)
        &&& is_word(self.d)
        &&& forall|addr: int| is_word(#[trigger] self.ram[addr])
    }

    /// The cell that the address register selects.
    pub open spec fn m(self) -> int {
        self.ram[self.a]
    }
}

/// The word that a computation gives from the two registers and the
/// selected cell.
pub open spec fn computed(comp: CompToken, a: int, d: int, m: int) -> int {
    match comp {
        CompToken::Zero => 0,
        CompToken::One => 1,
        CompToken::Negate1 => words() - 1,
        CompToken::A => a,
        CompToken::D => d,
        CompToken::M => m,
        CompToken::InvertA => words() - 1 - a,
        CompToken::InvertD => words() - 1 - d,
        CompToken::InvertM => words() - 1 - m,
        CompToken::NegateA => wrap(-a),
        CompToken::NegateD => wrap(-d),
        CompToken::NegateM => wrap(-m),
        CompToken::AddA1 => wrap(a + 1),
        CompToken::AddD1 => wrap(d + 1),
        CompToken::AddM1 => wrap(m + 1),
        CompToken::SubA1 => wrap(a - 1),
        CompToken::SubD1 => wrap(d - 1),
        CompToken::SubM1 => wrap(m - 1),
        CompToken::AddDA => wrap(d + a),
        CompToken::AddDM => wrap(d + m),
        CompToken::SubDA => wrap(d - a),
        CompToken::SubDM => wrap(d - m),
        CompToken::SubAD => wrap(a - d),
        CompToken::SubMD => wrap(m - d),
        CompToken::AndDA => ((d as u16) & (a as u16)) as int,
        CompToken::AndDM => ((d as u16) & (m as u16)) as int,
        CompToken::OrDA => ((d as u16) | (a as u16)) as int,
        CompToken::OrDM => ((d as u16) | (m as u16)) as int,
    }
}

/// The word with each bit of `x` inverted.
pub open spec fn inverted(x: int) -> int {
    words() - 1 - x
}

/// What the arithmetic unit makes of two words under its six control
/// bits: each operand is set to zero and then inverted if its two bits say
/// so, the two are added or combined bit by bit with `and`, and the result
/// is inverted if the last bit says so.
#[verifier::opaque]
pub open spec fn arithmetic_unit(
    x: int,
    y: int,
    zero_x: bool,
    invert_x: bool,
    zero_y: bool,
    invert_y: bool,
    add: bool,
    invert_out: bool,
) -> int {
    let x = if zero_x {
        0
    } else {
        x
    };
    let x = if invert_x {
        inverted(x)
    } else {
        x
    };
    let y = if zero_y {
        0
    } else {
        y
    };
    let y = if invert_y {
        inverted(y)
    } else {
        y
    };
    let out = if add {
        wrap(x + y)
    } else {
        ((x as u16) & (y as u16)) as int
    };
    if invert_out {
        inverted(out)
    } else {
        out
    }
}

/// What the machine computes under the seven computation bits of an
/// instruction: the first bit selects the memory cell instead of the
/// address register as the second operand of the arithmetic unit, whose
/// first operand is the data register; the other six drive the unit.
pub open spec fn computed_by_bits(bits: nat, a: int, d: int, m: int) -> int {
    arithmetic_unit(
        d,
        if bits / 64 % 2 == 1 {
            m
        } else {
            a
        },
        bits / 32 % 2 == 1,
        bits / 16 % 2 == 1,
        bits / 8 % 2 == 1,
        bits / 4 % 2 == 1,
        bits / 2 % 2 == 1,
        bits % 2 == 1,
    )
}

/// Whether an instruction with this jump field jumps when it has computed
/// `value`.
pub open spec fn jumps(jump: JumpToken, value: int) -> bool {
    match jump {
        JumpToken::Empty => false,
        JumpToken::JGT => value != 0 && !is_negative(value),
        JumpToken::JEQ => value == 0,
        JumpToken::JGE => !is_negative(value),
        JumpToken::JLT => is_negative(value),
        JumpToken::JNE => value != 0,
        JumpToken::JLE => value == 0 || is_negative(value),
        JumpToken::JMP => true,
    }
}

/// The number that a load puts into the address register: the number
/// itself, or the number that the symbol stands for.
pub open spec fn loaded(addr: Address, symbols: Map<Seq<char>, int>) -> int {
    match addr {
        Address::Number(n) => n as int,
        Address::Symbol(name) => symbols[name],
    }
}

impl Operation {
    /// Whether the machine has such an instruction: a load has to hold a
    /// number below two to the fifteenth.
    pub open spec fn fits(self, symbols: Map<Seq<char>, int>) -> bool {
        match self {
            Operation::Load(addr) => 0 <= loaded(addr, symbols) < half(),
            Operation::Compute(..) => true,
        }
    }

    /// The state after the instruction.
    pub open spec fn step(self, symbols: Map<Seq<char>, int>, before: Machine) -> Machine {
        match self {
            Operation::Load(addr) => Machine {
                a: loaded(addr, symbols),
                pc: before.pc + 1,
                ..before
            },
            Operation::Compute(dest, comp, jump) => {
                let value = computed(comp, before.a, before.d, before.m());
                let a = if dest.writes_a() {
                    value
                } else {
                    before.a
                };
                Machine {
                    a,
                    d: if dest.writes_d() {
                        value
                    } else {
                        before.d
                    },
                    ram: if dest.writes_m() {
                        before.ram.insert(before.a, value)
                    } else {
                        before.ram
                    },
                    pc: if jumps(jump, value) {
                        a
                    } else {
                        before.pc + 1
                    },
                }
            },
        }
    }
}

impl Line {
    /// The state after the line: an instruction does its step, and nothing
    /// else does anything.
    pub open spec fn step(self, symbols: Map<Seq<char>, int>, before: Machine) -> Machine {
        match self {
            Line::Code { op, .. } => op.step(symbols, before),
            _ => before,
        }
    }

    /// Whether the line is an instruction that the machine does not have.
    pub open spec fn fits(self, symbols: Map<Seq<char>, int>) -> bool {
        match self {
            Line::Code { op, .. } => op.fits(symbols),
            _ => true,
        }
    }
}

/// The state after the lines from index `from` on have been run one after
/// the other, each once. This is what the listing does where none of its
/// instructions but the last jumps.
pub open spec fn run_from(
    lines: Seq<Line>,
    from: int,
    symbols: Map<Seq<char>, int>,
    before: Machine,
) -> Machine
    decreases lines.len() - from,
{
    if 0 <= from < lines.len() {
        run_from(lines, from + 1, symbols, lines[from].step(symbols, before))
    } else {
        before
    }
}

/// The state after the listing has been run from its first line to its
/// last.
pub open spec fn run(lines: Seq<Line>, symbols: Map<Seq<char>, int>, before: Machine) -> Machine {
    run_from(lines, 0, symbols, before)
}

/// The state after the lines `from..to` have been run one after the other.
pub open spec fn run_span(
    lines: Seq<Line>,
    from: int,
    to: int,
    symbols: Map<Seq<char>, int>,
    before: Machine,
) -> Machine
    decreases to - from,
{
    if 0 <= from < to <= lines.len() {
        run_span(lines, from + 1, to, symbols, lines[from].step(symbols, before))
    } else {
        before
    }
}

/// The instructions among the lines from index `from` on, in their order.
pub open spec fn code_from(lines: Seq<Line>, from: int) -> Seq<Operation>
    decreases lines.len() - from,
{
    if 0 <= from < lines.len() {
        match lines[from] {
            Line::Code { op, .. } => seq![op] + code_from(lines, from + 1),
            _ => code_from(lines, from + 1),
        }
    } else {
        Seq::empty()
    }
}

/// The instructions of the listing: what it puts into the program memory.
pub open spec fn code(lines: Seq<Line>) -> Seq<Operation> {
    code_from(lines, 0)
}

/// Whether no instruction among the lines from index `from` on jumps.
pub open spec fn jumps_nowhere(lines: Seq<Line>, from: int) -> bool {
    forall|i: int|
        from <= i < lines.len() ==> (#[trigger] lines[i] matches Line::Code {
            op: Operation::Compute(_, _, jump),
            ..
        } ==> jump is Empty)
}

/// A program in the memory of the machine: its instructions, and the
/// numbers that its symbols stand for.
pub ghost struct Program {
    pub rom: Seq<Operation>,
    pub symbols: Map<Seq<char>, int>,
}

impl Program {
    /// Whether the line at index `at` of the listing lies at `address` when
    /// the listing lies at `base`: as many instructions of the listing come
    /// before the line as there are addresses between the two.
    pub open spec fn line_address(lines: Seq<Line>, at: int, base: int) -> int {
        base + code(lines).len() - code_from(lines, at).len()
    }

    /// Whether the listing is a part of the program that begins at the
    /// address `base`: its instructions lie there one after the other, and
    /// each of its labels stands for the address of the instruction that
    /// follows it.
    pub open spec fn holds(self, lines: Seq<Line>, base: int) -> bool {
        &&& 0 <= base
        &&& base + code(lines).len() <= self.rom.len()
        &&& forall|k: int|
            0 <= k < code(lines).len() ==> #[trigger] self.rom[base + k] == code(lines)[k]
        &&& forall|i: int|
            0 <= i < lines.len() ==> (#[trigger] lines[i] matches Line::Label { name, .. }
                ==> self.symbols[name] == Self::line_address(lines, i, base))
    }

    /// The state after the instruction that the program counter points to.
    /// Behind the program the machine stands still.
    pub open spec fn step(self, before: Machine) -> Machine {
        if 0 <= before.pc < self.rom.len() {
            self.rom[before.pc].step(self.symbols, before)
        } else {
            before
        }
    }

    /// The state after `n` instructions.
    pub open spec fn steps(self, before: Machine, n: nat) -> Machine
        decreases n,
    {
        if n == 0 {
            before
        } else {
            self.steps(self.step(before), (n - 1) as nat)
        }
    }
}

/// Whether the machine has all instructions of the listing.
pub open spec fn all_fit(lines: Seq<Line>, symbols: Map<Seq<char>, int>) -> bool {
    forall|i: int| 0 <= i < lines.len() ==> (#[trigger] lines[i]).fits(symbols)
}

/// A computation on words gives a word.
pub proof fn lemma_computed_is_word(comp: CompToken, a: int, d: int, m: int)
    requires
        is_word(a),
        is_word(d),
        is_word(m),
    ensures
        is_word(computed(comp, a, d, m)),
{
    let x = d as u16;
    let y = a as u16;
    let z = m as u16;
    assert(x & y <= 0xffff) by (bit_vector);
    assert(x & z <= 0xffff) by (bit_vector);
    assert(x | y <= 0xffff) by (bit_vector);
    assert(x | z <= 0xffff) by (bit_vector);
}

/// What the arithmetic unit adds up under the control bits of the
/// computations that add.
pub proof fn lemma_unit_adds(x: int, y: int)
    requires
        is_word(x),
        is_word(y),
    ensures
        arithmetic_unit(x, y, true, false, true, false, true, false) == 0,
        arithmetic_unit(x, y, true, true, true, true, true, true) == 1,
        arithmetic_unit(x, y, true, true, true, false, true, false) == words() - 1,
        arithmetic_unit(x, y, false, false, true, true, true, true) == wrap(-x),
        arithmetic_unit(x, y, true, true, false, false, true, true) == wrap(-y),
        arithmetic_unit(x, y, false, true, true, true, true, true) == wrap(x + 1),
        arithmetic_unit(x, y, true, true, false, true, true, true) == wrap(y + 1),
        arithmetic_unit(x, y, false, false, true, true, true, false) == wrap(x - 1),
        arithmetic_unit(x, y, true, true, false, false, true, false) == wrap(y - 1),
        arithmetic_unit(x, y, false, false, false, false, true, false) == wrap(x + y),
        arithmetic_unit(x, y, false, true, false, false, true, true) == wrap(x - y),
        arithmetic_unit(x, y, false, false, false, true, true, true) == wrap(y - x),
{
    reveal(arithmetic_unit);
}

/// What the arithmetic unit combines bit by bit under the control bits of
/// the computations that do not add.
pub proof fn lemma_unit_combines(x: int, y: int)
    requires
        is_word(x),
        is_word(y),
    ensures
        arithmetic_unit(x, y, false, false, true, true, false, false) == x,
        arithmetic_unit(x, y, true, true, false, false, false, false) == y,
        arithmetic_unit(x, y, false, false, true, true, false, true) == inverted(x),
        arithmetic_unit(x, y, true, true, false, false, false, true) == inverted(y),
        arithmetic_unit(x, y, false, false, false, false, false, false) == ((x as u16) & (
        y as u16)) as int,
        arithmetic_unit(x, y, false, true, false, true, false, true) == ((x as u16) | (
        y as u16)) as int,
{
    reveal(arithmetic_unit);
    let p = x as u16;
    let q = y as u16;
    let ones = 0xffffu16;
    assert(p & ones == p) by (bit_vector)
        requires
            ones == 0xffffu16,
    ;
    assert(ones & q == q) by (bit_vector)
        requires
            ones == 0xffffu16,
    ;
    assert(inverted(x) as u16 == !p) by {
        assert(!p == 0xffffu16 - p) by (bit_vector);
    }
    assert(inverted(y) as u16 == !q) by {
        assert(!q == 0xffffu16 - q) by (bit_vector);
    }
    let both = !p & !q;
    assert(!both == p | q) by (bit_vector)
        requires
            both == !p & !q,
    ;
    assert(!both == 0xffffu16 - both) by (bit_vector);
    assert(p & q <= 0xffffu16) by (bit_vector);
}

/// The bits of each computation make the arithmetic unit compute what the
/// computation stands for.
pub proof fn lemma_computation_bits(comp: CompToken, a: int, d: int, m: int)
    requires
        is_word(a),
        is_word(d),
        is_word(m),
    ensures
        computed_by_bits(comp.code_of(), a, d, m) == computed(comp, a, d, m),
{
    lemma_unit_adds(d, a);
    lemma_unit_adds(d, m);
    lemma_unit_combines(d, a);
    lemma_unit_combines(d, m);
}

/// The bits of each destination say where the result is stored, and the
/// bits of each jump say on which sign of the result the machine jumps: on
/// a negative one for the first bit, on zero for the second, on a positive
/// one for the third.
pub proof fn lemma_field_bits(dest: DestToken, jump: JumpToken, value: int)
    requires
        is_word(value),
    ensures
        dest.writes_a() == (dest.code_of() / 4 % 2 == 1),
        dest.writes_d() == (dest.code_of() / 2 % 2 == 1),
        dest.writes_m() == (dest.code_of() % 2 == 1),
        jumps(jump, value) == ((jump.code_of() / 4 % 2 == 1 && is_negative(value)) || (
        jump.code_of() / 2 % 2 == 1 && value == 0) || (jump.code_of() % 2 == 1 && value != 0
            && !is_negative(value))),
{
}

/// An instruction that the machine has leaves words in all registers and
/// cells.
pub proof fn lemma_step_keeps_words(op: Operation, symbols: Map<Seq<char>, int>, before: Machine)
    requires
        before.wf(),
        op.fits(symbols),
    ensures
        op.step(symbols, before).wf(),
{
    match op {
        Operation::Load(_) => {},
        Operation::Compute(dest, comp, jump) => {
            lemma_computed_is_word(comp, before.a, before.d, before.m());
            let after = op.step(symbols, before);
            assert forall|addr: int| is_word(#[trigger] after.ram[addr]) by {
                assert(is_word(before.ram[addr]));
            }
        },
    }
}

/// Running a listing that the machine has all instructions of leaves words
/// in all registers and cells.
pub proof fn lemma_run_keeps_words(
    lines: Seq<Line>,
    from: int,
    symbols: Map<Seq<char>, int>,
    before: Machine,
)
    requires
        before.wf(),
        all_fit(lines, symbols),
    ensures
        run_from(lines, from, symbols, before).wf(),
    decreases lines.len() - from,
{
    if 0 <= from < lines.len() {
        assert(lines[from].fits(symbols));
        match lines[from] {
            Line::Code { op, .. } => {
                lemma_step_keeps_words(op, symbols, before);
            },
            _ => {},
        }
        lemma_run_keeps_words(lines, from + 1, symbols, lines[from].step(symbols, before));
    }
}

/// Running a listing from a line on is running it up to a later line and
/// then from that line on.
pub proof fn lemma_run_split(
    lines: Seq<Line>,
    from: int,
    to: int,
    symbols: Map<Seq<char>, int>,
    before: Machine,
)
    requires
        0 <= from <= to <= lines.len(),
    ensures
        run_from(lines, from, symbols, before) == run_from(
            lines,
            to,
            symbols,
            run_span(lines, from, to, symbols, before),
        ),
    decreases to - from,
{
    if from < to {
        lemma_run_split(lines, from + 1, to, symbols, lines[from].step(symbols, before));
    }
}

/// Running the end of two listings in a row is running the end of the
/// second.
pub proof fn lemma_run_second(
    first: Seq<Line>,
    second: Seq<Line>,
    from: int,
    symbols: Map<Seq<char>, int>,
    before: Machine,
)
    requires
        0 <= from,
    ensures
        run_from(first + second, first.len() + from, symbols, before) == run_from(
            second,
            from,
            symbols,
            before,
        ),
    decreases second.len() - from,
{
    if from < second.len() {
        assert((first + second)[first.len() + from] == second[from]);
        lemma_run_second(first, second, from + 1, symbols, second[from].step(symbols, before));
    }
}

/// Running two listings in a row from a line of the first is running the
/// rest of the first and then the second.
pub proof fn lemma_run_first(
    first: Seq<Line>,
    second: Seq<Line>,
    from: int,
    symbols: Map<Seq<char>, int>,
    before: Machine,
)
    requires
        0 <= from <= first.len(),
    ensures
        run_from(first + second, from, symbols, before) == run(
            second,
            symbols,
            run_from(first, from, symbols, before),
        ),
    decreases first.len() - from,
{
    if from < first.len() {
        assert((first + second)[from] == first[from]);
        lemma_run_first(first, second, from + 1, symbols, first[from].step(symbols, before));
    } else {
        lemma_run_second(first, second, 0, symbols, before);
    }
}

/// Running two listings in a row is running the one and then the other.
pub proof fn lemma_run_concat(
    first: Seq<Line>,
    second: Seq<Line>,
    symbols: Map<Seq<char>, int>,
    before: Machine,
)
    ensures
        run(first + second, symbols, before) == run(second, symbols, run(first, symbols, before)),
{
    lemma_run_first(first, second, 0, symbols, before);
}

/// The instructions from a line on are no more than the lines.
pub proof fn lemma_code_len(lines: Seq<Line>, from: int)
    requires
        0 <= from <= lines.len(),
    ensures
        code_from(lines, from).len() <= lines.len() - from,
        from < lines.len() ==> code_from(lines, from + 1).len() <= code_from(lines, from).len(),
    decreases lines.len() - from,
{
    if from < lines.len() {
        lemma_code_len(lines, from + 1);
    }
}

/// Steps in a row add up.
pub proof fn lemma_steps_add(program: Program, before: Machine, n: nat, more: nat)
    ensures
        program.steps(before, n + more) == program.steps(program.steps(before, n), more),
    decreases n,
{
    if n > 0 {
        lemma_steps_add(program, program.step(before), (n - 1) as nat, more);
    }
}

/// A part of a program that jumps nowhere does, instruction by instruction,
/// what its listing does line by line, and leaves the program counter
/// behind its last instruction.
pub proof fn lemma_steps_run(
    program: Program,
    lines: Seq<Line>,
    base: int,
    from: int,
    before: Machine,
)
    requires
        program.holds(lines, base),
        0 <= from <= lines.len(),
        jumps_nowhere(lines, from),
        before.pc == Program::line_address(lines, from, base),
    ensures
        program.steps(before, code_from(lines, from).len()) == run_from(
            lines,
            from,
            program.symbols,
            before,
        ),
        run_from(lines, from, program.symbols, before).pc == base + code(lines).len(),
    decreases lines.len() - from,
{
    if from < lines.len() {
        lemma_code_len(lines, from);
        lemma_code_len(lines, 0);
        match lines[from] {
            Line::Code { op, .. } => {
                let k = code(lines).len() - code_from(lines, from).len();
                lemma_code_suffix(lines, from);
                assert(code_from(lines, from) == seq![op] + code_from(lines, from + 1));
                assert(code_from(lines, from)[0] == op);
                assert(code(lines).skip(k)[0] == code(lines)[k]);
                assert(program.rom[base + k] == code(lines)[k]);
                let next = op.step(program.symbols, before);
                assert(program.step(before) == next);
                assert(next.pc == before.pc + 1);
                lemma_steps_run(program, lines, base, from + 1, next);
            },
            _ => {
                lemma_steps_run(program, lines, base, from + 1, before);
            },
        }
    }
}

/// The instructions from a line on are the end of all instructions.
pub proof fn lemma_code_suffix(lines: Seq<Line>, from: int)
    requires
        0 <= from <= lines.len(),
    ensures
        code_from(lines, from).len() <= code(lines).len(),
        code_from(lines, from) == code(lines).skip(
            code(lines).len() - code_from(lines, from).len(),
        ),
    decreases from,
{
    if from == 0 {
        assert(code(lines).skip(0) =~= code(lines));
    } else {
        lemma_code_suffix(lines, from - 1);
        let longer = code_from(lines, from - 1);
        let shorter = code_from(lines, from);
        match lines[from - 1] {
            Line::Code { op, .. } => {
                assert(longer == seq![op] + shorter);
                assert(shorter =~= longer.skip(1));
                let all = code(lines);
                let at = all.len() - longer.len();
                assert(all.skip(at).skip(1) =~= all.skip(at + 1));
            },
            _ => {},
        }
    }
}

/// The instructions of two listings in a row are the instructions of the
/// one and then those of the other.
pub proof fn lemma_code_concat(first: Seq<Line>, second: Seq<Line>, from: int)
    requires
        0 <= from <= first.len(),
    ensures
        code_from(first + second, from) == code_from(first, from) + code(second),
    decreases first.len() - from,
{
    let both = first + second;
    if from < first.len() {
        lemma_code_concat(first, second, from + 1);
        assert(both[from] == first[from]);
        match first[from] {
            Line::Code { op, .. } => {
                assert(seq![op] + (code_from(first, from + 1) + code(second)) =~= seq![op]
                    + code_from(first, from + 1) + code(second));
            },
            _ => {},
        }
    } else {
        lemma_code_shift(first, second, 0);
        assert(code_from(first, from) + code(second) =~= code(second));
    }
}

/// The instructions of the end of two listings in a row are those of the
/// end of the second.
pub proof fn lemma_code_shift(first: Seq<Line>, second: Seq<Line>, from: int)
    requires
        0 <= from <= second.len(),
    ensures
        code_from(first + second, first.len() + from) == code_from(second, from),
    decreases second.len() - from,
{
    if from < second.len() {
        lemma_code_shift(first, second, from + 1);
        assert((first + second)[first.len() + from] == second[from]);
    }
}

/// A program that holds a listing holds each part of it, at the address
/// behind the instructions of the lines before the part.
pub proof fn lemma_holds_part(
    program: Program,
    first: Seq<Line>,
    part: Seq<Line>,
    rest: Seq<Line>,
    base: int,
)
    requires
        program.holds(first + part + rest, base),
    ensures
        program.holds(part, base + code(first).len()),
{
    let all = first + part + rest;
    let offset = code(first).len();
    lemma_code_concat(first + part, rest, 0);
    lemma_code_concat(first, part, 0);
    assert(code(all) == code(first) + code(part) + code(rest));
    assert forall|k: int| 0 <= k < code(part).len() implies #[trigger] program.rom[base + offset
        + k] == code(part)[k] by {
        assert(program.rom[base + (offset + k)] == code(all)[offset + k]);
    }
    assert forall|i: int| 0 <= i < part.len() implies (#[trigger] part[i] matches Line::Label {
        name,
        ..
    } ==> program.symbols[name] == Program::line_address(part, i, base + offset)) by {
        if part[i] is Label {
            let at = first.len() + i;
            assert(all[at] == part[i]);
            assert(code_from(all, at) == code_from(part, i) + code(rest)) by {
                lemma_code_concat(first + part, rest, at);
                lemma_code_shift(first, part, i);
            }
        }
    }
}

} // verus!
