//! What the emitted code does when the machine runs it, command by command.
//! Among the rest: a value pushed and popped arrives in the cell that the
//! `pop` names, and a `return` undoes what the `call` did to the caller's
//! frame.
//!
//! The code relies on a stack that keeps clear of the cells it works with:
//! the stack pointer, the base pointers and the scratch cell. With the
//! stack pointer pointing at one of those, the code overwrites what it is
//! about to read.

use crate::instruction::{Address, CompToken, DestToken, JumpToken, Operation};
use crate::listing::{at, label, store, Line};
use crate::machine::{
    all_fit, code, code_from, computed, half, is_word, jumps, jumps_nowhere, lemma_run_concat,
    lemma_run_keeps_words, lemma_run_split, lemma_steps_add, lemma_steps_run, run,
    run_from, run_span, words, wrap, Machine, Program,
};
use crate::numeral::decimal;
use crate::translator::emitter::{
    binary_lines, bootstrap_lines, call_lines, comparison_lines, constant_push_lines,
    direct_pop_lines, direct_push_lines, done_label, function_lines, goto_lines, ifgoto_lines,
    label_lines, numbered_comment, return_label, return_lines, scoped_label, segment_pop_lines,
    segment_push_lines, static_pop_lines, static_push_lines, static_symbol, true_label,
    unary_lines, zero_lines, ARG, FRAME, LCL, SP, TEMP, THAT, THIS,
};
use crate::translator::parser::{pointer_cell, pop_lines, push_lines};
use crate::translator::tokens::TokenKind;
use vstd::prelude::*;

verus! {

/// The number of cells that serve as registers: the stack pointer, the four
/// base pointers, the eight cells of `temp`, and three scratch cells.
pub open spec fn registers() -> int {
    16
}

/// The address of the scratch cell that the emitted code keeps addresses
/// in.
pub open spec fn scratch() -> int {
    13
}

/// Whether the symbols that the emitted code takes for granted stand for
/// the cells they name.
pub open spec fn knows_registers(symbols: Map<Seq<char>, int>) -> bool {
    symbols["R13"@] == scratch() && symbols["SP"@] == SP
}

/// The address of the cell that `<segment> <number>` names in file `file`,
/// with the memory as it is.
pub open spec fn cell_of(
    segment: TokenKind,
    number: nat,
    file: Seq<char>,
    symbols: Map<Seq<char>, int>,
    ram: Map<int, int>,
) -> int {
    match segment {
        TokenKind::Local => wrap(ram[LCL as int] + number),
        TokenKind::Argument => wrap(ram[ARG as int] + number),
        TokenKind::This => wrap(ram[THIS as int] + number),
        TokenKind::That => wrap(ram[THAT as int] + number),
        TokenKind::Static => symbols[static_symbol(file, number)],
        TokenKind::Temp => TEMP + number,
        _ => pointer_cell(number) as int,
    }
}

/// The address of the base pointer of the segment, if it has one.
pub open spec fn base_of(segment: TokenKind) -> Option<int> {
    match segment {
        TokenKind::Local => Some(LCL as int),
        TokenKind::Argument => Some(ARG as int),
        TokenKind::This => Some(THIS as int),
        TokenKind::That => Some(THAT as int),
        _ => None,
    }
}

/// Whether the code of a `pop` into the segment works with the cell at
/// `addr` on its way: the stack pointer, and for a segment with a base
/// pointer that pointer and the scratch cell.
pub open spec fn works_with(segment: TokenKind, addr: int) -> bool {
    addr == SP || (base_of(segment) matches Some(base) && (addr == base || addr == scratch()))
}

/// `push constant k` puts `k` where the stack pointer points and moves the
/// stack pointer one cell up.
pub proof fn lemma_push_constant(k: nat, symbols: Map<Seq<char>, int>, before: Machine)
    requires
        before.wf(),
        k < half(),
        before.ram[SP as int] != SP,
    ensures
        ({
            let after = run(constant_push_lines(k), symbols, before);
            let top = before.ram[SP as int];
            &&& after.ram == before.ram.insert(top, k as int).insert(SP as int, wrap(top + 1))
            &&& after.wf()
        }),
{
    reveal_with_fuel(run_from, 10);
    let after = run(constant_push_lines(k), symbols, before);
    let top = before.ram[SP as int];
    assert(is_word(top));
    assert forall|addr: int| is_word(#[trigger] after.ram[addr]) by {
        assert(is_word(before.ram[addr]));
    }
}

/// `add`, `sub`, `and`, `or` take the stack pointer one cell down and put,
/// in place of the value below the top, what the computation makes of the
/// top (as `D`) and that value (as `M`).
pub proof fn lemma_binary(
    name: Seq<char>,
    comp: CompToken,
    symbols: Map<Seq<char>, int>,
    before: Machine,
)
    ensures
        ({
            let after = run(binary_lines(name, comp), symbols, before);
            let top = wrap(before.ram[SP as int] - 1);
            let lowered = before.ram.insert(SP as int, top);
            let below = wrap(lowered[SP as int] - 1);
            after.ram == lowered.insert(below, computed(comp, below, lowered[top], lowered[below]))
        }),
{
    reveal_with_fuel(run_from, 9);
}

/// `neg` and `not` put, in place of the top, what the computation makes of
/// it.
pub proof fn lemma_unary(
    name: Seq<char>,
    comp: CompToken,
    symbols: Map<Seq<char>, int>,
    before: Machine,
)
    ensures
        ({
            let after = run(unary_lines(name, comp), symbols, before);
            let top = wrap(before.ram[SP as int] - 1);
            after.ram == before.ram.insert(top, computed(comp, top, before.d, before.ram[top]))
        }),
{
    reveal_with_fuel(run_from, 6);
}

/// The sum of two values on the stack takes their place: with two values
/// on a stack whose two topmost cells are not the stack pointer itself,
/// `add` leaves their sum where the first was, and the stack pointer
/// behind it.
pub proof fn lemma_add(symbols: Map<Seq<char>, int>, before: Machine)
    requires
        before.wf(),
        before.ram[SP as int] > 2,
    ensures
        ({
            let after = run(binary_lines("add"@, CompToken::AddDM), symbols, before);
            let top = before.ram[SP as int];
            &&& after.ram[SP as int] == top - 1
            &&& after.ram[top - 2] == wrap(before.ram[top - 2] + before.ram[top - 1])
            &&& forall|addr: int|
                addr != SP && addr != top - 2 ==> #[trigger] after.ram[addr] == before.ram[addr]
        }),
{
    lemma_binary("add"@, CompToken::AddDM, symbols, before);
    assert(is_word(before.ram[SP as int]));
}

/// The difference of two values on the stack takes their place: the
/// value below the top less the top.
pub proof fn lemma_sub(symbols: Map<Seq<char>, int>, before: Machine)
    requires
        before.wf(),
        before.ram[SP as int] > 2,
    ensures
        ({
            let after = run(binary_lines("sub"@, CompToken::SubMD), symbols, before);
            let top = before.ram[SP as int];
            &&& after.ram[SP as int] == top - 1
            &&& after.ram[top - 2] == wrap(before.ram[top - 2] - before.ram[top - 1])
            &&& forall|addr: int|
                addr != SP && addr != top - 2 ==> #[trigger] after.ram[addr] == before.ram[addr]
        }),
{
    lemma_binary("sub"@, CompToken::SubMD, symbols, before);
    assert(is_word(before.ram[SP as int]));
}

/// A push of what `D` is about to hold: the five lines that end every
/// push put the value where the stack pointer points and move the stack
/// pointer one cell up.
pub open spec fn pushed(ram: Map<int, int>, value: int) -> Map<int, int> {
    let stored = ram.insert(ram[SP as int], value);
    stored.insert(SP as int, wrap(stored[SP as int] + 1))
}

/// `push` from a segment with a base pointer pushes the cell that lies the
/// offset behind the cell the base pointer points to.
pub proof fn lemma_push_segment(
    number: nat,
    segment_addr: nat,
    symbols: Map<Seq<char>, int>,
    before: Machine,
)
    ensures
        ({
            let after = run(segment_push_lines(number, segment_addr), symbols, before);
            after.ram == pushed(
                before.ram,
                before.ram[wrap(before.ram[segment_addr as int] + number)],
            )
        }),
{
    reveal_with_fuel(run_from, 13);
}

/// A push of the cell at a fixed address pushes that cell.
pub proof fn lemma_push_direct(
    comment: Line,
    addr: nat,
    symbols: Map<Seq<char>, int>,
    before: Machine,
)
    requires
        comment is Comment,
    ensures
        ({
            let after = run(direct_push_lines(comment, addr), symbols, before);
            after.ram == pushed(before.ram, before.ram[addr as int])
        }),
{
    reveal_with_fuel(run_from, 10);
}

/// `push static n` pushes the variable.
pub proof fn lemma_push_static(
    file: Seq<char>,
    number: nat,
    symbols: Map<Seq<char>, int>,
    before: Machine,
)
    ensures
        ({
            let after = run(static_push_lines(file, number), symbols, before);
            after.ram == pushed(before.ram, before.ram[symbols[static_symbol(file, number)]])
        }),
{
    reveal_with_fuel(run_from, 9);
}

/// A push puts the cell that it names on the stack: where the stack
/// pointer does not point at itself, the value of the cell lies where the
/// stack pointer pointed, the stack pointer points one cell further, and
/// nothing else has changed.
pub proof fn lemma_push(
    segment: TokenKind,
    number: nat,
    file: Seq<char>,
    symbols: Map<Seq<char>, int>,
    before: Machine,
)
    requires
        segment.is_pop_segment(),
        segment == TokenKind::Pointer ==> number <= 1,
        before.wf(),
        before.ram[SP as int] != SP,
    ensures
        ({
            let after = run(push_lines(segment, number, file), symbols, before);
            let top = before.ram[SP as int];
            let cell = cell_of(segment, number, file, symbols, before.ram);
            &&& after.ram[top] == before.ram[cell]
            &&& after.ram[SP as int] == wrap(top + 1)
            &&& forall|addr: int|
                addr != SP && addr != top ==> #[trigger] after.ram[addr] == before.ram[addr]
        }),
{
    match segment {
        TokenKind::Local => {
            lemma_push_segment(number, LCL as nat, symbols, before);
        },
        TokenKind::Argument => {
            lemma_push_segment(number, ARG as nat, symbols, before);
        },
        TokenKind::This => {
            lemma_push_segment(number, THIS as nat, symbols, before);
        },
        TokenKind::That => {
            lemma_push_segment(number, THAT as nat, symbols, before);
        },
        TokenKind::Static => {
            lemma_push_static(file, number, symbols, before);
        },
        TokenKind::Temp => {
            lemma_push_direct(
                numbered_comment("push temp "@, number),
                TEMP as nat + number,
                symbols,
                before,
            );
        },
        _ => {
            lemma_push_direct(
                numbered_comment("push pointer "@, number),
                pointer_cell(number),
                symbols,
                before,
            );
        },
    }
}

/// `goto` jumps to the label and changes nothing in the memory.
pub proof fn lemma_goto(
    prefix: Seq<char>,
    name: Seq<char>,
    symbols: Map<Seq<char>, int>,
    before: Machine,
)
    ensures
        ({
            let after = run(goto_lines(prefix, name), symbols, before);
            &&& after.pc == symbols[scoped_label(prefix, name)]
            &&& after.ram == before.ram
        }),
{
    reveal_with_fuel(run_from, 5);
}

/// `if-goto` takes the stack pointer one cell down, and jumps to the label
/// if the cell it then points to holds anything but zero; else it goes on
/// with the instruction behind its five.
pub proof fn lemma_ifgoto(
    prefix: Seq<char>,
    name: Seq<char>,
    symbols: Map<Seq<char>, int>,
    before: Machine,
)
    ensures
        ({
            let after = run(ifgoto_lines(prefix, name), symbols, before);
            let top = wrap(before.ram[SP as int] - 1);
            let lowered = before.ram.insert(SP as int, top);
            &&& after.ram == lowered
            &&& after.pc == if lowered[top] != 0 {
                symbols[scoped_label(prefix, name)]
            } else {
                before.pc + 5
            }
        }),
{
    reveal_with_fuel(run_from, 8);
}

/// `label` is no instruction: it changes nothing.
pub proof fn lemma_label(
    prefix: Seq<char>,
    name: Seq<char>,
    symbols: Map<Seq<char>, int>,
    before: Machine,
)
    ensures
        run(label_lines(prefix, name), symbols, before) == before,
{
    reveal_with_fuel(run_from, 4);
}

/// The word that stands for true: all ones.
pub open spec fn truth() -> int {
    words() - 1
}

/// The instructions of a comparison.
pub open spec fn comparison_code(
    prefix: Seq<char>,
    name: Seq<char>,
    jump: JumpToken,
    id: nat,
) -> Seq<Operation> {
    seq![
        Operation::Load(Address::Number(SP as nat)),
        Operation::Compute(DestToken::AM, CompToken::SubM1, JumpToken::Empty),
        Operation::Compute(DestToken::D, CompToken::M, JumpToken::Empty),
        Operation::Load(Address::Number(SP as nat)),
        Operation::Compute(DestToken::A, CompToken::SubM1, JumpToken::Empty),
        Operation::Compute(DestToken::D, CompToken::SubMD, JumpToken::Empty),
        Operation::Load(Address::Symbol(true_label(prefix, name, id))),
        Operation::Compute(DestToken::Empty, CompToken::D, jump),
        Operation::Load(Address::Symbol(done_label(prefix, name, id))),
        Operation::Compute(DestToken::D, CompToken::Zero, JumpToken::JMP),
        Operation::Compute(DestToken::D, CompToken::Negate1, JumpToken::Empty),
        Operation::Load(Address::Number(SP as nat)),
        Operation::Compute(DestToken::A, CompToken::SubM1, JumpToken::Empty),
        Operation::Compute(DestToken::M, CompToken::D, JumpToken::Empty),
    ]
}

/// Whether the instructions of a comparison lie in the program from `base`
/// on, with the label of the true branch at the eleventh and the label of
/// the end at the twelfth.
pub open spec fn holds_comparison(
    program: Program,
    prefix: Seq<char>,
    name: Seq<char>,
    jump: JumpToken,
    id: nat,
    base: int,
) -> bool {
    &&& 0 <= base
    &&& base + 14 <= program.rom.len()
    &&& forall|k: int|
        0 <= k < 14 ==> #[trigger] program.rom[base + k] == comparison_code(
            prefix,
            name,
            jump,
            id,
        )[k]
    &&& program.symbols[true_label(prefix, name, id)] == base + 10
    &&& program.symbols[done_label(prefix, name, id)] == base + 11
}

/// A program that holds the listing of a comparison holds its
/// instructions, and its two labels stand for the places of its two
/// branches.
pub proof fn lemma_holds_comparison(
    program: Program,
    prefix: Seq<char>,
    name: Seq<char>,
    jump: JumpToken,
    id: nat,
    base: int,
)
    requires
        program.holds(comparison_lines(prefix, name, jump, id), base),
    ensures
        holds_comparison(program, prefix, name, jump, id, base),
{
    let lines = comparison_lines(prefix, name, jump, id);
    assert(code(lines) =~= comparison_code(prefix, name, jump, id)) by {
        reveal_with_fuel(code_from, 19);
    }
    assert(lines[12] matches Line::Label { name: n, .. } && n == true_label(prefix, name, id));
    assert(lines[14] matches Line::Label { name: n, .. } && n == done_label(prefix, name, id));
    assert(code_from(lines, 12).len() == 4 && code_from(lines, 14).len() == 3) by {
        reveal_with_fuel(code_from, 7);
    }
}

/// The first eight instructions of a comparison take the stack pointer one
/// cell down, work out the difference of the value below the top and
/// the top, and jump to the true branch if the difference is as the
/// comparison asks.
proof fn lemma_comparison_test(
    program: Program,
    prefix: Seq<char>,
    name: Seq<char>,
    jump: JumpToken,
    id: nat,
    base: int,
    before: Machine,
)
    requires
        holds_comparison(program, prefix, name, jump, id, base),
        before.wf(),
        before.pc == base,
        before.ram[SP as int] > 2,
    ensures
        ({
            let top = before.ram[SP as int];
            let difference = wrap(before.ram[top - 2] - before.ram[top - 1]);
            let tested = program.steps(before, 8);
            &&& tested.ram == before.ram.insert(SP as int, top - 1)
            &&& tested.d == difference
            &&& tested.pc == if jumps(jump, difference) {
                base + 10
            } else {
                base + 8
            }
        }),
{
    let top = before.ram[SP as int];
    let ops = comparison_code(prefix, name, jump, id);
    assert(is_word(top));
    assert(is_word(before.ram[top - 1]));
    assert(is_word(before.ram[top - 2]));
    assert(program.rom[base + 0] == ops[0]);
    assert(program.rom[base + 1] == ops[1]);
    assert(program.rom[base + 2] == ops[2]);
    assert(program.rom[base + 3] == ops[3]);
    assert(program.rom[base + 4] == ops[4]);
    assert(program.rom[base + 5] == ops[5]);
    assert(program.rom[base + 6] == ops[6]);
    assert(program.rom[base + 7] == ops[7]);
    let m1 = program.step(before);
    let m2 = program.step(m1);
    let m3 = program.step(m2);
    let m4 = program.step(m3);
    assert(m4.pc == base + 4 && m4.d == before.ram[top - 1] && m4.ram == before.ram.insert(
        SP as int,
        top - 1,
    ));
    let m5 = program.step(m4);
    let m6 = program.step(m5);
    let m7 = program.step(m6);
    let m8 = program.step(m7);
    assert(m7.pc == base + 7 && m7.a == base + 10 && m7.d == wrap(
        before.ram[top - 2] - before.ram[top - 1],
    ) && m7.ram == m4.ram);
    assert(program.steps(before, 8) == m8) by {
        reveal_with_fuel(Program::steps, 9);
    }
}

/// The end of a comparison from either branch: the result that the branch
/// has put into `D` goes to the top of the stack.
proof fn lemma_comparison_end(
    program: Program,
    prefix: Seq<char>,
    name: Seq<char>,
    jump: JumpToken,
    id: nat,
    base: int,
    tested: Machine,
    holds: bool,
)
    requires
        holds_comparison(program, prefix, name, jump, id, base),
        is_word(tested.ram[SP as int]),
        tested.pc == if holds {
            base + 10
        } else {
            base + 8
        },
        tested.ram[SP as int] > 1,
    ensures
        ({
            let after = program.steps(
                tested,
                if holds {
                    4
                } else {
                    5
                },
            );
            &&& after.pc == base + 14
            &&& after.ram == tested.ram.insert(
                tested.ram[SP as int] - 1,
                if holds {
                    truth()
                } else {
                    0
                },
            )
        }),
{
    let ops = comparison_code(prefix, name, jump, id);
    assert(program.rom[base + 8] == ops[8]);
    assert(program.rom[base + 9] == ops[9]);
    assert(program.rom[base + 10] == ops[10]);
    assert(program.rom[base + 11] == ops[11]);
    assert(program.rom[base + 12] == ops[12]);
    assert(program.rom[base + 13] == ops[13]);
    if holds {
        let m1 = program.step(tested);
        let m2 = program.step(m1);
        let m3 = program.step(m2);
        let m4 = program.step(m3);
        assert(m1.pc == base + 11 && m1.d == truth());
        assert(program.steps(tested, 4) == m4) by {
            reveal_with_fuel(Program::steps, 5);
        }
    } else {
        let m1 = program.step(tested);
        let m2 = program.step(m1);
        assert(m2.pc == base + 11 && m2.d == 0 && m2.ram == tested.ram);
        let m3 = program.step(m2);
        let m4 = program.step(m3);
        let m5 = program.step(m4);
        assert(program.steps(tested, 5) == m5) by {
            reveal_with_fuel(Program::steps, 6);
        }
    }
}

/// A comparison takes the stack pointer one cell down and puts, in place
/// of the value below the top, all ones if the difference of that value
/// and the top is as the comparison asks, and zero if it is not. It takes
/// twelve instructions where it holds and thirteen where it does not, and
/// either way the machine goes on behind the comparison.
pub proof fn lemma_comparison(
    program: Program,
    prefix: Seq<char>,
    name: Seq<char>,
    jump: JumpToken,
    id: nat,
    base: int,
    before: Machine,
)
    requires
        program.holds(comparison_lines(prefix, name, jump, id), base),
        before.wf(),
        before.pc == base,
        before.ram[SP as int] > 2,
    ensures
        ({
            let top = before.ram[SP as int];
            let holds = jumps(jump, wrap(before.ram[top - 2] - before.ram[top - 1]));
            let after = program.steps(
                before,
                if holds {
                    12
                } else {
                    13
                },
            );
            &&& after.pc == base + 14
            &&& after.ram == before.ram.insert(SP as int, top - 1).insert(
                top - 2,
                if holds {
                    truth()
                } else {
                    0
                },
            )
        }),
{
    let top = before.ram[SP as int];
    let holds = jumps(jump, wrap(before.ram[top - 2] - before.ram[top - 1]));
    lemma_holds_comparison(program, prefix, name, jump, id, base);
    lemma_comparison_test(program, prefix, name, jump, id, base, before);
    let tested = program.steps(before, 8);
    assert(is_word(top));
    lemma_comparison_end(program, prefix, name, jump, id, base, tested, holds);
    if holds {
        lemma_steps_add(program, before, 8, 4);
    } else {
        lemma_steps_add(program, before, 8, 5);
    }
}

/// The memory with the `n` cells from `from` on at zero.
pub open spec fn zeroed(ram: Map<int, int>, from: int, n: nat) -> Map<int, int>
    decreases n,
{
    if n == 0 {
        ram
    } else {
        zeroed(ram, from, (n - 1) as nat).insert(wrap(from + n - 1), 0)
    }
}

/// The lines that set local variables to zero do so for the `n` cells from
/// the one that the address register selects, and leave the address
/// register behind them.
pub proof fn lemma_zero_lines(n: nat, symbols: Map<Seq<char>, int>, before: Machine)
    requires
        is_word(before.a),
    ensures
        ({
            let after = run(zero_lines(n), symbols, before);
            &&& after.a == wrap(before.a + n)
            &&& after.d == before.d
            &&& after.ram == zeroed(before.ram, before.a, n)
        }),
    decreases n,
{
    if n > 0 {
        let shorter = zero_lines((n - 1) as nat);
        let last = seq![store(DestToken::M, CompToken::Zero), store(DestToken::A, CompToken::AddA1)];
        assert(zero_lines(n) =~= shorter + last);
        lemma_zero_lines((n - 1) as nat, symbols, before);
        lemma_run_concat(shorter, last, symbols, before);
        reveal_with_fuel(run_from, 3);
    } else {
        assert(run(zero_lines(0), symbols, before) == before);
    }
}

/// `function` sets its local variables to zero and pushes them: the cells
/// from the one the stack pointer points to on are at zero, as many as the
/// function has local variables, and the stack pointer points behind them.
/// A function without local variables changes nothing.
pub proof fn lemma_function(
    name: Seq<char>,
    n_vars: nat,
    symbols: Map<Seq<char>, int>,
    before: Machine,
)
    requires
        before.wf(),
    ensures
        ({
            let after = run(function_lines(name, n_vars), symbols, before);
            let top = before.ram[SP as int];
            after.ram == if n_vars == 0 {
                before.ram
            } else {
                zeroed(before.ram, top, n_vars).insert(SP as int, wrap(top + n_vars))
            }
        }),
{
    let head = seq![
        Line::Blank,
        Line::Comment("function "@ + name + " "@ + decimal(n_vars)),
        label(name),
    ];
    assert(run(head, symbols, before) == before) by {
        reveal_with_fuel(run_from, 4);
    }
    if n_vars > 0 {
        let entry = seq![at(SP as nat), store(DestToken::A, CompToken::M)];
        let exit = seq![
            store(DestToken::D, CompToken::A),
            at(SP as nat),
            store(DestToken::M, CompToken::D),
        ];
        assert(function_lines(name, n_vars) == head + entry + zero_lines(n_vars) + exit);
        lemma_run_concat(head + entry + zero_lines(n_vars), exit, symbols, before);
        lemma_run_concat(head + entry, zero_lines(n_vars), symbols, before);
        lemma_run_concat(head, entry, symbols, before);
        let entered = run(entry, symbols, before);
        assert(entered.a == before.ram[SP as int] && entered.ram == before.ram) by {
            reveal_with_fuel(run_from, 3);
        }
        assert(is_word(before.ram[SP as int]));
        lemma_zero_lines(n_vars, symbols, entered);
        let cleared = run(zero_lines(n_vars), symbols, entered);
        assert(run(exit, symbols, cleared).ram == cleared.ram.insert(SP as int, cleared.a)) by {
            reveal_with_fuel(run_from, 4);
        }
    }
}

/// What comes before the first source file sets the stack pointer to 256
/// and calls `Sys.init` as any function is called: the frame lies in the
/// five cells from 256 on, the stack of the function begins behind it, and
/// the machine is at the function.
pub proof fn lemma_bootstrap(id: nat, symbols: Map<Seq<char>, int>, before: Machine)
    requires
        before.wf(),
        knows_registers(symbols),
        all_fit(call_lines("Sys.init"@, 0, id), symbols),
    ensures
        ({
            let after = run(
                bootstrap_lines() + call_lines("Sys.init"@, 0, id),
                symbols,
                before,
            );
            &&& after.pc == symbols["Sys.init"@]
            &&& after.ram[SP as int] == 256 + FRAME
            &&& after.ram[LCL as int] == 256 + FRAME
            &&& after.ram[ARG as int] == 256
            &&& after.ram[256] == symbols[return_label("Sys.init"@, id)]
        }),
{
    lemma_run_concat(bootstrap_lines(), call_lines("Sys.init"@, 0, id), symbols, before);
    let started = run(bootstrap_lines(), symbols, before);
    assert(started.ram == before.ram.insert(SP as int, 256) && started.wf()) by {
        reveal_with_fuel(run_from, 7);
        assert forall|addr: int| is_word(#[trigger] started.ram[addr]) by {
            assert(is_word(before.ram[addr]));
        }
    }
    lemma_call("Sys.init"@, 0, id, symbols, started);
}

/// A pop into a cell at a fixed address takes the stack pointer one cell
/// down and copies the cell it then points to.
pub proof fn lemma_pop_direct(
    comment: Line,
    addr: nat,
    symbols: Map<Seq<char>, int>,
    before: Machine,
)
    requires
        comment is Comment,
    ensures
        ({
            let after = run(direct_pop_lines(comment, addr), symbols, before);
            let top = wrap(before.ram[SP as int] - 1);
            let lowered = before.ram.insert(SP as int, top);
            after.ram == lowered.insert(addr as int, lowered[top])
        }),
{
    reveal_with_fuel(run_from, 8);
}

/// `pop static n` takes the stack pointer one cell down and copies the
/// cell it then points to into the variable.
pub proof fn lemma_pop_static(
    file: Seq<char>,
    number: nat,
    symbols: Map<Seq<char>, int>,
    before: Machine,
)
    ensures
        ({
            let after = run(static_pop_lines(file, number), symbols, before);
            let top = wrap(before.ram[SP as int] - 1);
            let lowered = before.ram.insert(SP as int, top);
            after.ram == lowered.insert(symbols[static_symbol(file, number)], lowered[top])
        }),
{
    reveal_with_fuel(run_from, 7);
}

/// A pop into a segment with a base pointer works out the target address
/// and keeps it in the scratch cell, takes the stack pointer one cell down,
/// and copies the cell it then points to into the cell whose address the
/// scratch cell then holds.
pub proof fn lemma_pop_segment(
    number: nat,
    segment_addr: nat,
    symbols: Map<Seq<char>, int>,
    before: Machine,
)
    requires
        knows_registers(symbols),
    ensures
        ({
            let after = run(segment_pop_lines(number, segment_addr), symbols, before);
            let target = wrap(number + before.ram[segment_addr as int]);
            let noted = before.ram.insert(scratch(), target);
            let top = wrap(noted[SP as int] - 1);
            let lowered = noted.insert(SP as int, top);
            after.ram == lowered.insert(lowered[scratch()], lowered[top])
        }),
{
    reveal_with_fuel(run_from, 15);
}

/// A value pushed as a constant and popped right away arrives in the cell
/// that the `pop` names, and the stack pointer is where it was. This holds
/// where the stack pointer points at no cell that the code works with, and
/// the cell that the `pop` names is not the stack pointer itself.
pub proof fn lemma_push_then_pop(
    k: nat,
    segment: TokenKind,
    number: nat,
    file: Seq<char>,
    symbols: Map<Seq<char>, int>,
    before: Machine,
)
    requires
        segment.is_pop_segment(),
        segment == TokenKind::Pointer ==> number <= 1,
        before.wf(),
        knows_registers(symbols),
        all_fit(constant_push_lines(k) + pop_lines(segment, number, file), symbols),
        !works_with(segment, before.ram[SP as int]),
        cell_of(segment, number, file, symbols, before.ram) != SP,
    ensures
        ({
            let after = run(
                constant_push_lines(k) + pop_lines(segment, number, file),
                symbols,
                before,
            );
            &&& after.ram[cell_of(segment, number, file, symbols, before.ram)] == k
            &&& after.ram[SP as int] == before.ram[SP as int]
        }),
{
    let push = constant_push_lines(k);
    let pop = pop_lines(segment, number, file);
    let top = before.ram[SP as int];
    assert(is_word(top));
    assert(k < half()) by {
        assert((push + pop)[2] == push[2]);
        assert((push + pop)[2].fits(symbols));
    }
    lemma_run_concat(push, pop, symbols, before);
    lemma_push_constant(k, symbols, before);
    let pushed = run(push, symbols, before);
    match segment {
        TokenKind::Local | TokenKind::Argument | TokenKind::This | TokenKind::That => {
            let base: nat = if segment == TokenKind::Local {
                LCL as nat
            } else if segment == TokenKind::Argument {
                ARG as nat
            } else if segment == TokenKind::This {
                THIS as nat
            } else {
                THAT as nat
            };
            assert(is_word(before.ram[base as int]));
            lemma_pop_segment(number, base, symbols, pushed);
        },
        TokenKind::Static => {
            lemma_pop_static(file, number, symbols, pushed);
        },
        TokenKind::Temp => {
            lemma_pop_direct(
                numbered_comment("pop temp "@, number),
                TEMP as nat + number,
                symbols,
                pushed,
            );
        },
        _ => {
            lemma_pop_direct(
                numbered_comment("pop pointer "@, number),
                pointer_cell(number),
                symbols,
                pushed,
            );
        },
    }
}

/// The same as a part of a program: where the code of a `push constant`
/// and a `pop` lies in the program and the machine stands at its first
/// instruction, the machine comes to stand behind its last, with the
/// constant in the cell that the `pop` names and the stack pointer where
/// it was.
pub proof fn lemma_push_then_pop_in_program(
    program: Program,
    base: int,
    k: nat,
    segment: TokenKind,
    number: nat,
    file: Seq<char>,
    before: Machine,
)
    requires
        segment.is_pop_segment(),
        segment == TokenKind::Pointer ==> number <= 1,
        before.wf(),
        knows_registers(program.symbols),
        all_fit(constant_push_lines(k) + pop_lines(segment, number, file), program.symbols),
        !works_with(segment, before.ram[SP as int]),
        cell_of(segment, number, file, program.symbols, before.ram) != SP,
        program.holds(constant_push_lines(k) + pop_lines(segment, number, file), base),
        before.pc == base,
    ensures
        ({
            let lines = constant_push_lines(k) + pop_lines(segment, number, file);
            let after = program.steps(before, code(lines).len());
            &&& after.pc == base + code(lines).len()
            &&& after.ram[cell_of(segment, number, file, program.symbols, before.ram)] == k
            &&& after.ram[SP as int] == before.ram[SP as int]
        }),
{
    let lines = constant_push_lines(k) + pop_lines(segment, number, file);
    lemma_push_then_pop(k, segment, number, file, program.symbols, before);
    assert(jumps_nowhere(lines, 0)) by {
        let push = constant_push_lines(k);
        let pop = pop_lines(segment, number, file);
        assert forall|i: int| 0 <= i < lines.len() implies (#[trigger] lines[i] matches Line::Code {
            op: Operation::Compute(_, _, jump),
            ..
        } ==> jump is Empty) by {
            if i < push.len() {
                assert(lines[i] == push[i]);
            } else {
                assert(lines[i] == pop[i - push.len()]);
            }
        }
    }
    lemma_steps_run(program, lines, base, 0, before);
}

/// Whether `after` is `before` but for the stack pointer, the base
/// pointers of `local` and `argument`, and the five cells from `frame` on.
pub open spec fn differs_in_frame(before: Map<int, int>, after: Map<int, int>, frame: int) -> bool {
    forall|addr: int|
        addr != SP && addr != LCL && addr != ARG && !(frame <= addr < frame + FRAME)
            ==> #[trigger] after[addr] == before[addr]
}

/// What a call does: it saves the return address and the caller's four
/// base pointers in the five cells from the stack pointer on, moves the
/// stack pointer behind them and the base pointer of `local` with it, sets
/// the base pointer of `argument` to the first of the `n_args` cells below
/// the saved ones, and jumps to the function.
pub proof fn lemma_call(
    function: Seq<char>,
    n_args: nat,
    id: nat,
    symbols: Map<Seq<char>, int>,
    before: Machine,
)
    requires
        before.wf(),
        all_fit(call_lines(function, n_args, id), symbols),
        registers() <= before.ram[SP as int] - n_args,
        before.ram[SP as int] + FRAME < words(),
    ensures
        ({
            let after = run(call_lines(function, n_args, id), symbols, before);
            let frame = before.ram[SP as int];
            &&& after.wf()
            &&& after.pc == symbols[function]
            &&& after.ram[frame] == symbols[return_label(function, id)]
            &&& after.ram[frame + 1] == before.ram[LCL as int]
            &&& after.ram[frame + 2] == before.ram[ARG as int]
            &&& after.ram[frame + 3] == before.ram[THIS as int]
            &&& after.ram[frame + 4] == before.ram[THAT as int]
            &&& after.ram[SP as int] == frame + FRAME
            &&& after.ram[LCL as int] == frame + FRAME
            &&& after.ram[ARG as int] == frame - n_args
            &&& differs_in_frame(before.ram, after.ram, frame)
        }),
{
    let lines = call_lines(function, n_args, id);
    let frame = before.ram[SP as int];
    assert(is_word(frame));
    assert(is_word(before.ram[LCL as int]));
    assert(is_word(before.ram[ARG as int]));
    assert(is_word(before.ram[THIS as int]));
    assert(is_word(before.ram[THAT as int]));
    lemma_run_keeps_words(lines, 0, symbols, before);
    assert(lines[2].fits(symbols));
    assert(lines[37].fits(symbols));
    assert(lines[45].fits(symbols));
    let ret = symbols[return_label(function, id)];
    // the return address
    let m1 = run_span(lines, 0, 9, symbols, before);
    assert(m1.ram == before.ram.insert(frame, ret).insert(SP as int, frame + 1)) by {
        reveal_with_fuel(run_span, 10);
    }
    // the four base pointers
    let m2 = run_span(lines, 9, 16, symbols, m1);
    assert(m2.ram == m1.ram.insert(frame + 1, before.ram[LCL as int]).insert(
        SP as int,
        frame + 2,
    )) by {
        reveal_with_fuel(run_span, 8);
    }
    let m3 = run_span(lines, 16, 23, symbols, m2);
    assert(m3.ram == m2.ram.insert(frame + 2, before.ram[ARG as int]).insert(
        SP as int,
        frame + 3,
    )) by {
        reveal_with_fuel(run_span, 8);
    }
    let m4 = run_span(lines, 23, 30, symbols, m3);
    assert(m4.ram == m3.ram.insert(frame + 3, before.ram[THIS as int]).insert(
        SP as int,
        frame + 4,
    )) by {
        reveal_with_fuel(run_span, 8);
    }
    let m5 = run_span(lines, 30, 37, symbols, m4);
    assert(m5.ram == m4.ram.insert(frame + 4, before.ram[THAT as int]).insert(
        SP as int,
        frame + 5,
    ) && m5.d == frame + 5) by {
        reveal_with_fuel(run_span, 8);
    }
    // the new base pointers, and the jump
    let m6 = run_span(lines, 37, 48, symbols, m5);
    assert(m6.ram == m5.ram.insert(ARG as int, frame - n_args).insert(LCL as int, frame + 5)
        && m6.pc == symbols[function]) by {
        reveal_with_fuel(run_span, 12);
    }
    lemma_run_split(lines, 0, 9, symbols, before);
    lemma_run_split(lines, 9, 16, symbols, m1);
    lemma_run_split(lines, 16, 23, symbols, m2);
    lemma_run_split(lines, 23, 30, symbols, m3);
    lemma_run_split(lines, 30, 37, symbols, m4);
    lemma_run_split(lines, 37, 48, symbols, m5);
    assert(run_from(lines, 48, symbols, m6) == m6);
}

/// What a return does where the frame lies above the registers, the
/// arguments lie below the frame, and a value lies on the stack above it:
/// the value goes to where the base pointer of `argument` points, the stack
/// pointer goes right behind it, the four base pointers get the values that
/// the four cells below the base of `local` hold, and the machine jumps to
/// the address that the fifth cell below it holds.
pub proof fn lemma_return(symbols: Map<Seq<char>, int>, before: Machine)
    requires
        before.wf(),
        knows_registers(symbols),
        registers() <= before.ram[ARG as int] <= before.ram[LCL as int] - FRAME,
        before.ram[LCL as int] < before.ram[SP as int],
    ensures
        ({
            let after = run(return_lines(), symbols, before);
            let base = before.ram[LCL as int];
            let first = before.ram[ARG as int];
            &&& after.pc == before.ram[base - 5]
            &&& after.ram[LCL as int] == before.ram[base - 4]
            &&& after.ram[ARG as int] == before.ram[base - 3]
            &&& after.ram[THIS as int] == before.ram[base - 2]
            &&& after.ram[THAT as int] == before.ram[base - 1]
            &&& after.ram[SP as int] == first + 1
            &&& after.ram[first] == before.ram[before.ram[SP as int] - 1]
            &&& forall|addr: int|
                registers() <= addr && addr != first ==> #[trigger] after.ram[addr]
                    == before.ram[addr]
        }),
{
    let lines = return_lines();
    let base = before.ram[LCL as int];
    let first = before.ram[ARG as int];
    let top = before.ram[SP as int];
    assert(is_word(base));
    assert(is_word(first));
    assert(is_word(top));
    // the return address
    let m1 = run_span(lines, 0, 9, symbols, before);
    assert(m1.ram == before.ram.insert(scratch(), before.ram[base - 5])) by {
        reveal_with_fuel(run_span, 10);
    }
    // the value
    let m2 = run_span(lines, 9, 18, symbols, m1);
    assert(m2.ram == m1.ram.insert(SP as int, top - 1).insert(first, before.ram[top - 1]).insert(
        SP as int,
        first + 1,
    )) by {
        reveal_with_fuel(run_span, 10);
    }
    // the four base pointers
    let m3 = run_span(lines, 18, 23, symbols, m2);
    assert(m3.ram == m2.ram.insert(LCL as int, base - 1).insert(
        THAT as int,
        before.ram[base - 1],
    )) by {
        reveal_with_fuel(run_span, 6);
    }
    let m4 = run_span(lines, 23, 28, symbols, m3);
    assert(m4.ram == m3.ram.insert(LCL as int, base - 2).insert(
        THIS as int,
        before.ram[base - 2],
    )) by {
        reveal_with_fuel(run_span, 6);
    }
    let m5 = run_span(lines, 28, 33, symbols, m4);
    assert(m5.ram == m4.ram.insert(LCL as int, base - 3).insert(
        ARG as int,
        before.ram[base - 3],
    )) by {
        reveal_with_fuel(run_span, 6);
    }
    let m6 = run_span(lines, 33, 38, symbols, m5);
    assert(m6.ram == m5.ram.insert(LCL as int, base - 4).insert(
        LCL as int,
        before.ram[base - 4],
    )) by {
        reveal_with_fuel(run_span, 6);
    }
    // the jump
    let m7 = run_span(lines, 38, 40, symbols, m6);
    assert(m7.ram == m6.ram && m7.pc == before.ram[base - 5]) by {
        reveal_with_fuel(run_span, 3);
    }
    lemma_run_split(lines, 0, 9, symbols, before);
    lemma_run_split(lines, 9, 18, symbols, m1);
    lemma_run_split(lines, 18, 23, symbols, m2);
    lemma_run_split(lines, 23, 28, symbols, m3);
    lemma_run_split(lines, 28, 33, symbols, m4);
    lemma_run_split(lines, 33, 38, symbols, m5);
    lemma_run_split(lines, 38, 40, symbols, m6);
    assert(run_from(lines, 40, symbols, m7) == m7);
}

/// A return undoes a call. Let a call be run where the arguments on the
/// stack lie above the registers, and let the function come to its return
/// with a value on its stack, having left alone the five cells that the
/// call has saved and the base pointers of `local` and `argument`. Then
/// the return gives the four base pointers the values they had before the
/// call, puts the value where the first argument was and the stack pointer
/// right behind it, leaves the rest of the stack as the function has left
/// it, and jumps to the label behind the call.
pub proof fn lemma_return_undoes_call(
    function: Seq<char>,
    n_args: nat,
    id: nat,
    symbols: Map<Seq<char>, int>,
    before: Machine,
    returning: Machine,
)
    requires
        before.wf(),
        returning.wf(),
        knows_registers(symbols),
        all_fit(call_lines(function, n_args, id), symbols),
        registers() <= before.ram[SP as int] - n_args,
        before.ram[SP as int] + FRAME < words(),
        ({
            let called = run(call_lines(function, n_args, id), symbols, before);
            let frame = before.ram[SP as int];
            &&& returning.ram[LCL as int] == called.ram[LCL as int]
            &&& returning.ram[ARG as int] == called.ram[ARG as int]
            &&& forall|addr: int|
                frame <= addr < frame + FRAME ==> #[trigger] returning.ram[addr]
                    == called.ram[addr]
            &&& returning.ram[SP as int] > called.ram[SP as int]
        }),
    ensures
        ({
            let after = run(return_lines(), symbols, returning);
            let first = before.ram[SP as int] - n_args;
            &&& after.ram[LCL as int] == before.ram[LCL as int]
            &&& after.ram[ARG as int] == before.ram[ARG as int]
            &&& after.ram[THIS as int] == before.ram[THIS as int]
            &&& after.ram[THAT as int] == before.ram[THAT as int]
            &&& after.ram[SP as int] == first + 1
            &&& after.ram[first] == returning.ram[returning.ram[SP as int] - 1]
            &&& after.pc == symbols[return_label(function, id)]
            &&& forall|addr: int|
                registers() <= addr && addr != first ==> #[trigger] after.ram[addr]
                    == returning.ram[addr]
        }),
{
    let frame = before.ram[SP as int];
    lemma_call(function, n_args, id, symbols, before);
    let called = run(call_lines(function, n_args, id), symbols, before);
    assert(returning.ram[frame] == called.ram[frame]);
    assert(returning.ram[frame + 1] == called.ram[frame + 1]);
    assert(returning.ram[frame + 2] == called.ram[frame + 2]);
    assert(returning.ram[frame + 3] == called.ram[frame + 3]);
    assert(returning.ram[frame + 4] == called.ram[frame + 4]);
    lemma_return(symbols, returning);
}

} // verus!
