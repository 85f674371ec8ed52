//! The two passes of the assembler: the first gathers the instructions and
//! notes the address of each label, the second gives each symbol that is
//! still unknown a cell of its own and puts numbers in place of all
//! symbols.

use crate::assembler::lexer::{
    error_at, lemma_scan_progress, lemma_step_progress, scan, step, LexError, LexErrorKind, Lexer,
    LexerState, Scan, Step, Token, TokenModel,
};
use crate::instruction::{Address, AddrToken, DestToken, Instruction, Operation};
use vstd::hash_map::StringHashMap;
use vstd::prelude::*;
use vstd::string::{StringExecFns, StringSliceAdditionalSpecFns};

verus! {

/// The mathematical content of an [`AssemblyError`].
pub ghost enum AssemblyErrorModel {
    Lexical(LexError),
    LabelDefinedTwice(Seq<char>),
    MisplacedToken,
    IncompleteInstruction,
    OutOfAddresses,
    SourceTooLong,
}

/// Why a text cannot be assembled.
#[derive(Debug)]
pub enum AssemblyError {
    /// The text is not made of tokens.
    Lexical(LexError),
    /// The label is defined a second time, or has the name of a symbol
    /// that is known before the text begins.
    LabelDefinedTwice(String),
    /// A computation or a jump stands where an instruction begins. The
    /// lexer of this crate hands out no such token when it starts between
    /// two instructions.
    MisplacedToken,
    /// A destination is not followed by a computation and a jump. The lexer
    /// of this crate hands out no destination without the two.
    IncompleteInstruction,
    /// There are more variables than addresses.
    OutOfAddresses,
    /// The text has more bytes than rows and columns can be counted for.
    SourceTooLong,
}

impl View for AssemblyError {
    type V = AssemblyErrorModel;

    open spec fn view(&self) -> AssemblyErrorModel {
        match self {
            AssemblyError::Lexical(error) => AssemblyErrorModel::Lexical(*error),
            AssemblyError::LabelDefinedTwice(name) => AssemblyErrorModel::LabelDefinedTwice(name@),
            AssemblyError::MisplacedToken => AssemblyErrorModel::MisplacedToken,
            AssemblyError::IncompleteInstruction => AssemblyErrorModel::IncompleteInstruction,
            AssemblyError::OutOfAddresses => AssemblyErrorModel::OutOfAddresses,
            AssemblyError::SourceTooLong => AssemblyErrorModel::SourceTooLong,
        }
    }
}

/// The address of the last cell that is no variable: the first variable
/// gets the cell behind it.
pub const LAST_REGISTER: usize = 15;

/// The symbols that are known before the text begins: the five pointers of
/// the virtual machine, the sixteen registers, and the two devices.
pub open spec fn predefined() -> Map<Seq<char>, usize> {
    Map::<Seq<char>, usize>::empty().insert("SP"@, 0).insert("LCL"@, 1).insert("ARG"@, 2).insert(
        "THIS"@,
        3,
    ).insert("THAT"@, 4).insert("R0"@, 0).insert("R1"@, 1).insert("R2"@, 2).insert(
        "R3"@,
        3,
    ).insert("R4"@, 4).insert("R5"@, 5).insert("R6"@, 6).insert("R7"@, 7).insert(
        "R8"@,
        8,
    ).insert("R9"@, 9).insert("R10"@, 10).insert("R11"@, 11).insert("R12"@, 12).insert(
        "R13"@,
        13,
    ).insert("R14"@, 14).insert("R15"@, 15).insert("SCREEN"@, 16384).insert("KBD"@, 24576)
}

/// What the first pass has gathered.
pub ghost struct Gathered {
    pub symbols: Map<Seq<char>, usize>,
    pub instructions: Seq<Operation>,
}

/// The result of three tokens in a row that make a computation.
pub open spec fn computation_at(bytes: Seq<u8>, dest: DestToken, state: LexerState, pos: int) -> Result<
    (Operation, LexerState, int),
    AssemblyErrorModel,
> {
    match scan(bytes, state, pos) {
        Scan::Fail { kind, pos: at } => Err(lexical(bytes, kind, at)),
        Scan::Token { token: TokenModel::Comp(comp), state: then, pos: after } => match scan(
            bytes,
            then,
            after,
        ) {
            Scan::Fail { kind, pos: at } => Err(lexical(bytes, kind, at)),
            Scan::Token { token: TokenModel::Jump(jump), state: last, pos: end } => Ok(
                (Operation::Compute(dest, comp, jump), last, end),
            ),
            _ => Err(AssemblyErrorModel::IncompleteInstruction),
        },
        _ => Err(AssemblyErrorModel::IncompleteInstruction),
    }
}

/// The lexical error of the given kind at `pos`.
pub open spec fn lexical(bytes: Seq<u8>, kind: LexErrorKind, pos: int) -> AssemblyErrorModel {
    AssemblyErrorModel::Lexical(error_at(bytes, kind, pos))
}

/// What the first pass does with one token.
pub ghost enum Pass {
    /// It goes on in `state` at `pos`, with `so_far` gathered.
    More { state: LexerState, pos: int, so_far: Gathered },
    /// It ends.
    Done(Result<Gathered, AssemblyErrorModel>),
}

/// One step of the first pass from `state` at `pos`. A label gets the
/// address of the instruction that follows it, and may be defined once
/// only; an address or a computation is one more instruction.
#[verifier::opaque]
pub open spec fn pass_step(bytes: Seq<u8>, state: LexerState, pos: int, so_far: Gathered) -> Pass {
    match scan(bytes, state, pos) {
        Scan::End { .. } => Pass::Done(Ok(so_far)),
        Scan::Fail { kind, pos: at } => Pass::Done(Err(lexical(bytes, kind, at))),
        Scan::Token { token, state: next, pos: after } => match token {
            TokenModel::Label(name) => if so_far.symbols.contains_key(name) {
                Pass::Done(Err(AssemblyErrorModel::LabelDefinedTwice(name)))
            } else {
                Pass::More {
                    state: next,
                    pos: after,
                    so_far: Gathered {
                        symbols: so_far.symbols.insert(name, so_far.instructions.len() as usize),
                        ..so_far
                    },
                }
            },
            TokenModel::Addr(addr) => Pass::More {
                state: next,
                pos: after,
                so_far: Gathered {
                    instructions: so_far.instructions.push(Operation::Load(addr)),
                    ..so_far
                },
            },
            TokenModel::Dest(dest) => match computation_at(bytes, dest, next, after) {
                Ok((operation, last, end)) => Pass::More {
                    state: last,
                    pos: end,
                    so_far: Gathered {
                        instructions: so_far.instructions.push(operation),
                        ..so_far
                    },
                },
                Err(error) => Pass::Done(Err(error)),
            },
            _ => Pass::Done(Err(AssemblyErrorModel::MisplacedToken)),
        },
    }
}

/// The first pass from `state` at `pos`, with what is gathered so far:
/// step by step to the end of the text or to the first error.
pub open spec fn first_pass(
    bytes: Seq<u8>,
    state: LexerState,
    pos: int,
    so_far: Gathered,
) -> Result<Gathered, AssemblyErrorModel>
    decreases bytes.len() - pos, state.rank(),
    via first_pass_decreases
{
    match pass_step(bytes, state, pos, so_far) {
        Pass::Done(result) => result,
        Pass::More { state: next, pos: after, so_far: more } => first_pass(
            bytes,
            next,
            after,
            more,
        ),
    }
}

#[via_fn]
proof fn first_pass_decreases(bytes: Seq<u8>, state: LexerState, pos: int, so_far: Gathered) {
    lemma_pass_progress(bytes, state, pos, so_far);
}

/// A step of the first pass that goes on never goes back, and has read at
/// least one byte or has come nearer to a state that does.
pub proof fn lemma_pass_progress(bytes: Seq<u8>, state: LexerState, pos: int, so_far: Gathered)
    ensures
        pass_step(bytes, state, pos, so_far) matches Pass::More { state: next, pos: after, .. }
            ==> (0 <= pos < after <= bytes.len()) || (pos == after && next.rank() < state.rank()),
{
    reveal(pass_step);
    lemma_scan_progress(bytes, state, pos);
    match scan(bytes, state, pos) {
        Scan::Token { token: TokenModel::Dest(dest), state: next, pos: after } => {
            lemma_scan_progress(bytes, next, after);
            match scan(bytes, next, after) {
                Scan::Token { state: then, pos: further, .. } => {
                    lemma_scan_progress(bytes, then, further);
                },
                _ => {},
            }
        },
        _ => {},
    }
}

/// What the second pass makes of one instruction.
pub ghost struct Settled {
    /// The instruction, with a number in place of its symbol.
    pub operation: Operation,
    /// The symbols known after it.
    pub symbols: Map<Seq<char>, usize>,
    /// The address of the last variable after it.
    pub last: usize,
}

/// The second pass on one instruction. A symbol that is known gives way to
/// its number. One that is not becomes a variable: it gets the address
/// behind the last one given, and is known from then on.
pub open spec fn settled(operation: Operation, symbols: Map<Seq<char>, usize>, last: usize) -> Result<
    Settled,
    AssemblyErrorModel,
> {
    match operation {
        Operation::Load(Address::Symbol(name)) => if symbols.contains_key(name) {
            Ok(
                Settled {
                    operation: Operation::Load(Address::Number(symbols[name] as nat)),
                    symbols,
                    last,
                },
            )
        } else if last == usize::MAX {
            Err(AssemblyErrorModel::OutOfAddresses)
        } else {
            Ok(
                Settled {
                    operation: Operation::Load(Address::Number((last + 1) as nat)),
                    symbols: symbols.insert(name, (last + 1) as usize),
                    last: (last + 1) as usize,
                },
            )
        },
        _ => Ok(Settled { operation, symbols, last }),
    }
}

/// The second pass from the instruction at `from` on.
pub open spec fn second_pass(
    instructions: Seq<Operation>,
    from: int,
    symbols: Map<Seq<char>, usize>,
    last: usize,
) -> Result<Seq<Operation>, AssemblyErrorModel>
    decreases instructions.len() - from,
{
    if 0 <= from < instructions.len() {
        match settled(instructions[from], symbols, last) {
            Ok(one) => match second_pass(instructions, from + 1, one.symbols, one.last) {
                Ok(rest) => Ok(seq![one.operation] + rest),
                Err(error) => Err(error),
            },
            Err(error) => Err(error),
        }
    } else {
        Ok(Seq::empty())
    }
}

/// The instructions that the text assembles to, with numbers in place of
/// all symbols.
pub open spec fn assembled(bytes: Seq<u8>) -> Result<Seq<Operation>, AssemblyErrorModel> {
    match first_pass(
        bytes,
        LexerState::InstructionStart,
        0,
        Gathered { symbols: predefined(), instructions: Seq::empty() },
    ) {
        Ok(gathered) => second_pass(
            gathered.instructions,
            0,
            gathered.symbols,
            LAST_REGISTER,
        ),
        Err(error) => Err(error),
    }
}

/// The models of a sequence of instructions.
pub open spec fn operations(instructions: Seq<Instruction>) -> Seq<Operation> {
    instructions.map_values(|instruction: Instruction| instruction@)
}

/// Whether all instructions can be encoded.
pub open spec fn all_resolved(operations: Seq<Operation>) -> bool {
    forall|i: int| 0 <= i < operations.len() ==> (#[trigger] operations[i]).is_resolved()
}

/// The second pass leaves no symbol behind, and as many instructions as
/// there were.
pub proof fn lemma_second_pass_resolves(
    instructions: Seq<Operation>,
    from: int,
    symbols: Map<Seq<char>, usize>,
    last: usize,
)
    requires
        0 <= from <= instructions.len(),
    ensures
        second_pass(instructions, from, symbols, last) matches Ok(resolved) ==> all_resolved(
            resolved,
        ) && resolved.len() == instructions.len() - from,
    decreases instructions.len() - from,
{
    if from < instructions.len() {
        match settled(instructions[from], symbols, last) {
            Ok(one) => {
                lemma_second_pass_resolves(instructions, from + 1, one.symbols, one.last);
            },
            Err(_) => {},
        }
    }
}

/// Whether the symbols that have come to those known at the `start` are
/// variables in good order: each has a cell of its own behind the
/// registers, and none lies behind the cell given last.
pub open spec fn in_good_order(
    start: Map<Seq<char>, usize>,
    symbols: Map<Seq<char>, usize>,
    last: usize,
) -> bool {
    &&& LAST_REGISTER <= last
    &&& forall|name: Seq<char>|
        symbols.contains_key(name) && !start.contains_key(name) ==> LAST_REGISTER
            < #[trigger] symbols[name] <= last
    &&& forall|name: Seq<char>, other: Seq<char>|
        symbols.contains_key(name) && !start.contains_key(name) && symbols.contains_key(other)
            && !start.contains_key(other) && name != other ==> #[trigger] symbols[name]
            != #[trigger] symbols[other]
}

/// The second pass on one instruction keeps the variables in good order
/// and forgets nothing; and where the instruction loads a symbol that was
/// not known at the start, it loads the cell of that variable.
pub proof fn lemma_settled_keeps_order(
    operation: Operation,
    start: Map<Seq<char>, usize>,
    symbols: Map<Seq<char>, usize>,
    last: usize,
)
    requires
        in_good_order(start, symbols, last),
        settled(operation, symbols, last) is Ok,
    ensures
        ({
            let one = settled(operation, symbols, last)->Ok_0;
            &&& in_good_order(start, one.symbols, one.last)
            &&& forall|name: Seq<char>|
                symbols.contains_key(name) ==> one.symbols.contains_key(name)
                    && #[trigger] one.symbols[name] == symbols[name]
            &&& operation matches Operation::Load(Address::Symbol(name)) ==> one.symbols.contains_key(
                name,
            ) && one.operation == Operation::Load(Address::Number(one.symbols[name] as nat))
        }),
{
}

/// Once a variable has its cell, every later load of a symbol that was not
/// known at the start loads that cell if it is the same symbol, and
/// another cell behind the registers if it is not.
pub proof fn lemma_later_loads(
    instructions: Seq<Operation>,
    from: int,
    start: Map<Seq<char>, usize>,
    symbols: Map<Seq<char>, usize>,
    last: usize,
    variable: Seq<char>,
    at: int,
)
    requires
        0 <= from <= at < instructions.len(),
        in_good_order(start, symbols, last),
        symbols.contains_key(variable),
        !start.contains_key(variable),
        instructions[at] matches Operation::Load(Address::Symbol(name)) && !start.contains_key(name),
        second_pass(instructions, from, symbols, last) is Ok,
    ensures
        ({
            let resolved = second_pass(instructions, from, symbols, last)->Ok_0;
            let name = instructions[at]->Load_0->Symbol_0;
            &&& at - from < resolved.len()
            &&& resolved[at - from] matches Operation::Load(Address::Number(cell))
            &&& cell > LAST_REGISTER
            &&& cell == symbols[variable] <==> name == variable
        }),
    decreases instructions.len() - from,
{
    let one = settled(instructions[from], symbols, last)->Ok_0;
    lemma_settled_keeps_order(instructions[from], start, symbols, last);
    let rest = second_pass(instructions, from + 1, one.symbols, one.last)->Ok_0;
    assert(second_pass(instructions, from, symbols, last) == Ok::<
        Seq<Operation>,
        AssemblyErrorModel,
    >(seq![one.operation] + rest));
    if from < at {
        lemma_later_loads(instructions, from + 1, start, one.symbols, one.last, variable, at);
        assert((seq![one.operation] + rest)[at - from] == rest[at - from - 1]);
    } else {
        assert((seq![one.operation] + rest)[0] == one.operation);
    }
}

/// Each symbol that is met in the second pass and was not known before it
/// gets a cell of its own behind the registers: two loads of such symbols
/// load the same cell if and only if they name the same symbol.
pub proof fn lemma_variables_have_their_own_cells(
    instructions: Seq<Operation>,
    symbols: Map<Seq<char>, usize>,
    first: int,
    second: int,
)
    requires
        0 <= first < second < instructions.len(),
        instructions[first] matches Operation::Load(Address::Symbol(name)) && !symbols.contains_key(
            name,
        ),
        instructions[second] matches Operation::Load(Address::Symbol(name))
            && !symbols.contains_key(name),
        second_pass(instructions, 0, symbols, LAST_REGISTER) is Ok,
    ensures
        ({
            let resolved = second_pass(instructions, 0, symbols, LAST_REGISTER)->Ok_0;
            &&& resolved.len() == instructions.len()
            &&& resolved[first] matches Operation::Load(Address::Number(cell))
            &&& resolved[second] matches Operation::Load(Address::Number(other))
            &&& cell > LAST_REGISTER
            &&& other > LAST_REGISTER
            &&& cell == other <==> instructions[first] == instructions[second]
        }),
{
    lemma_second_pass_resolves(instructions, 0, symbols, LAST_REGISTER);
    lemma_first_load(instructions, 0, symbols, symbols, LAST_REGISTER, first, second);
}

/// The induction behind [`lemma_variables_have_their_own_cells`]: the
/// second pass from `from` on, with the variables in good order.
proof fn lemma_first_load(
    instructions: Seq<Operation>,
    from: int,
    start: Map<Seq<char>, usize>,
    symbols: Map<Seq<char>, usize>,
    last: usize,
    first: int,
    second: int,
)
    requires
        0 <= from <= first < second < instructions.len(),
        in_good_order(start, symbols, last),
        instructions[first] matches Operation::Load(Address::Symbol(name)) && !start.contains_key(
            name,
        ),
        instructions[second] matches Operation::Load(Address::Symbol(name)) && !start.contains_key(
            name,
        ),
        second_pass(instructions, from, symbols, last) is Ok,
    ensures
        ({
            let resolved = second_pass(instructions, from, symbols, last)->Ok_0;
            &&& second - from < resolved.len()
            &&& resolved[first - from] matches Operation::Load(Address::Number(cell))
            &&& resolved[second - from] matches Operation::Load(Address::Number(other))
            &&& cell > LAST_REGISTER
            &&& other > LAST_REGISTER
            &&& cell == other <==> instructions[first] == instructions[second]
        }),
    decreases instructions.len() - from,
{
    let one = settled(instructions[from], symbols, last)->Ok_0;
    lemma_settled_keeps_order(instructions[from], start, symbols, last);
    let rest = second_pass(instructions, from + 1, one.symbols, one.last)->Ok_0;
    assert(second_pass(instructions, from, symbols, last) == Ok::<
        Seq<Operation>,
        AssemblyErrorModel,
    >(seq![one.operation] + rest));
    if from < first {
        lemma_first_load(instructions, from + 1, start, one.symbols, one.last, first, second);
        assert((seq![one.operation] + rest)[first - from] == rest[first - from - 1]);
        assert((seq![one.operation] + rest)[second - from] == rest[second - from - 1]);
    } else {
        let variable = instructions[first]->Load_0->Symbol_0;
        lemma_later_loads(instructions, from + 1, start, one.symbols, one.last, variable, second);
        assert((seq![one.operation] + rest)[0] == one.operation);
        assert((seq![one.operation] + rest)[second - from] == rest[second - from - 1]);
    }
}

impl LexerState {
    /// Whether the lexer can stand in this state between two instructions:
    /// at the start of a line, in a comment, or behind an instruction or a
    /// label.
    pub open spec fn is_between(self) -> bool {
        self is InstructionStart || self is Comment || self is LabelEnd || self is InstructionEnd
    }

    /// Whether the lexer can come to this state from between two
    /// instructions without a token.
    pub open spec fn is_before_token(self) -> bool {
        self.is_between() || self is Address || self is Label || self is Dest
    }
}

/// From between two instructions the lexer finds a label, an address or a
/// destination, and stands behind the label, behind the address or before
/// the computation.
pub proof fn lemma_scan_between(bytes: Seq<u8>, state: LexerState, pos: int)
    requires
        state.is_before_token(),
    ensures
        scan(bytes, state, pos) matches Scan::Token { token, state: next, .. } ==> match token {
            TokenModel::Label(_) => next is LabelEnd,
            TokenModel::Addr(_) => next is InstructionEnd,
            TokenModel::Dest(_) => next is Comp,
            _ => false,
        },
    decreases bytes.len() - pos, state.rank(),
{
    lemma_step_progress(bytes, state, pos);
    match step(bytes, state, pos) {
        Step::Next { state: next, pos: after, token: None } => {
            lemma_scan_between(bytes, next, after);
        },
        _ => {},
    }
}

/// Behind a destination the lexer finds a computation and a jump, in this
/// order, or an error of its own.
pub proof fn lemma_computation_is_complete(
    bytes: Seq<u8>,
    dest: DestToken,
    pos: int,
)
    ensures
        match computation_at(bytes, dest, LexerState::Comp, pos) {
            Ok((_, state, _)) => state is InstructionEnd,
            Err(error) => error is Lexical,
        },
{
    match scan(bytes, LexerState::Comp, pos) {
        Scan::Token { token: TokenModel::Comp(comp), state: then, pos: after } => {
            match step(bytes, then, after) {
                Step::Next { state: next, pos: further, token: None } => {
                    assert(scan(bytes, then, after) == scan(bytes, next, further));
                },
                _ => {},
            }
        },
        _ => {},
    }
}

/// From between two instructions the first pass finds no token out of
/// place and no instruction without its computation or its jump: where it
/// fails, the text is not made of tokens, or a label is defined twice.
pub proof fn lemma_first_pass_errors(
    bytes: Seq<u8>,
    state: LexerState,
    pos: int,
    so_far: Gathered,
)
    requires
        state.is_between(),
    ensures
        first_pass(bytes, state, pos, so_far) matches Err(error) ==> error is Lexical
            || error is LabelDefinedTwice,
    decreases bytes.len() - pos, state.rank(),
{
    reveal(pass_step);
    lemma_pass_progress(bytes, state, pos, so_far);
    lemma_scan_between(bytes, state, pos);
    match scan(bytes, state, pos) {
        Scan::Token { token: TokenModel::Dest(dest), pos: after, .. } => {
            lemma_computation_is_complete(bytes, dest, after);
        },
        _ => {},
    }
    match pass_step(bytes, state, pos, so_far) {
        Pass::More { state: next, pos: after, so_far: more } => {
            lemma_first_pass_errors(bytes, next, after, more);
        },
        _ => {},
    }
}

/// A text fails to be assembled for one of three reasons: it is not made
/// of tokens, it defines a label twice, or it has more variables than
/// there are addresses.
pub proof fn lemma_assembly_errors(bytes: Seq<u8>)
    ensures
        assembled(bytes) matches Err(error) ==> error is Lexical || error is LabelDefinedTwice
            || error is OutOfAddresses,
{
    let start = Gathered { symbols: predefined(), instructions: Seq::<Operation>::empty() };
    lemma_first_pass_errors(bytes, LexerState::InstructionStart, 0, start);
    match first_pass(bytes, LexerState::InstructionStart, 0, start) {
        Ok(gathered) => {
            lemma_second_pass_errors(gathered.instructions, 0, gathered.symbols, LAST_REGISTER);
        },
        Err(_) => {},
    }
}

/// The second pass does not fail where there are addresses for as many
/// variables as there are instructions.
pub proof fn lemma_second_pass_succeeds(
    instructions: Seq<Operation>,
    from: int,
    symbols: Map<Seq<char>, usize>,
    last: usize,
)
    requires
        0 <= from <= instructions.len(),
        last + (instructions.len() - from) <= usize::MAX,
    ensures
        second_pass(instructions, from, symbols, last) is Ok,
    decreases instructions.len() - from,
{
    if from < instructions.len() {
        let one = settled(instructions[from], symbols, last)->Ok_0;
        lemma_second_pass_succeeds(instructions, from + 1, one.symbols, one.last);
    }
}

/// The second pass fails only for want of addresses.
pub proof fn lemma_second_pass_errors(
    instructions: Seq<Operation>,
    from: int,
    symbols: Map<Seq<char>, usize>,
    last: usize,
)
    ensures
        second_pass(instructions, from, symbols, last) matches Err(error) ==> error
            is OutOfAddresses,
    decreases instructions.len() - from,
{
    if 0 <= from < instructions.len() {
        match settled(instructions[from], symbols, last) {
            Ok(one) => {
                lemma_second_pass_errors(instructions, from + 1, one.symbols, one.last);
            },
            Err(_) => {},
        }
    }
}

/// The assembler at work: a lexer, the symbols known, and the
/// instructions gathered.
pub struct Parser {
    lexer: Lexer,
    symbols: StringHashMap<usize>,
    instructions: Vec<Instruction>,
}

impl Parser {
    /// The symbols known.
    pub closed spec fn symbols(&self) -> Map<Seq<char>, usize> {
        self.symbols@
    }

    /// The instructions gathered.
    pub closed spec fn instructions(&self) -> Seq<Operation> {
        operations(self.instructions@)
    }

    /// What is left to read: the text, and where and in which state the
    /// lexer stands in it.
    pub closed spec fn reading(&self) -> (Seq<u8>, LexerState, int) {
        (self.lexer.bytes(), self.lexer.state(), self.lexer.position())
    }

    /// The lexer is in good order.
    pub closed spec fn wf(&self) -> bool {
        self.lexer.wf()
    }

    /// An assembler in good order reads within its text, and the text is
    /// short enough for every row and column to be counted.
    pub proof fn lemma_reads_within(&self)
        requires
            self.wf(),
        ensures
            0 <= self.reading().2 <= self.reading().0.len() < usize::MAX,
    {
        self.lexer.lemma_cursor_lies_within();
    }

    /// Assembles the text `s`.
    pub fn from_str(s: &str) -> (result: Result<Parser, AssemblyError>)
        requires
            s.spec_bytes().len() < usize::MAX,
        ensures
            match result {
                Ok(parser) => assembled(s.spec_bytes()) == Ok::<
                    Seq<Operation>,
                    AssemblyErrorModel,
                >(parser.instructions()),
                Err(error) => assembled(s.spec_bytes()) == Err::<
                    Seq<Operation>,
                    AssemblyErrorModel,
                >(error@),
            },
    {
        let parser = Parser {
            lexer: Lexer::from_str(s),
            symbols: StringHashMap::new(),
            instructions: Vec::new(),
        };
        let parser = parser.add_default_symbols();
        assert(parser.gathered() == (Gathered {
            symbols: predefined(),
            instructions: Seq::<Operation>::empty(),
        })) by {
            assert(parser.instructions() =~= Seq::<Operation>::empty());
        }
        let parser = match parser.first_pass() {
            Ok(parser) => parser,
            Err(error) => {
                return Err(error);
            },
        };
        parser.second_pass()
    }

    /// Makes known the symbols that are known before any text begins.
    fn add_default_symbols(self) -> (parser: Parser)
        requires
            self.symbols() == Map::<Seq<char>, usize>::empty(),
        ensures
            parser.symbols() == predefined(),
            parser.instructions() == self.instructions(),
            parser.reading() == self.reading(),
            parser.wf() == self.wf(),
    {
        let mut parser = self;
        parser.symbols.insert(String::from_str("SP"), 0);
        parser.symbols.insert(String::from_str("LCL"), 1);
        parser.symbols.insert(String::from_str("ARG"), 2);
        parser.symbols.insert(String::from_str("THIS"), 3);
        parser.symbols.insert(String::from_str("THAT"), 4);
        parser.symbols.insert(String::from_str("R0"), 0);
        parser.symbols.insert(String::from_str("R1"), 1);
        parser.symbols.insert(String::from_str("R2"), 2);
        parser.symbols.insert(String::from_str("R3"), 3);
        parser.symbols.insert(String::from_str("R4"), 4);
        parser.symbols.insert(String::from_str("R5"), 5);
        parser.symbols.insert(String::from_str("R6"), 6);
        parser.symbols.insert(String::from_str("R7"), 7);
        parser.symbols.insert(String::from_str("R8"), 8);
        parser.symbols.insert(String::from_str("R9"), 9);
        parser.symbols.insert(String::from_str("R10"), 10);
        parser.symbols.insert(String::from_str("R11"), 11);
        parser.symbols.insert(String::from_str("R12"), 12);
        parser.symbols.insert(String::from_str("R13"), 13);
        parser.symbols.insert(String::from_str("R14"), 14);
        parser.symbols.insert(String::from_str("R15"), 15);
        parser.symbols.insert(String::from_str("SCREEN"), 16384);
        parser.symbols.insert(String::from_str("KBD"), 24576);
        parser
    }

    /// Adds one instruction to those gathered.
    fn gather(&mut self, instruction: Instruction)
        ensures
            final(self).instructions() == old(self).instructions().push(instruction@),
            final(self).symbols() == old(self).symbols(),
            final(self).reading() == old(self).reading(),
            final(self).wf() == old(self).wf(),
    {
        self.instructions.push(instruction);
        assert(operations(self.instructions@) =~= operations(old(self).instructions@).push(
            instruction@,
        ));
    }

    /// The computation and the jump that follow a destination.
    fn finish_computation(&mut self, dest: DestToken) -> (result: Result<Instruction, AssemblyError>)
        requires
            old(self).wf(),
        ensures
            final(self).wf(),
            final(self).symbols() == old(self).symbols(),
            final(self).instructions() == old(self).instructions(),
            final(self).reading().0 == old(self).reading().0,
            match result {
                Ok(instruction) => computation_at(
                    old(self).reading().0,
                    dest,
                    old(self).reading().1,
                    old(self).reading().2,
                ) == Ok::<(Operation, LexerState, int), AssemblyErrorModel>(
                    (instruction@, final(self).reading().1, final(self).reading().2),
                ),
                Err(error) => computation_at(
                    old(self).reading().0,
                    dest,
                    old(self).reading().1,
                    old(self).reading().2,
                ) == Err::<(Operation, LexerState, int), AssemblyErrorModel>(error@),
            },
    {
        let comp = match self.lexer.next_token() {
            Ok(Some(Token::Comp(comp))) => comp,
            Ok(_) => {
                return Err(AssemblyError::IncompleteInstruction);
            },
            Err(error) => {
                return Err(AssemblyError::Lexical(error));
            },
        };
        match self.lexer.next_token() {
            Ok(Some(Token::Jump(jump))) => Ok(Instruction::Comp(dest, comp, jump)),
            Ok(_) => Err(AssemblyError::IncompleteInstruction),
            Err(error) => Err(AssemblyError::Lexical(error)),
        }
    }

    /// What is gathered so far.
    pub closed spec fn gathered(&self) -> Gathered {
        Gathered { symbols: self.symbols@, instructions: operations(self.instructions@) }
    }

    /// Reads one token and does with it what the first pass does; `false`
    /// says that the text has ended.
    fn gather_next(&mut self) -> (result: Result<bool, AssemblyError>)
        requires
            old(self).wf(),
        ensures
            final(self).wf(),
            final(self).reading().0 == old(self).reading().0,
            match pass_step(
                old(self).reading().0,
                old(self).reading().1,
                old(self).reading().2,
                old(self).gathered(),
            ) {
                Pass::More { state, pos, so_far } => result == Ok::<bool, AssemblyError>(true)
                    && final(self).reading().1 == state && final(self).reading().2 == pos
                    && final(self).gathered() == so_far,
                Pass::Done(Ok(so_far)) => result == Ok::<bool, AssemblyError>(false)
                    && final(self).gathered() == so_far,
                Pass::Done(Err(error)) => result matches Err(found) && found@ == error,
            },
    {
        reveal(pass_step);
        match self.lexer.next_token() {
            Ok(Some(Token::Label(label))) => {
                if self.symbols.contains_key(label.as_str()) {
                    return Err(AssemblyError::LabelDefinedTwice(label));
                }
                assert(operations(self.instructions@).len() == self.instructions.len());
                self.symbols.insert(label, self.instructions.len());
                Ok(true)
            },
            Ok(Some(Token::Addr(addr))) => {
                self.gather(Instruction::Addr(addr));
                Ok(true)
            },
            Ok(Some(Token::Dest(dest))) => {
                match self.finish_computation(dest) {
                    Ok(instruction) => {
                        self.gather(instruction);
                        Ok(true)
                    },
                    Err(error) => Err(error),
                }
            },
            Ok(Some(_)) => Err(AssemblyError::MisplacedToken),
            Ok(None) => Ok(false),
            Err(error) => Err(AssemblyError::Lexical(error)),
        }
    }

    /// Gathers the instructions of the text and notes the address of each
    /// label.
    fn first_pass(self) -> (result: Result<Parser, AssemblyError>)
        requires
            self.wf(),
        ensures
            match result {
                Ok(parser) => first_pass(
                    self.reading().0,
                    self.reading().1,
                    self.reading().2,
                    self.gathered(),
                ) == Ok::<Gathered, AssemblyErrorModel>(parser.gathered()),
                Err(error) => first_pass(
                    self.reading().0,
                    self.reading().1,
                    self.reading().2,
                    self.gathered(),
                ) == Err::<Gathered, AssemblyErrorModel>(error@),
            },
    {
        let mut parser = self;
        let ghost bytes = parser.reading().0;
        let ghost goal = first_pass(
            bytes,
            parser.reading().1,
            parser.reading().2,
            parser.gathered(),
        );
        loop
            invariant
                parser.wf(),
                parser.reading().0 == bytes,
                goal == first_pass(
                    self.reading().0,
                    self.reading().1,
                    self.reading().2,
                    self.gathered(),
                ),
                first_pass(bytes, parser.reading().1, parser.reading().2, parser.gathered())
                    == goal,
            decreases bytes.len() - parser.reading().2, parser.reading().1.rank(),
        {
            proof {
                lemma_pass_progress(
                    bytes,
                    parser.reading().1,
                    parser.reading().2,
                    parser.gathered(),
                );
            }
            match parser.gather_next() {
                Ok(more) => {
                    if !more {
                        return Ok(parser);
                    }
                },
                Err(error) => {
                    return Err(error);
                },
            }
        }
    }

    /// Puts a number in place of the symbol of one instruction.
    fn settle(
        instruction: Instruction,
        symbols: &mut StringHashMap<usize>,
        last: &mut usize,
    ) -> (result: Result<Instruction, AssemblyError>)
        ensures
            match result {
                Ok(done) => settled(instruction@, old(symbols)@, *old(last)) == Ok::<
                    Settled,
                    AssemblyErrorModel,
                >(Settled { operation: done@, symbols: final(symbols)@, last: *final(last) }),
                Err(error) => settled(instruction@, old(symbols)@, *old(last)) == Err::<
                    Settled,
                    AssemblyErrorModel,
                >(error@),
            },
    {
        match instruction {
            Instruction::Addr(AddrToken::Dynamic(label)) => {
                let known = match symbols.get(label.as_str()) {
                    Some(value) => Some(*value),
                    None => None,
                };
                match known {
                    Some(value) => Ok(Instruction::Addr(AddrToken::Static(value))),
                    None => {
                        if *last == usize::MAX {
                            return Err(AssemblyError::OutOfAddresses);
                        }
                        *last = *last + 1;
                        symbols.insert(label, *last);
                        Ok(Instruction::Addr(AddrToken::Static(*last)))
                    },
                }
            },
            instruction => Ok(instruction),
        }
    }

    /// Puts numbers in place of all symbols of the instructions gathered.
    fn second_pass(self) -> (result: Result<Parser, AssemblyError>)
        ensures
            match result {
                Ok(parser) => second_pass(self.instructions(), 0, self.symbols(), LAST_REGISTER)
                    == Ok::<Seq<Operation>, AssemblyErrorModel>(parser.instructions()),
                Err(error) => second_pass(self.instructions(), 0, self.symbols(), LAST_REGISTER)
                    == Err::<Seq<Operation>, AssemblyErrorModel>(error@),
            },
    {
        let Parser { lexer, mut symbols, instructions } = self;
        let ghost all = operations(instructions@);
        let ghost goal = second_pass(all, 0, symbols@, LAST_REGISTER);
        let mut next_dynamic_address: usize = LAST_REGISTER;
        let mut resolved: Vec<Instruction> = Vec::new();
        for instruction in it: instructions
            invariant
                operations(it.seq()) == all,
                all == self.instructions(),
                goal == second_pass(all, 0, self.symbols(), LAST_REGISTER),
                match second_pass(all, it.index() as int, symbols@, next_dynamic_address) {
                    Ok(rest) => goal == Ok::<Seq<Operation>, AssemblyErrorModel>(
                        operations(resolved@) + rest,
                    ),
                    Err(error) => goal == Err::<Seq<Operation>, AssemblyErrorModel>(error),
                },
        {
            let ghost i = it.index() as int;
            let ghost before = operations(resolved@);
            assert(instruction@ == all[i]);
            assert(all.len() == it.seq().len());
            match Self::settle(instruction, &mut symbols, &mut next_dynamic_address) {
                Ok(done) => {
                    resolved.push(done);
                    proof {
                        assert(operations(resolved@) =~= before.push(done@));
                        match second_pass(all, i + 1, symbols@, next_dynamic_address) {
                            Ok(rest) => {
                                assert(before.push(done@) + rest =~= before + (seq![done@] + rest));
                            },
                            Err(_) => {},
                        }
                    }
                },
                Err(error) => {
                    return Err(error);
                },
            }
        }
        proof {
            assert(operations(resolved@) + Seq::<Operation>::empty() =~= operations(resolved@));
        }
        Ok(Parser { lexer, symbols, instructions: resolved })
    }

    /// The instructions, once the text is assembled.
    pub fn into_instructions(self) -> (instructions: Vec<Instruction>)
        ensures
            operations(instructions@) == self.instructions(),
    {
        self.instructions
    }
}

} // verus!
