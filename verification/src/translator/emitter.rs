//! The emission engine: one fixed instruction template for each command,
//! and the state that the templates depend on.
//!
//! The state is the name of the file being translated, the name of the
//! function being translated if there is one, and two counters that number
//! the labels made for comparisons and for calls. The output is text, and
//! only ever grows.

use crate::instruction::{CompToken, DestToken, JumpToken};
use crate::listing::{
    at, at_noted, at_symbol, at_symbol_noted, compute, compute_noted, label, render, store, Block,
    Line,
};
use crate::numeral::{decimal, push_decimal};
use vstd::prelude::*;
use vstd::string::StringExecFns;

verus! {

/// The address of the stack pointer.
pub const SP: usize = 0;

/// The address of the base pointer of the `local` segment.
pub const LCL: usize = 1;

/// The address of the base pointer of the `argument` segment.
pub const ARG: usize = 2;

/// The address of the base pointer of the `this` segment.
pub const THIS: usize = 3;

/// The address of the base pointer of the `that` segment.
pub const THAT: usize = 4;

/// The address of the first cell of the `temp` segment.
pub const TEMP: usize = 5;

/// The number of words that a call saves on the stack: the return address
/// and the caller's four base pointers.
pub const FRAME: usize = 5;

/// The label of the branch that a comparison takes when it holds:
/// `<prefix>-<name>-true.<id>`.
pub open spec fn true_label(prefix: Seq<char>, name: Seq<char>, id: nat) -> Seq<char> {
    prefix + "-"@ + name + "-true."@ + decimal(id)
}

/// The label at which both branches of a comparison meet:
/// `<prefix>-<name>-done.<id>`.
pub open spec fn done_label(prefix: Seq<char>, name: Seq<char>, id: nat) -> Seq<char> {
    prefix + "-"@ + name + "-done."@ + decimal(id)
}

/// The label that a call returns to: `<function>$ret.<id>`.
pub open spec fn return_label(function: Seq<char>, id: nat) -> Seq<char> {
    function + "$ret."@ + decimal(id)
}

/// The full name of a label of the source: `<prefix>$<name>`.
pub open spec fn scoped_label(prefix: Seq<char>, name: Seq<char>) -> Seq<char> {
    prefix + "$"@ + name
}

/// The name of a static variable: `<file>.<number>`.
pub open spec fn static_symbol(file: Seq<char>, number: nat) -> Seq<char> {
    file + "."@ + decimal(number)
}

/// The name of the segment whose base pointer lives at `addr`.
pub open spec fn segment_name(addr: nat) -> Seq<char> {
    if addr == ARG {
        "argument"@
    } else if addr == LCL {
        "local"@
    } else if addr == THAT {
        "that"@
    } else if addr == THIS {
        "this"@
    } else {
        "unknown"@
    }
}

/// A command of one word, as its comment names it.
pub open spec fn plain_comment(name: Seq<char>) -> Line {
    Line::Comment(name)
}

/// A command of a word and a number, as its comment names it.
pub open spec fn numbered_comment(words: Seq<char>, number: nat) -> Line {
    Line::Comment(words + decimal(number))
}

/// `add`, `sub`, `and`, `or`: pop the second operand into `D`, then combine
/// it with the first in place.
pub open spec fn binary_lines(name: Seq<char>, comp: CompToken) -> Seq<Line> {
    seq![
        Line::Blank,
        plain_comment(name),
        at(SP as nat),
        store(DestToken::AM, CompToken::SubM1),
        store(DestToken::D, CompToken::M),
        at(SP as nat),
        store(DestToken::A, CompToken::SubM1),
        store(DestToken::M, comp),
    ]
}

/// `neg`, `not`: change the top of the stack in place.
pub open spec fn unary_lines(name: Seq<char>, comp: CompToken) -> Seq<Line> {
    seq![
        Line::Blank,
        plain_comment(name),
        at(SP as nat),
        store(DestToken::A, CompToken::SubM1),
        store(DestToken::M, comp),
    ]
}

/// `eq`, `gt`, `lt`: subtract, branch on the sign of the difference, and
/// write all ones for true or all zeros for false where the first operand
/// was.
pub open spec fn comparison_lines(
    prefix: Seq<char>,
    name: Seq<char>,
    jump: JumpToken,
    id: nat,
) -> Seq<Line> {
    seq![
        Line::Blank,
        plain_comment(name),
        at(SP as nat),
        store(DestToken::AM, CompToken::SubM1),
        store(DestToken::D, CompToken::M),
        at(SP as nat),
        store(DestToken::A, CompToken::SubM1),
        store(DestToken::D, CompToken::SubMD),
        at_symbol(true_label(prefix, name, id)),
        compute(DestToken::Empty, CompToken::D, jump),
        at_symbol(done_label(prefix, name, id)),
        compute_noted(DestToken::D, CompToken::Zero, JumpToken::JMP, " // false"@),
        label(true_label(prefix, name, id)),
        compute_noted(DestToken::D, CompToken::Negate1, JumpToken::Empty, "    // true"@),
        label(done_label(prefix, name, id)),
        at(SP as nat),
        store(DestToken::A, CompToken::SubM1),
        store(DestToken::M, CompToken::D),
    ]
}

/// `call f n`: push the return address and the caller's four base pointers,
/// move `ARG` back over them and the `n` arguments, set `LCL` to the stack
/// pointer, jump to `f`, and define the return label right behind the jump.
pub open spec fn call_lines(function: Seq<char>, n_args: nat, id: nat) -> Seq<Line> {
    seq![
        Line::Blank,
        Line::Comment("call "@ + function + " "@ + decimal(n_args)),
        at_symbol_noted(return_label(function, id), "    // push the return addr onto the stack"@),
        store(DestToken::D, CompToken::A),
        at(SP as nat),
        store(DestToken::A, CompToken::M),
        store(DestToken::M, CompToken::D),
        at(SP as nat),
        store(DestToken::M, CompToken::AddM1),
        at_noted(LCL as nat, "   // push the LCL value onto the stack"@),
        store(DestToken::D, CompToken::M),
        at(SP as nat),
        store(DestToken::A, CompToken::M),
        store(DestToken::M, CompToken::D),
        at(SP as nat),
        store(DestToken::M, CompToken::AddM1),
        at_noted(ARG as nat, "   // push the ARG value onto the stack"@),
        store(DestToken::D, CompToken::M),
        at(SP as nat),
        store(DestToken::A, CompToken::M),
        store(DestToken::M, CompToken::D),
        at(SP as nat),
        store(DestToken::M, CompToken::AddM1),
        at_noted(THIS as nat, "  // push the THIS value onto the stack"@),
        store(DestToken::D, CompToken::M),
        at(SP as nat),
        store(DestToken::A, CompToken::M),
        store(DestToken::M, CompToken::D),
        at(SP as nat),
        store(DestToken::M, CompToken::AddM1),
        at_noted(THAT as nat, "  // push the THAT value onto the stack"@),
        store(DestToken::D, CompToken::M),
        at(SP as nat),
        store(DestToken::A, CompToken::M),
        store(DestToken::M, CompToken::D),
        at(SP as nat),
        store(DestToken::MD, CompToken::AddM1),
        at_noted(n_args + FRAME as nat, " // Re-position ARG"@),
        store(DestToken::D, CompToken::SubDA),
        at(ARG as nat),
        store(DestToken::M, CompToken::D),
        at_noted(SP as nat, "    // set LCL=SP"@),
        compute_noted(DestToken::D, CompToken::M, JumpToken::Empty, " "@),
        at(LCL as nat),
        store(DestToken::M, CompToken::D),
        at_symbol(function),
        compute(DestToken::Empty, CompToken::Zero, JumpToken::JMP),
        label(return_label(function, id)),
    ]
}

/// `return`: save the return address in `R13`, move the return value to
/// where the first argument was, put the stack pointer right behind it,
/// restore `THAT`, `THIS`, `ARG` and `LCL` from the frame, last saved
/// first, and jump to the saved address.
pub open spec fn return_lines() -> Seq<Line> {
    seq![
        Line::Blank,
        plain_comment("return"@),
        at_noted(LCL as nat, "    // copy the return address to R13: *(RAM[LCL] - 5)"@),
        store(DestToken::D, CompToken::M),
        at(FRAME as nat),
        store(DestToken::A, CompToken::SubDA),
        store(DestToken::D, CompToken::M),
        at_symbol("R13"@),
        store(DestToken::M, CompToken::D),
        at_noted(SP as nat, "     // pop the return value into arg 0"@),
        store(DestToken::AM, CompToken::SubM1),
        store(DestToken::D, CompToken::M),
        at(ARG as nat),
        store(DestToken::A, CompToken::M),
        store(DestToken::M, CompToken::D),
        compute_noted(
            DestToken::D,
            CompToken::AddA1,
            JumpToken::Empty,
            "     // move the stack pointer to arg + 1"@,
        ),
        at(SP as nat),
        store(DestToken::M, CompToken::D),
        at_noted(LCL as nat, "    // restore the caller's THAT address: *(RAM[LCL] - 1)"@),
        store(DestToken::AM, CompToken::SubM1),
        store(DestToken::D, CompToken::M),
        at(THAT as nat),
        store(DestToken::M, CompToken::D),
        at_noted(LCL as nat, "    // restore the callers' THIS address: *(RAM[LCL] - 2)"@),
        store(DestToken::AM, CompToken::SubM1),
        store(DestToken::D, CompToken::M),
        at(THIS as nat),
        store(DestToken::M, CompToken::D),
        at_noted(LCL as nat, "    // restore the callers'  ARG address: *(RAM[LCL] - 3)"@),
        store(DestToken::AM, CompToken::SubM1),
        store(DestToken::D, CompToken::M),
        at(ARG as nat),
        store(DestToken::M, CompToken::D),
        at_noted(LCL as nat, "    // restore the callers'  LCL address: *(RAM[LCL] - 4)"@),
        store(DestToken::AM, CompToken::SubM1),
        store(DestToken::D, CompToken::M),
        at(LCL as nat),
        store(DestToken::M, CompToken::D),
        at_symbol_noted("R13"@, "      // jump to the return address"@),
        compute(DestToken::A, CompToken::M, JumpToken::JMP),
    ]
}

/// What comes before the first source file: the stack pointer is set to 256.
/// A call of `Sys.init` follows it.
pub open spec fn bootstrap_lines() -> Seq<Line> {
    seq![
        Line::Blank,
        plain_comment("Bootstrap"@),
        at(256),
        store(DestToken::D, CompToken::A),
        at_symbol("SP"@),
        store(DestToken::M, CompToken::D),
    ]
}

/// `n` times: store zero and step to the next cell.
pub open spec fn zero_lines(n: nat) -> Seq<Line>
    decreases n,
{
    if n == 0 {
        Seq::empty()
    } else {
        zero_lines((n - 1) as nat).push(store(DestToken::M, CompToken::Zero)).push(
            store(DestToken::A, CompToken::AddA1),
        )
    }
}

/// `function f n`: the label `f`, not scoped, and `n` local cells set to
/// zero and pushed.
pub open spec fn function_lines(name: Seq<char>, n_vars: nat) -> Seq<Line> {
    let head = seq![
        Line::Blank,
        Line::Comment("function "@ + name + " "@ + decimal(n_vars)),
        label(name),
    ];
    if n_vars == 0 {
        head
    } else {
        head + seq![at(SP as nat), store(DestToken::A, CompToken::M)] + zero_lines(n_vars) + seq![
            store(DestToken::D, CompToken::A),
            at(SP as nat),
            store(DestToken::M, CompToken::D),
        ]
    }
}

/// `goto l`: jump to the label `l` of the current scope.
pub open spec fn goto_lines(prefix: Seq<char>, name: Seq<char>) -> Seq<Line> {
    seq![
        Line::Blank,
        Line::Comment("goto "@ + name),
        at_symbol_noted(scoped_label(prefix, name), " "@),
        compute(DestToken::Empty, CompToken::Zero, JumpToken::JMP),
    ]
}

/// `if-goto l`: pop, and jump to the label `l` of the current scope if the
/// value popped is not zero.
pub open spec fn ifgoto_lines(prefix: Seq<char>, name: Seq<char>) -> Seq<Line> {
    seq![
        Line::Blank,
        Line::Comment("if-goto "@ + name),
        at(SP as nat),
        store(DestToken::AM, CompToken::SubM1),
        store(DestToken::D, CompToken::M),
        at_symbol_noted(scoped_label(prefix, name), " "@),
        compute(DestToken::Empty, CompToken::D, JumpToken::JNE),
    ]
}

/// `label l`: define the label `l` of the current scope.
pub open spec fn label_lines(prefix: Seq<char>, name: Seq<char>) -> Seq<Line> {
    seq![
        Line::Blank,
        Line::Comment("label "@ + name),
        Line::Label { name: scoped_label(prefix, name), note: " "@ },
    ]
}

/// `push constant n`: push the number itself.
pub open spec fn constant_push_lines(number: nat) -> Seq<Line> {
    seq![
        Line::Blank,
        numbered_comment("push constant "@, number),
        at(number),
        store(DestToken::D, CompToken::A),
        at(SP as nat),
        store(DestToken::A, CompToken::M),
        store(DestToken::M, CompToken::D),
        at(SP as nat),
        store(DestToken::M, CompToken::AddM1),
    ]
}

/// Push the cell at a fixed address, under the given comment.
pub open spec fn direct_push_lines(comment: Line, addr: nat) -> Seq<Line> {
    seq![
        Line::Blank,
        comment,
        at(addr),
        store(DestToken::D, CompToken::M),
        at(SP as nat),
        store(DestToken::A, CompToken::M),
        store(DestToken::M, CompToken::D),
        at(SP as nat),
        store(DestToken::M, CompToken::AddM1),
    ]
}

/// Pop into the cell at a fixed address, under the given comment.
pub open spec fn direct_pop_lines(comment: Line, addr: nat) -> Seq<Line> {
    seq![
        Line::Blank,
        comment,
        at(SP as nat),
        store(DestToken::AM, CompToken::SubM1),
        store(DestToken::D, CompToken::M),
        at(addr),
        store(DestToken::M, CompToken::D),
    ]
}

/// `push pointer n`: push the base pointer at `segment_addr` itself.
pub open spec fn pointer_push_lines(number: nat, segment_addr: nat) -> Seq<Line> {
    direct_push_lines(numbered_comment("push pointer "@, number), segment_addr)
}

/// `pop pointer n`: pop into the base pointer at `segment_addr` itself.
pub open spec fn pointer_pop_lines(number: nat, segment_addr: nat) -> Seq<Line> {
    direct_pop_lines(numbered_comment("pop pointer "@, number), segment_addr)
}

/// `push temp n`: push the cell at `5 + n`.
pub open spec fn temp_push_lines(number: nat) -> Seq<Line> {
    direct_push_lines(numbered_comment("push temp "@, number), TEMP as nat + number)
}

/// `pop temp n`: pop into the cell at `5 + n`.
pub open spec fn temp_pop_lines(number: nat) -> Seq<Line> {
    direct_pop_lines(numbered_comment("pop temp "@, number), TEMP as nat + number)
}

/// `push <segment> n` for `local`, `argument`, `this`, `that`: push the cell
/// `n` behind the one the base pointer at `segment_addr` points to.
pub open spec fn segment_push_lines(number: nat, segment_addr: nat) -> Seq<Line> {
    seq![
        Line::Blank,
        Line::Comment("push "@ + segment_name(segment_addr) + " "@ + decimal(number)),
        at(segment_addr),
        store(DestToken::D, CompToken::M),
        at(number),
        store(DestToken::A, CompToken::AddDA),
        store(DestToken::D, CompToken::M),
        at(SP as nat),
        store(DestToken::A, CompToken::M),
        store(DestToken::M, CompToken::D),
        at(SP as nat),
        store(DestToken::M, CompToken::AddM1),
    ]
}

/// `pop <segment> n` for `local`, `argument`, `this`, `that`: work out the
/// target address, keep it in `R13`, pop, and store through `R13`.
pub open spec fn segment_pop_lines(number: nat, segment_addr: nat) -> Seq<Line> {
    seq![
        Line::Blank,
        Line::Comment("pop "@ + segment_name(segment_addr) + " "@ + decimal(number)),
        at(number),
        store(DestToken::D, CompToken::A),
        at(segment_addr),
        store(DestToken::D, CompToken::AddDM),
        at_symbol("R13"@),
        store(DestToken::M, CompToken::D),
        at(SP as nat),
        store(DestToken::AM, CompToken::SubM1),
        store(DestToken::D, CompToken::M),
        at_symbol("R13"@),
        store(DestToken::A, CompToken::M),
        store(DestToken::M, CompToken::D),
    ]
}

/// `push static n`: push the variable `<file>.<n>`.
pub open spec fn static_push_lines(file: Seq<char>, number: nat) -> Seq<Line> {
    seq![
        numbered_comment("push static "@, number),
        at_symbol(static_symbol(file, number)),
        store(DestToken::D, CompToken::M),
        at(SP as nat),
        store(DestToken::A, CompToken::M),
        store(DestToken::M, CompToken::D),
        at(SP as nat),
        store(DestToken::M, CompToken::AddM1),
    ]
}

/// `pop static n`: pop into the variable `<file>.<n>`.
pub open spec fn static_pop_lines(file: Seq<char>, number: nat) -> Seq<Line> {
    seq![
        numbered_comment("pop static "@, number),
        at(SP as nat),
        store(DestToken::AM, CompToken::SubM1),
        store(DestToken::D, CompToken::M),
        at_symbol(static_symbol(file, number)),
        store(DestToken::M, CompToken::D),
    ]
}

/// The state of an emission run, and all that it has written.
pub ghost struct EmitterModel {
    /// The text written so far.
    pub out: Seq<char>,
    /// The name of the file being translated: the scope of its static
    /// variables, and of its labels outside any function.
    pub file_name: Seq<char>,
    /// The name of the function being translated: the scope of its labels.
    pub func_name: Option<Seq<char>>,
    /// The number of calls emitted.
    pub ret_count: nat,
    /// The number of comparisons emitted.
    pub bool_count: nat,
}

impl EmitterModel {
    /// The state before anything is written.
    pub open spec fn initial() -> EmitterModel {
        EmitterModel {
            out: Seq::empty(),
            file_name: "Bootstrap"@,
            func_name: None,
            ret_count: 0,
            bool_count: 0,
        }
    }

    /// The scope of labels: the function if there is one, else the file.
    pub open spec fn label_prefix(self) -> Seq<char> {
        match self.func_name {
            Some(name) => name,
            None => self.file_name,
        }
    }

    /// The state once `text` is written.
    pub open spec fn wrote(self, text: Seq<char>) -> EmitterModel {
        EmitterModel { out: self.out + text, ..self }
    }

    /// The state once `lines` are written.
    pub open spec fn emitted(self, lines: Seq<Line>) -> EmitterModel {
        self.wrote(render(lines))
    }

    /// The state once a new file is begun: no function is current.
    pub open spec fn with_file(self, name: Seq<char>) -> EmitterModel {
        EmitterModel { file_name: name, func_name: None, ..self }
    }

    /// The state once a new function is begun.
    pub open spec fn with_function(self, name: Seq<char>) -> EmitterModel {
        EmitterModel { func_name: Some(name), ..self }
    }

    /// The state after a comparison: its labels take the number of the
    /// comparisons before it, in the current scope.
    pub open spec fn compared(self, name: Seq<char>, jump: JumpToken) -> EmitterModel {
        EmitterModel {
            bool_count: self.bool_count + 1,
            ..self.emitted(comparison_lines(self.label_prefix(), name, jump, self.bool_count))
        }
    }

    /// The state after a call: its return label takes the number of the
    /// calls before it.
    pub open spec fn called(self, function: Seq<char>, n_args: nat) -> EmitterModel {
        EmitterModel {
            ret_count: self.ret_count + 1,
            ..self.emitted(call_lines(function, n_args, self.ret_count))
        }
    }

    /// The state after the bootstrap sequence: the stack pointer is set,
    /// and `Sys.init` is called as any function is.
    pub open spec fn bootstrapped(self) -> EmitterModel {
        self.emitted(bootstrap_lines()).called("Sys.init"@, 0)
    }
}

/// The emission engine.
pub struct Emitter {
    out: String,
    file_name: String,
    func_name: Option<String>,
    ret_count: usize,
    bool_count: usize,
}

impl View for Emitter {
    type V = EmitterModel;

    closed spec fn view(&self) -> EmitterModel {
        EmitterModel {
            out: self.out@,
            file_name: self.file_name@,
            func_name: match self.func_name {
                Some(name) => Some(name@),
                None => None,
            },
            ret_count: self.ret_count as nat,
            bool_count: self.bool_count as nat,
        }
    }
}

impl Emitter {
    /// An engine that has written nothing. Until a file is named, the file
    /// name is `Bootstrap`.
    pub fn new() -> (emitter: Emitter)
        ensures
            emitter@ == EmitterModel::initial(),
    {
        Emitter {
            out: String::new(),
            file_name: String::from_str("Bootstrap"),
            func_name: None,
            ret_count: 0,
            bool_count: 0,
        }
    }

    /// Begins a new source file: its name is the scope from now on, and no
    /// function is current.
    pub fn set_file_name(&mut self, file_name: String)
        ensures
            final(self)@ == old(self)@.with_file(file_name@),
    {
        self.file_name = file_name;
        self.func_name = None;
    }

    /// Begins a new function: its name is the scope of the labels from now
    /// on.
    pub fn set_func_name(&mut self, func_name: String)
        ensures
            final(self)@ == old(self)@.with_function(func_name@),
    {
        self.func_name = Some(func_name);
    }

    /// The text written so far.
    pub fn output(&self) -> (text: &str)
        ensures
            text@ == self@.out,
    {
        self.out.as_str()
    }

    /// The text written, when nothing more is to be written.
    pub fn into_output(self) -> (text: String)
        ensures
            text@ == self@.out,
    {
        self.out
    }

    /// The number of calls emitted so far.
    pub fn ret_count(&self) -> (count: usize)
        ensures
            count == self@.ret_count,
    {
        self.ret_count
    }

    /// The number of comparisons emitted so far.
    pub fn bool_count(&self) -> (count: usize)
        ensures
            count == self@.bool_count,
    {
        self.bool_count
    }

    /// The scope of labels: the function if there is one, else the file.
    fn label_prefix(&self) -> (prefix: String)
        ensures
            prefix@ == self@.label_prefix(),
    {
        match &self.func_name {
            Some(func_name) => func_name.clone(),
            None => self.file_name.clone(),
        }
    }

    /// The name of the segment whose base pointer lives at `segment_addr`.
    fn segment_addr_to_name(segment_addr: usize) -> (name: &'static str)
        ensures
            name@ == segment_name(segment_addr as nat),
    {
        if segment_addr == ARG {
            "argument"
        } else if segment_addr == LCL {
            "local"
        } else if segment_addr == THAT {
            "that"
        } else if segment_addr == THIS {
            "this"
        } else {
            "unknown"
        }
    }

    /// Writes the text as it is.
    pub fn write(&mut self, content: String)
        ensures
            final(self)@ == old(self)@.wrote(content@),
    {
        self.out.append(content.as_str());
    }

    /// Writes the text and ends the line.
    pub fn writeln(&mut self, content: &str)
        ensures
            final(self)@ == old(self)@.wrote(content@ + "\n"@),
    {
        self.out.append(content);
        self.out.append("\n");
        assert(self.out@ =~= old(self).out@ + (content@ + "\n"@));
    }

    /// Writes what comes before the first source file: the stack pointer
    /// is set, and `Sys.init` is called.
    pub fn emit_bootstrap(&mut self)
        requires
            old(self)@.ret_count < usize::MAX,
        ensures
            final(self)@ == old(self)@.bootstrapped(),
    {
        let mut block = Block::new();
        block.blank();
        block.comment("Bootstrap");
        block.at_number(256, "");
        block.store(DestToken::D, CompToken::A);
        block.at_symbol("SP", "");
        block.store(DestToken::M, CompToken::D);
        assert(block.lines() =~= bootstrap_lines());
        self.write(block.into_text());
        self.emit_call(String::from_str("Sys.init"), 0);
    }

    /// A command that combines the two topmost values.
    fn emit_binary(&mut self, name: &str, comp: CompToken)
        ensures
            final(self)@ == old(self)@.emitted(binary_lines(name@, comp)),
    {
        let mut block = Block::new();
        block.blank();
        block.comment(name);
        block.at_number(SP, "");
        block.store(DestToken::AM, CompToken::SubM1);
        block.store(DestToken::D, CompToken::M);
        block.at_number(SP, "");
        block.store(DestToken::A, CompToken::SubM1);
        block.store(DestToken::M, comp);
        assert(block.lines() =~= binary_lines(name@, comp));
        self.write(block.into_text());
    }

    /// A command that changes the top in place.
    fn emit_unary(&mut self, name: &str, comp: CompToken)
        ensures
            final(self)@ == old(self)@.emitted(unary_lines(name@, comp)),
    {
        let mut block = Block::new();
        block.blank();
        block.comment(name);
        block.at_number(SP, "");
        block.store(DestToken::A, CompToken::SubM1);
        block.store(DestToken::M, comp);
        assert(block.lines() =~= unary_lines(name@, comp));
        self.write(block.into_text());
    }

    /// A comparison, with the labels of its two branches numbered by the
    /// comparisons before it.
    fn emit_comparison(&mut self, name: &str, jump: JumpToken)
        requires
            old(self)@.bool_count < usize::MAX,
        ensures
            final(self)@ == old(self)@.compared(name@, jump),
    {
        let bool_id = self.bool_count;
        self.bool_count = self.bool_count + 1;
        let label_prefix = self.label_prefix();

        let mut on_true = label_prefix.clone();
        on_true.append("-");
        on_true.append(name);
        on_true.append("-true.");
        push_decimal(&mut on_true, bool_id);
        assert(on_true@ =~= true_label(label_prefix@, name@, bool_id as nat));
        let mut done = label_prefix;
        done.append("-");
        done.append(name);
        done.append("-done.");
        push_decimal(&mut done, bool_id);
        assert(done@ =~= done_label(label_prefix@, name@, bool_id as nat));

        let mut block = Block::new();
        block.blank();
        block.comment(name);
        block.at_number(SP, "");
        block.store(DestToken::AM, CompToken::SubM1);
        block.store(DestToken::D, CompToken::M);
        block.at_number(SP, "");
        block.store(DestToken::A, CompToken::SubM1);
        block.store(DestToken::D, CompToken::SubMD);
        block.at_symbol(on_true.as_str(), "");
        block.compute(DestToken::Empty, CompToken::D, jump, "");
        block.at_symbol(done.as_str(), "");
        block.compute(DestToken::D, CompToken::Zero, JumpToken::JMP, " // false");
        block.label(on_true.as_str(), "");
        block.compute(DestToken::D, CompToken::Negate1, JumpToken::Empty, "    // true");
        block.label(done.as_str(), "");
        block.at_number(SP, "");
        block.store(DestToken::A, CompToken::SubM1);
        block.store(DestToken::M, CompToken::D);
        assert(block.lines() =~= comparison_lines(
            old(self)@.label_prefix(),
            name@,
            jump,
            bool_id as nat,
        ));
        self.write(block.into_text());
    }

    /// `add`: the sum of the two topmost values takes their place.
    pub fn emit_add(&mut self)
        ensures
            final(self)@ == old(self)@.emitted(binary_lines("add"@, CompToken::AddDM)),
    {
        self.emit_binary("add", CompToken::AddDM);
    }

    /// `and`: the bitwise and of the two topmost values takes their place.
    pub fn emit_and(&mut self)
        ensures
            final(self)@ == old(self)@.emitted(binary_lines("and"@, CompToken::AndDM)),
    {
        self.emit_binary("and", CompToken::AndDM);
    }

    /// `eq`: whether the two topmost values are equal takes their place.
    pub fn emit_eq(&mut self)
        requires
            old(self)@.bool_count < usize::MAX,
        ensures
            final(self)@ == old(self)@.compared("eq"@, JumpToken::JEQ),
    {
        self.emit_comparison("eq", JumpToken::JEQ);
    }

    /// `gt`: whether the value below the top is greater than the top takes
    /// their place.
    pub fn emit_gt(&mut self)
        requires
            old(self)@.bool_count < usize::MAX,
        ensures
            final(self)@ == old(self)@.compared("gt"@, JumpToken::JGT),
    {
        self.emit_comparison("gt", JumpToken::JGT);
    }

    /// `lt`: whether the value below the top is less than the top takes
    /// their place.
    pub fn emit_lt(&mut self)
        requires
            old(self)@.bool_count < usize::MAX,
        ensures
            final(self)@ == old(self)@.compared("lt"@, JumpToken::JLT),
    {
        self.emit_comparison("lt", JumpToken::JLT);
    }

    /// `neg`: the top is negated in place.
    pub fn emit_neg(&mut self)
        ensures
            final(self)@ == old(self)@.emitted(unary_lines("neg"@, CompToken::NegateM)),
    {
        self.emit_unary("neg", CompToken::NegateM);
    }

    /// `not`: the bits of the top are inverted in place.
    pub fn emit_not(&mut self)
        ensures
            final(self)@ == old(self)@.emitted(unary_lines("not"@, CompToken::InvertM)),
    {
        self.emit_unary("not", CompToken::InvertM);
    }

    /// `or`: the bitwise or of the two topmost values takes their place.
    pub fn emit_or(&mut self)
        ensures
            final(self)@ == old(self)@.emitted(binary_lines("or"@, CompToken::OrDM)),
    {
        self.emit_binary("or", CompToken::OrDM);
    }

    /// `sub`: the value below the top less the top takes their place.
    pub fn emit_sub(&mut self)
        ensures
            final(self)@ == old(self)@.emitted(binary_lines("sub"@, CompToken::SubMD)),
    {
        self.emit_binary("sub", CompToken::SubMD);
    }

    /// Pushes `D`: the five lines that every push ends with.
    fn push_d(block: &mut Block, last: DestToken)
        requires
            old(block).wf(),
        ensures
            final(block).wf(),
            final(block).lines() == old(block).lines().push(at(SP as nat)).push(
                store(DestToken::A, CompToken::M),
            ).push(store(DestToken::M, CompToken::D)).push(at(SP as nat)).push(
                store(last, CompToken::AddM1),
            ),
    {
        block.at_number(SP, "");
        block.store(DestToken::A, CompToken::M);
        block.store(DestToken::M, CompToken::D);
        block.at_number(SP, "");
        block.store(last, CompToken::AddM1);
    }

    /// `call`: the frame is saved, the base pointers are set for the
    /// function, and the function is jumped to. The label to return to is
    /// numbered by the calls before this one.
    #[verifier::rlimit(30)]
    pub fn emit_call(&mut self, function_name: String, n_args: usize)
        requires
            old(self)@.ret_count < usize::MAX,
            n_args + FRAME <= usize::MAX,
        ensures
            final(self)@ == old(self)@.called(function_name@, n_args as nat),
    {
        let args_offset = n_args + FRAME;
        let ret_id = self.ret_count;
        self.ret_count = self.ret_count + 1;

        let mut comment = String::from_str("call ");
        comment.append(function_name.as_str());
        comment.append(" ");
        push_decimal(&mut comment, n_args);
        assert(comment@ =~= "call "@ + function_name@ + " "@ + decimal(n_args as nat));
        let mut ret = function_name.clone();
        ret.append("$ret.");
        push_decimal(&mut ret, ret_id);
        assert(ret@ =~= return_label(function_name@, ret_id as nat));

        let mut block = Block::new();
        block.blank();
        block.comment(comment.as_str());
        block.at_symbol(ret.as_str(), "    // push the return addr onto the stack");
        block.store(DestToken::D, CompToken::A);
        Self::push_d(&mut block, DestToken::M);
        block.at_number(LCL, "   // push the LCL value onto the stack");
        block.store(DestToken::D, CompToken::M);
        Self::push_d(&mut block, DestToken::M);
        block.at_number(ARG, "   // push the ARG value onto the stack");
        block.store(DestToken::D, CompToken::M);
        Self::push_d(&mut block, DestToken::M);
        block.at_number(THIS, "  // push the THIS value onto the stack");
        block.store(DestToken::D, CompToken::M);
        Self::push_d(&mut block, DestToken::M);
        block.at_number(THAT, "  // push the THAT value onto the stack");
        block.store(DestToken::D, CompToken::M);
        Self::push_d(&mut block, DestToken::MD);
        block.at_number(args_offset, " // Re-position ARG");
        block.store(DestToken::D, CompToken::SubDA);
        block.at_number(ARG, "");
        block.store(DestToken::M, CompToken::D);
        block.at_number(SP, "    // set LCL=SP");
        block.compute(DestToken::D, CompToken::M, JumpToken::Empty, " ");
        block.at_number(LCL, "");
        block.store(DestToken::M, CompToken::D);
        block.at_symbol(function_name.as_str(), "");
        block.compute(DestToken::Empty, CompToken::Zero, JumpToken::JMP, "");
        block.label(ret.as_str(), "");
        assert(block.lines() =~= call_lines(function_name@, n_args as nat, ret_id as nat));
        self.write(block.into_text());
    }

    /// Restores one base pointer from the frame: the five lines that step
    /// `LCL` down by one and copy the cell it then points to.
    fn restore(block: &mut Block, target: usize, note: &str)
        requires
            old(block).wf(),
        ensures
            final(block).wf(),
            final(block).lines() == old(block).lines().push(at_noted(LCL as nat, note@)).push(
                store(DestToken::AM, CompToken::SubM1),
            ).push(store(DestToken::D, CompToken::M)).push(at(target as nat)).push(
                store(DestToken::M, CompToken::D),
            ),
    {
        block.at_number(LCL, note);
        block.store(DestToken::AM, CompToken::SubM1);
        block.store(DestToken::D, CompToken::M);
        block.at_number(target, "");
        block.store(DestToken::M, CompToken::D);
    }

    /// `return`: the value on top goes to the caller, the frame is taken
    /// down, and the caller is jumped back to.
    pub fn emit_return(&mut self)
        ensures
            final(self)@ == old(self)@.emitted(return_lines()),
    {
        let mut block = Block::new();
        block.blank();
        block.comment("return");
        block.at_number(LCL, "    // copy the return address to R13: *(RAM[LCL] - 5)");
        block.store(DestToken::D, CompToken::M);
        block.at_number(FRAME, "");
        block.store(DestToken::A, CompToken::SubDA);
        block.store(DestToken::D, CompToken::M);
        block.at_symbol("R13", "");
        block.store(DestToken::M, CompToken::D);
        block.at_number(SP, "     // pop the return value into arg 0");
        block.store(DestToken::AM, CompToken::SubM1);
        block.store(DestToken::D, CompToken::M);
        block.at_number(ARG, "");
        block.store(DestToken::A, CompToken::M);
        block.store(DestToken::M, CompToken::D);
        block.compute(
            DestToken::D,
            CompToken::AddA1,
            JumpToken::Empty,
            "     // move the stack pointer to arg + 1",
        );
        block.at_number(SP, "");
        block.store(DestToken::M, CompToken::D);
        Self::restore(
            &mut block,
            THAT,
            "    // restore the caller's THAT address: *(RAM[LCL] - 1)",
        );
        Self::restore(
            &mut block,
            THIS,
            "    // restore the callers' THIS address: *(RAM[LCL] - 2)",
        );
        Self::restore(
            &mut block,
            ARG,
            "    // restore the callers'  ARG address: *(RAM[LCL] - 3)",
        );
        Self::restore(
            &mut block,
            LCL,
            "    // restore the callers'  LCL address: *(RAM[LCL] - 4)",
        );
        block.at_symbol("R13", "      // jump to the return address");
        block.compute(DestToken::A, CompToken::M, JumpToken::JMP, "");
        assert(block.lines() =~= return_lines());
        self.write(block.into_text());
    }

    /// `function`: the label of the function, which is not scoped, and its
    /// local variables at zero. The function is the scope of the labels from
    /// now on.
    pub fn emit_function(&mut self, name: String, n_vars: usize)
        ensures
            final(self)@ == old(self)@.emitted(
                function_lines(name@, n_vars as nat),
            ).with_function(name@),
    {
        let mut comment = String::from_str("function ");
        comment.append(name.as_str());
        comment.append(" ");
        push_decimal(&mut comment, n_vars);
        assert(comment@ =~= "function "@ + name@ + " "@ + decimal(n_vars as nat));

        let mut block = Block::new();
        block.blank();
        block.comment(comment.as_str());
        block.label(name.as_str(), "");

        // initialize the local variables to 0
        if n_vars > 0 {
            block.at_number(SP, "");
            block.store(DestToken::A, CompToken::M);
            let ghost entry = block.lines();
            let mut i: usize = 0;
            while i < n_vars
                invariant
                    i <= n_vars,
                    block.wf(),
                    block.lines() == entry + zero_lines(i as nat),
                decreases n_vars - i,
            {
                block.store(DestToken::M, CompToken::Zero);
                block.store(DestToken::A, CompToken::AddA1);
                i = i + 1;
                assert(block.lines() =~= entry + zero_lines(i as nat));
            }
            block.store(DestToken::D, CompToken::A);
            block.at_number(SP, "");
            block.store(DestToken::M, CompToken::D);
        }
        assert(block.lines() =~= function_lines(name@, n_vars as nat));
        self.write(block.into_text());
        self.set_func_name(name);
    }

    /// The full name of a label of the source, in the current scope.
    fn scoped(&self, label_name: &str) -> (name: String)
        ensures
            name@ == scoped_label(self@.label_prefix(), label_name@),
    {
        let mut name = self.label_prefix();
        name.append("$");
        name.append(label_name);
        assert(name@ =~= scoped_label(self@.label_prefix(), label_name@));
        name
    }

    /// `goto`: a jump to the label of this name in the current scope.
    pub fn emit_goto(&mut self, label_name: String)
        ensures
            final(self)@ == old(self)@.emitted(
                goto_lines(old(self)@.label_prefix(), label_name@),
            ),
    {
        let target = self.scoped(label_name.as_str());
        let mut comment = String::from_str("goto ");
        comment.append(label_name.as_str());

        let mut block = Block::new();
        block.blank();
        block.comment(comment.as_str());
        block.at_symbol(target.as_str(), " ");
        block.compute(DestToken::Empty, CompToken::Zero, JumpToken::JMP, "");
        assert(block.lines() =~= goto_lines(old(self)@.label_prefix(), label_name@));
        self.write(block.into_text());
    }

    /// `if-goto`: the top is popped, and if it is not zero the label of
    /// this name in the current scope is jumped to.
    pub fn emit_ifgoto(&mut self, label_name: String)
        ensures
            final(self)@ == old(self)@.emitted(
                ifgoto_lines(old(self)@.label_prefix(), label_name@),
            ),
    {
        let target = self.scoped(label_name.as_str());
        let mut comment = String::from_str("if-goto ");
        comment.append(label_name.as_str());

        let mut block = Block::new();
        block.blank();
        block.comment(comment.as_str());
        block.at_number(SP, "");
        block.store(DestToken::AM, CompToken::SubM1);
        block.store(DestToken::D, CompToken::M);
        block.at_symbol(target.as_str(), " ");
        block.compute(DestToken::Empty, CompToken::D, JumpToken::JNE, "");
        assert(block.lines() =~= ifgoto_lines(old(self)@.label_prefix(), label_name@));
        self.write(block.into_text());
    }

    /// `label`: the label of this name in the current scope is defined.
    pub fn emit_label(&mut self, label_name: String)
        ensures
            final(self)@ == old(self)@.emitted(
                label_lines(old(self)@.label_prefix(), label_name@),
            ),
    {
        let target = self.scoped(label_name.as_str());
        let mut comment = String::from_str("label ");
        comment.append(label_name.as_str());

        let mut block = Block::new();
        block.blank();
        block.comment(comment.as_str());
        block.label(target.as_str(), " ");
        assert(block.lines() =~= label_lines(old(self)@.label_prefix(), label_name@));
        self.write(block.into_text());
    }

    /// The comment of a command of a word and a number.
    fn numbered(words: &str, number: usize) -> (comment: String)
        ensures
            comment@ == words@ + decimal(number as nat),
    {
        let mut comment = String::from_str(words);
        push_decimal(&mut comment, number);
        comment
    }

    /// `push constant`: the number itself is pushed.
    pub fn emit_constant_push(&mut self, number: usize)
        ensures
            final(self)@ == old(self)@.emitted(constant_push_lines(number as nat)),
    {
        let comment = Self::numbered("push constant ", number);
        let mut block = Block::new();
        block.blank();
        block.comment(comment.as_str());
        block.at_number(number, "");
        block.store(DestToken::D, CompToken::A);
        Self::push_d(&mut block, DestToken::M);
        assert(block.lines() =~= constant_push_lines(number as nat));
        self.write(block.into_text());
    }

    /// A push of the cell at a fixed address.
    fn emit_direct_push(&mut self, comment: &str, addr: usize)
        ensures
            final(self)@ == old(self)@.emitted(
                direct_push_lines(Line::Comment(comment@), addr as nat),
            ),
    {
        let mut block = Block::new();
        block.blank();
        block.comment(comment);
        block.at_number(addr, "");
        block.store(DestToken::D, CompToken::M);
        Self::push_d(&mut block, DestToken::M);
        assert(block.lines() =~= direct_push_lines(Line::Comment(comment@), addr as nat));
        self.write(block.into_text());
    }

    /// A pop into the cell at a fixed address.
    fn emit_direct_pop(&mut self, comment: &str, addr: usize)
        ensures
            final(self)@ == old(self)@.emitted(
                direct_pop_lines(Line::Comment(comment@), addr as nat),
            ),
    {
        let mut block = Block::new();
        block.blank();
        block.comment(comment);
        block.at_number(SP, "");
        block.store(DestToken::AM, CompToken::SubM1);
        block.store(DestToken::D, CompToken::M);
        block.at_number(addr, "");
        block.store(DestToken::M, CompToken::D);
        assert(block.lines() =~= direct_pop_lines(Line::Comment(comment@), addr as nat));
        self.write(block.into_text());
    }

    /// `push pointer`: the base pointer at `segment_addr` is pushed.
    pub fn emit_pointer_push(&mut self, number: usize, segment_addr: usize)
        ensures
            final(self)@ == old(self)@.emitted(
                pointer_push_lines(number as nat, segment_addr as nat),
            ),
    {
        let comment = Self::numbered("push pointer ", number);
        self.emit_direct_push(comment.as_str(), segment_addr);
    }

    /// `pop pointer`: the top is popped into the base pointer at
    /// `segment_addr`.
    pub fn emit_pointer_pop(&mut self, number: usize, segment_addr: usize)
        ensures
            final(self)@ == old(self)@.emitted(
                pointer_pop_lines(number as nat, segment_addr as nat),
            ),
    {
        let comment = Self::numbered("pop pointer ", number);
        self.emit_direct_pop(comment.as_str(), segment_addr);
    }

    /// `push` from a segment with a base pointer at `segment_addr`.
    pub fn emit_segment_push(&mut self, number: usize, segment_addr: usize)
        ensures
            final(self)@ == old(self)@.emitted(
                segment_push_lines(number as nat, segment_addr as nat),
            ),
    {
        let segment_name = Self::segment_addr_to_name(segment_addr);
        let mut comment = String::from_str("push ");
        comment.append(segment_name);
        comment.append(" ");
        push_decimal(&mut comment, number);
        assert(comment@ =~= "push "@ + segment_name@ + " "@ + decimal(number as nat));

        let mut block = Block::new();
        block.blank();
        block.comment(comment.as_str());
        block.at_number(segment_addr, "");
        block.store(DestToken::D, CompToken::M);
        block.at_number(number, "");
        block.store(DestToken::A, CompToken::AddDA);
        block.store(DestToken::D, CompToken::M);
        Self::push_d(&mut block, DestToken::M);
        assert(block.lines() =~= segment_push_lines(number as nat, segment_addr as nat));
        self.write(block.into_text());
    }

    /// `pop` into a segment with a base pointer at `segment_addr`.
    pub fn emit_segment_pop(&mut self, number: usize, segment_addr: usize)
        ensures
            final(self)@ == old(self)@.emitted(
                segment_pop_lines(number as nat, segment_addr as nat),
            ),
    {
        let segment_name = Self::segment_addr_to_name(segment_addr);
        let mut comment = String::from_str("pop ");
        comment.append(segment_name);
        comment.append(" ");
        push_decimal(&mut comment, number);
        assert(comment@ =~= "pop "@ + segment_name@ + " "@ + decimal(number as nat));

        let mut block = Block::new();
        block.blank();
        block.comment(comment.as_str());
        block.at_number(number, "");
        block.store(DestToken::D, CompToken::A);
        block.at_number(segment_addr, "");
        block.store(DestToken::D, CompToken::AddDM);
        block.at_symbol("R13", "");
        block.store(DestToken::M, CompToken::D);
        block.at_number(SP, "");
        block.store(DestToken::AM, CompToken::SubM1);
        block.store(DestToken::D, CompToken::M);
        block.at_symbol("R13", "");
        block.store(DestToken::A, CompToken::M);
        block.store(DestToken::M, CompToken::D);
        assert(block.lines() =~= segment_pop_lines(number as nat, segment_addr as nat));
        self.write(block.into_text());
    }

    /// The name of a static variable of the current file.
    fn static_name(&self, number: usize) -> (name: String)
        ensures
            name@ == static_symbol(self@.file_name, number as nat),
    {
        let mut name = self.file_name.clone();
        name.append(".");
        push_decimal(&mut name, number);
        assert(name@ =~= static_symbol(self@.file_name, number as nat));
        name
    }

    /// `push static`: the variable of this number of the current file is
    /// pushed.
    pub fn emit_static_push(&mut self, number: usize)
        ensures
            final(self)@ == old(self)@.emitted(
                static_push_lines(old(self)@.file_name, number as nat),
            ),
    {
        let comment = Self::numbered("push static ", number);
        let cell = self.static_name(number);
        let mut block = Block::new();
        block.comment(comment.as_str());
        block.at_symbol(cell.as_str(), "");
        block.store(DestToken::D, CompToken::M);
        Self::push_d(&mut block, DestToken::M);
        assert(block.lines() =~= static_push_lines(old(self)@.file_name, number as nat));
        self.write(block.into_text());
    }

    /// `pop static`: the top is popped into the variable of this number of
    /// the current file.
    pub fn emit_static_pop(&mut self, number: usize)
        ensures
            final(self)@ == old(self)@.emitted(
                static_pop_lines(old(self)@.file_name, number as nat),
            ),
    {
        let comment = Self::numbered("pop static ", number);
        let cell = self.static_name(number);
        let mut block = Block::new();
        block.comment(comment.as_str());
        block.at_number(SP, "");
        block.store(DestToken::AM, CompToken::SubM1);
        block.store(DestToken::D, CompToken::M);
        block.at_symbol(cell.as_str(), "");
        block.store(DestToken::M, CompToken::D);
        assert(block.lines() =~= static_pop_lines(old(self)@.file_name, number as nat));
        self.write(block.into_text());
    }

    /// `push temp`: the cell of this number behind the first `temp` cell is
    /// pushed.
    pub fn emit_temp_push(&mut self, number: usize)
        requires
            TEMP + number <= usize::MAX,
        ensures
            final(self)@ == old(self)@.emitted(temp_push_lines(number as nat)),
    {
        let temp_addr = TEMP + number;
        let comment = Self::numbered("push temp ", number);
        self.emit_direct_push(comment.as_str(), temp_addr);
    }

    /// `pop temp`: the top is popped into the cell of this number behind
    /// the first `temp` cell.
    pub fn emit_temp_pop(&mut self, number: usize)
        requires
            TEMP + number <= usize::MAX,
        ensures
            final(self)@ == old(self)@.emitted(temp_pop_lines(number as nat)),
    {
        let temp_addr = TEMP + number;
        let comment = Self::numbered("pop temp ", number);
        self.emit_direct_pop(comment.as_str(), temp_addr);
    }
}

} // verus!
