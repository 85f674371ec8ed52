//! What a translation has written is the text of a listing, and where the
//! names of the source are names that the assembler can read, the assembler
//! reads the listing back: it makes of the text the program that the laws
//! on the emitted code speak of.

use crate::assembler::parser::{assembled, predefined, Gathered, LAST_REGISTER};
use crate::assembler::reading::{
    all_readable, holds_text, is_name, is_name_char, is_note, labels_are_new,
    lemma_assembles_listing, note_from, numbers_of, readable, resolved, symbol_table,
};
use crate::listing::{at, label, lemma_render_concat, render, store, Line};
use crate::numeral::{decimal, is_decimal_digit, lemma_decimal_digits};
use crate::translator::emitter::{
    binary_lines, bootstrap_lines, call_lines, comparison_lines, done_label, function_lines,
    goto_lines, ifgoto_lines, label_lines, return_label, return_lines, scoped_label,
    segment_name, static_symbol, true_label, unary_lines, zero_lines, EmitterModel, ARG, FRAME,
    LCL, SP, TEMP, THAT, THIS,
};
use crate::translator::naming::Event;
use crate::machine::{code, Machine, Program};
use crate::translator::lexer::{tokenize, without_carriage_returns};
use crate::translator::parser::{
    command_at, lemma_step_advances, pop_lines, push_lines, step, token_or_end, translated,
    translated_units, translation, Command, SourceUnitModel, Step,
};
use crate::translator::tokens::{TokenKind, TokenModel};
use crate::instruction::{CompToken, DestToken, JumpToken};
use vstd::prelude::*;

verus! {

/// The lines that the engine writes for the command when it is in `state`.
pub open spec fn command_lines(state: EmitterModel, command: Command) -> Seq<Line> {
    match command {
        Command::Add => binary_lines("add"@, CompToken::AddDM),
        Command::And => binary_lines("and"@, CompToken::AndDM),
        Command::Or => binary_lines("or"@, CompToken::OrDM),
        Command::Sub => binary_lines("sub"@, CompToken::SubMD),
        Command::Neg => unary_lines("neg"@, CompToken::NegateM),
        Command::Not => unary_lines("not"@, CompToken::InvertM),
        Command::Eq => comparison_lines(
            state.label_prefix(),
            "eq"@,
            JumpToken::JEQ,
            state.bool_count,
        ),
        Command::Gt => comparison_lines(
            state.label_prefix(),
            "gt"@,
            JumpToken::JGT,
            state.bool_count,
        ),
        Command::Lt => comparison_lines(
            state.label_prefix(),
            "lt"@,
            JumpToken::JLT,
            state.bool_count,
        ),
        Command::Push { segment, number } => push_lines(segment, number, state.file_name),
        Command::Pop { segment, number } => pop_lines(segment, number, state.file_name),
        Command::Label { name } => label_lines(state.label_prefix(), name),
        Command::Goto { name } => goto_lines(state.label_prefix(), name),
        Command::IfGoto { name } => ifgoto_lines(state.label_prefix(), name),
        Command::Function { name, n_vars } => function_lines(name, n_vars),
        Command::Call { name, n_args } => call_lines(name, n_args, state.ret_count),
        Command::Return => return_lines(),
    }
}

/// The lines that the engine writes at the event when it is in `state`.
pub open spec fn event_lines(state: EmitterModel, event: Event) -> Seq<Line> {
    match event {
        Event::Enter { .. } => Seq::empty(),
        Event::Begin => bootstrap_lines(),
        Event::Emit { command } => command_lines(state, command),
    }
}

/// The lines that the engine writes in a run that begins in `state`.
pub open spec fn run_lines(state: EmitterModel, events: Seq<Event>) -> Seq<Line>
    decreases events.len(),
{
    if events.len() == 0 {
        Seq::empty()
    } else {
        run_lines(state, events.drop_last()) + event_lines(
            state.after_all(events.drop_last()),
            events.last(),
        )
    }
}

/// At each event the engine writes the text of the lines of the event.
pub proof fn lemma_event_text(state: EmitterModel, event: Event)
    ensures
        state.after(event).out == state.out + render(event_lines(state, event)),
{
    match event {
        Event::Enter { .. } => {
            assert(state.out + render(Seq::<Line>::empty()) =~= state.out);
        },
        _ => {},
    }
}

/// What a run has written is the text of a listing: the lines of its
/// events, one event after the other.
pub proof fn lemma_run_text(state: EmitterModel, events: Seq<Event>)
    ensures
        state.after_all(events).out == state.out + render(run_lines(state, events)),
    decreases events.len(),
{
    if events.len() == 0 {
        assert(state.out + render(Seq::<Line>::empty()) =~= state.out);
    } else {
        let before = state.after_all(events.drop_last());
        lemma_run_text(state, events.drop_last());
        lemma_event_text(before, events.last());
        lemma_render_concat(
            run_lines(state, events.drop_last()),
            event_lines(before, events.last()),
        );
        assert(state.out + render(run_lines(state, events.drop_last())) + render(
            event_lines(before, events.last()),
        ) =~= state.out + (render(run_lines(state, events.drop_last())) + render(
            event_lines(before, events.last()),
        )));
    }
}

/// The command that the step at `pos` emits when the engine is in `state`,
/// if it emits one: a command that is recognised and can get the labels
/// it needs.
pub open spec fn emitted_at(tokens: Seq<TokenModel>, pos: int, state: EmitterModel) -> Option<
    Command,
> {
    let kind = token_or_end(tokens, pos).kind;
    if pos < 0 || kind == TokenKind::EndOfFile || kind == TokenKind::Comment || kind
        == TokenKind::EndOfLine {
        None
    } else {
        match command_at(tokens, pos) {
            Ok(command) => if state.exhausted_by(command) {
                None
            } else {
                Some(command)
            },
            Err(_) => None,
        }
    }
}

/// The events of the step at `pos`: the command it emits, or nothing.
pub open spec fn step_events(tokens: Seq<TokenModel>, pos: int, state: EmitterModel) -> Seq<Event> {
    match emitted_at(tokens, pos, state) {
        Some(command) => seq![Event::Emit { command }],
        None => Seq::empty(),
    }
}

/// The commands that a translation emits from `pos` on when the engine is
/// in `state`, as the events of a run.
pub open spec fn translated_events(
    tokens: Seq<TokenModel>,
    pos: int,
    state: EmitterModel,
) -> Seq<Event>
    decreases tokens.len() - pos,
    via translated_events_decreases
{
    match step(tokens, pos, state) {
        Step::Stop(_) => step_events(tokens, pos, state),
        Step::Next { pos: next, state: after } => step_events(tokens, pos, state)
            + translated_events(tokens, next, after),
    }
}

#[via_fn]
proof fn translated_events_decreases(tokens: Seq<TokenModel>, pos: int, state: EmitterModel) {
    lemma_step_advances(tokens, pos, state);
}

/// A step leaves the engine in the state after its events.
pub proof fn lemma_step_is_a_run(tokens: Seq<TokenModel>, pos: int, state: EmitterModel)
    ensures
        match step(tokens, pos, state) {
            Step::Stop(outcome) => outcome.state == state.after_all(
                step_events(tokens, pos, state),
            ),
            Step::Next { state: after, .. } => after == state.after_all(
                step_events(tokens, pos, state),
            ),
        },
{
    reveal(step);
    match emitted_at(tokens, pos, state) {
        Some(command) => {
            lemma_after_first(state, Event::Emit { command }, Seq::empty());
            assert(seq![Event::Emit { command }] + Seq::<Event>::empty() =~= seq![
                Event::Emit { command },
            ]);
        },
        None => {},
    }
}

/// A run of some events and then others.
pub proof fn lemma_after_both(state: EmitterModel, first: Seq<Event>, rest: Seq<Event>)
    ensures
        state.after_all(first + rest) == state.after_all(first).after_all(rest),
    decreases rest.len(),
{
    if rest.len() == 0 {
        assert(first + rest =~= first);
    } else {
        lemma_after_both(state, first, rest.drop_last());
        assert((first + rest).drop_last() =~= first + rest.drop_last());
        assert((first + rest).last() == rest.last());
    }
}

/// A run of one event and then others.
pub proof fn lemma_after_first(state: EmitterModel, first: Event, rest: Seq<Event>)
    ensures
        state.after_all(seq![first] + rest) == state.after(first).after_all(rest),
    decreases rest.len(),
{
    let all = seq![first] + rest;
    if rest.len() == 0 {
        assert(all.drop_last() =~= Seq::<Event>::empty());
        assert(state.after_all(all.drop_last()) == state);
    } else {
        lemma_after_first(state, first, rest.drop_last());
        assert(all.drop_last() =~= seq![first] + rest.drop_last());
        assert(all.last() == rest.last());
    }
}

/// A translation is a run: the state in which it leaves the engine is the
/// state after the events of its commands.
pub proof fn lemma_translation_is_a_run(tokens: Seq<TokenModel>, pos: int, state: EmitterModel)
    ensures
        translated(tokens, pos, state).state == state.after_all(
            translated_events(tokens, pos, state),
        ),
    decreases tokens.len() - pos,
{
    lemma_step_advances(tokens, pos, state);
    lemma_step_is_a_run(tokens, pos, state);
    match step(tokens, pos, state) {
        Step::Stop(_) => {},
        Step::Next { pos: next, state: after } => {
            lemma_translation_is_a_run(tokens, next, after);
            lemma_after_both(
                state,
                step_events(tokens, pos, state),
                translated_events(tokens, next, after),
            );
        },
    }
}

/// Whether the text is made of characters that names are made of.
pub open spec fn is_plain(text: Seq<char>) -> bool {
    forall|i: int| 0 <= i < text.len() ==> is_name_char(#[trigger] text[i])
}

/// Whether the text holds no line feed.
pub open spec fn is_one_line(text: Seq<char>) -> bool {
    forall|i: int| 0 <= i < text.len() ==> #[trigger] text[i] != '\n'
}

/// What the engine writes behind instructions and labels may stand there.
pub proof fn lemma_notes()
    ensures
        is_note(""@),
        is_note(" "@),
        is_note(" // false"@),
        is_note("    // true"@),
        is_note("    // push the return addr onto the stack"@),
        is_note("   // push the LCL value onto the stack"@),
        is_note("   // push the ARG value onto the stack"@),
        is_note("  // push the THIS value onto the stack"@),
        is_note("  // push the THAT value onto the stack"@),
        is_note(" // Re-position ARG"@),
        is_note("    // set LCL=SP"@),
        is_note("    // copy the return address to R13: *(RAM[LCL] - 5)"@),
        is_note("     // pop the return value into arg 0"@),
        is_note("     // move the stack pointer to arg + 1"@),
        is_note("    // restore the caller's THAT address: *(RAM[LCL] - 1)"@),
        is_note("    // restore the callers' THIS address: *(RAM[LCL] - 2)"@),
        is_note("    // restore the callers'  ARG address: *(RAM[LCL] - 3)"@),
        is_note("    // restore the callers'  LCL address: *(RAM[LCL] - 4)"@),
        is_note("      // jump to the return address"@),
{
    reveal_with_fuel(note_from, 8);
    reveal_strlit("");
    reveal_strlit(" ");
    reveal_strlit(" // false");
    reveal_strlit("    // true");
    reveal_strlit("    // push the return addr onto the stack");
    reveal_strlit("   // push the LCL value onto the stack");
    reveal_strlit("   // push the ARG value onto the stack");
    reveal_strlit("  // push the THIS value onto the stack");
    reveal_strlit("  // push the THAT value onto the stack");
    reveal_strlit(" // Re-position ARG");
    reveal_strlit("    // set LCL=SP");
    reveal_strlit("    // copy the return address to R13: *(RAM[LCL] - 5)");
    reveal_strlit("     // pop the return value into arg 0");
    reveal_strlit("     // move the stack pointer to arg + 1");
    reveal_strlit("    // restore the caller's THAT address: *(RAM[LCL] - 1)");
    reveal_strlit("    // restore the callers' THIS address: *(RAM[LCL] - 2)");
    reveal_strlit("    // restore the callers'  ARG address: *(RAM[LCL] - 3)");
    reveal_strlit("    // restore the callers'  LCL address: *(RAM[LCL] - 4)");
    reveal_strlit("      // jump to the return address");
}

/// The words of the comments of the engine hold no line feed.
pub proof fn lemma_words()
    ensures
        is_one_line("add"@),
        is_one_line("sub"@),
        is_one_line("and"@),
        is_one_line("or"@),
        is_one_line("neg"@),
        is_one_line("not"@),
        is_one_line("eq"@),
        is_one_line("gt"@),
        is_one_line("lt"@),
        is_one_line("return"@),
        is_one_line("Bootstrap"@),
        is_one_line("call "@),
        is_one_line("function "@),
        is_one_line("goto "@),
        is_one_line("if-goto "@),
        is_one_line("label "@),
        is_one_line("push constant "@),
        is_one_line("push pointer "@),
        is_one_line("pop pointer "@),
        is_one_line("push temp "@),
        is_one_line("pop temp "@),
        is_one_line("push static "@),
        is_one_line("pop static "@),
        is_one_line("push "@),
        is_one_line("pop "@),
        is_one_line(" "@),
        is_one_line("argument"@),
        is_one_line("local"@),
        is_one_line("this"@),
        is_one_line("that"@),
        is_one_line("unknown"@),
{
    reveal_strlit("add");
    reveal_strlit("sub");
    reveal_strlit("and");
    reveal_strlit("or");
    reveal_strlit("neg");
    reveal_strlit("not");
    reveal_strlit("eq");
    reveal_strlit("gt");
    reveal_strlit("lt");
    reveal_strlit("return");
    reveal_strlit("Bootstrap");
    reveal_strlit("call ");
    reveal_strlit("function ");
    reveal_strlit("goto ");
    reveal_strlit("if-goto ");
    reveal_strlit("label ");
    reveal_strlit("push constant ");
    reveal_strlit("push pointer ");
    reveal_strlit("pop pointer ");
    reveal_strlit("push temp ");
    reveal_strlit("pop temp ");
    reveal_strlit("push static ");
    reveal_strlit("pop static ");
    reveal_strlit("push ");
    reveal_strlit("pop ");
    reveal_strlit(" ");
    reveal_strlit("argument");
    reveal_strlit("local");
    reveal_strlit("this");
    reveal_strlit("that");
    reveal_strlit("unknown");
}

/// What the engine puts between the parts of a name is what names are
/// made of, and the names of its cells are names.
pub proof fn lemma_name_parts()
    ensures
        is_plain("-"@),
        is_plain("-true."@),
        is_plain("-done."@),
        is_plain("$ret."@),
        is_plain("$"@),
        is_plain("."@),
        is_plain("eq"@),
        is_plain("gt"@),
        is_plain("lt"@),
        is_name("R13"@),
        is_name("SP"@),
        is_name("Sys.init"@),
        is_name("Bootstrap"@),
{
    reveal_strlit("-");
    reveal_strlit("-true.");
    reveal_strlit("-done.");
    reveal_strlit("$ret.");
    reveal_strlit("$");
    reveal_strlit(".");
    reveal_strlit("eq");
    reveal_strlit("gt");
    reveal_strlit("lt");
    reveal_strlit("R13");
    reveal_strlit("SP");
    reveal_strlit("Sys.init");
    reveal_strlit("Bootstrap");
}

/// A name goes on as a name with what names are made of.
pub proof fn lemma_name_goes_on(name: Seq<char>, more: Seq<char>)
    requires
        is_name(name),
        is_plain(more),
    ensures
        is_name(name + more),
        is_plain(name + more),
{
    let all = name + more;
    assert(all[0] == name[0]);
    assert forall|i: int| 0 <= i < all.len() implies is_name_char(#[trigger] all[i]) by {
        if i < name.len() {
            assert(all[i] == name[i]);
        } else {
            assert(all[i] == more[i - name.len()]);
        }
    }
}

/// Texts without a line feed make a text without a line feed.
pub proof fn lemma_one_line(first: Seq<char>, second: Seq<char>)
    requires
        is_one_line(first),
        is_one_line(second),
    ensures
        is_one_line(first + second),
{
    let all = first + second;
    assert forall|i: int| 0 <= i < all.len() implies #[trigger] all[i] != '\n' by {
        if i < first.len() {
            assert(all[i] == first[i]);
        } else {
            assert(all[i] == second[i - first.len()]);
        }
    }
}

/// A numeral is made of what names are made of, and holds no line feed.
pub proof fn lemma_numeral_is_plain(n: nat)
    ensures
        is_plain(decimal(n)),
        is_one_line(decimal(n)),
{
    lemma_decimal_digits(n);
    assert forall|i: int| 0 <= i < decimal(n).len() implies is_name_char(
        #[trigger] decimal(n)[i],
    ) by {
        assert(is_decimal_digit(decimal(n)[i]));
    }
    assert forall|i: int| 0 <= i < decimal(n).len() implies #[trigger] decimal(n)[i] != '\n' by {
        assert(is_decimal_digit(decimal(n)[i]));
    }
}

/// What names are made of holds no line feed.
pub proof fn lemma_plain_is_one_line(text: Seq<char>)
    requires
        is_plain(text),
    ensures
        is_one_line(text),
{
    assert forall|i: int| 0 <= i < text.len() implies #[trigger] text[i] != '\n' by {
        assert(is_name_char(text[i]));
    }
}

/// Whether the assembler can read what the engine writes for the command
/// when it is in `state`: the names that go into symbols are names, and
/// the numbers are numbers that the assembler can count.
pub open spec fn reads_well(state: EmitterModel, command: Command) -> bool {
    match command {
        Command::Eq | Command::Gt | Command::Lt => is_name(state.label_prefix()),
        Command::Push { segment, number } | Command::Pop { segment, number } => number
            <= usize::MAX && (segment == TokenKind::Temp ==> number + TEMP <= usize::MAX) && (
        segment == TokenKind::Static ==> is_name(state.file_name)),
        Command::Label { name } | Command::Goto { name } | Command::IfGoto { name } => is_name(
            state.label_prefix(),
        ) && is_plain(name),
        Command::Function { name, n_vars } => is_name(name) && n_vars <= usize::MAX,
        Command::Call { name, n_args } => is_name(name) && n_args + FRAME <= usize::MAX,
        _ => true,
    }
}

/// The assembler can read the code of the commands of one word.
pub proof fn lemma_reads_plain(name: Seq<char>, comp: CompToken)
    requires
        is_one_line(name),
    ensures
        all_readable(binary_lines(name, comp)),
        all_readable(unary_lines(name, comp)),
        all_readable(return_lines()),
        all_readable(bootstrap_lines()),
{
    lemma_notes();
    lemma_words();
    lemma_name_parts();
    let binary = binary_lines(name, comp);
    assert forall|i: int| 0 <= i < binary.len() implies readable(#[trigger] binary[i]) by {}
    let unary = unary_lines(name, comp);
    assert forall|i: int| 0 <= i < unary.len() implies readable(#[trigger] unary[i]) by {}
    let back = return_lines();
    assert forall|i: int| 0 <= i < back.len() implies readable(#[trigger] back[i]) by {
        if i < 10 {
        } else if i < 20 {
        } else if i < 30 {
        } else {
        }
    }
    let begin = bootstrap_lines();
    assert forall|i: int| 0 <= i < begin.len() implies readable(#[trigger] begin[i]) by {}
}

/// The labels of a comparison, the label that a call returns to, the full
/// name of a label of the source and the name of a static variable are
/// names, where the scope, the function or the file is a name and the
/// label of the source is made of what names are made of.
pub proof fn lemma_made_names(scope: Seq<char>, name: Seq<char>, number: nat)
    requires
        is_name(scope),
        is_plain(name),
    ensures
        is_name(true_label(scope, name, number)),
        is_name(done_label(scope, name, number)),
        is_name(return_label(scope, number)),
        is_name(scoped_label(scope, name)),
        is_name(static_symbol(scope, number)),
{
    lemma_name_parts();
    lemma_numeral_is_plain(number);
    lemma_name_goes_on(scope, "-"@);
    lemma_name_goes_on(scope + "-"@, name);
    lemma_name_goes_on(scope + "-"@ + name, "-true."@);
    lemma_name_goes_on(scope + "-"@ + name + "-true."@, decimal(number));
    lemma_name_goes_on(scope + "-"@ + name, "-done."@);
    lemma_name_goes_on(scope + "-"@ + name + "-done."@, decimal(number));
    lemma_name_goes_on(scope, "$ret."@);
    lemma_name_goes_on(scope + "$ret."@, decimal(number));
    lemma_name_goes_on(scope, "$"@);
    lemma_name_goes_on(scope + "$"@, name);
    lemma_name_goes_on(scope, "."@);
    lemma_name_goes_on(scope + "."@, decimal(number));
}

/// The assembler can read the code of a comparison.
pub proof fn lemma_reads_comparison(prefix: Seq<char>, name: Seq<char>, jump: JumpToken, id: nat)
    requires
        is_name(prefix),
        is_plain(name),
    ensures
        all_readable(comparison_lines(prefix, name, jump, id)),
{
    lemma_notes();
    lemma_made_names(prefix, name, id);
    lemma_plain_is_one_line(name);
    let lines = comparison_lines(prefix, name, jump, id);
    assert forall|i: int| 0 <= i < lines.len() implies readable(#[trigger] lines[i]) by {}
}

/// The assembler can read the code of a call.
pub proof fn lemma_reads_call(function: Seq<char>, n_args: nat, id: nat)
    requires
        is_name(function),
        n_args + FRAME <= usize::MAX,
    ensures
        all_readable(call_lines(function, n_args, id)),
{
    lemma_notes();
    lemma_words();
    lemma_made_names(function, Seq::empty(), id);
    lemma_plain_is_one_line(function);
    lemma_numeral_is_plain(n_args);
    lemma_one_line("call "@, function);
    lemma_one_line("call "@ + function, " "@);
    lemma_one_line("call "@ + function + " "@, decimal(n_args));
    let lines = call_lines(function, n_args, id);
    assert forall|i: int| 0 <= i < lines.len() implies readable(#[trigger] lines[i]) by {
        if i < 10 {
        } else if i < 20 {
        } else if i < 30 {
        } else if i < 40 {
        } else {
        }
    }
}

/// The assembler can read the code of a function.
pub proof fn lemma_reads_function(name: Seq<char>, n_vars: nat)
    requires
        is_name(name),
    ensures
        all_readable(function_lines(name, n_vars)),
{
    lemma_notes();
    lemma_words();
    lemma_plain_is_one_line(name);
    lemma_numeral_is_plain(n_vars);
    lemma_one_line("function "@, name);
    lemma_one_line("function "@ + name, " "@);
    lemma_one_line("function "@ + name + " "@, decimal(n_vars));
    lemma_reads_zeros(n_vars);
    let lines = function_lines(name, n_vars);
    let head = seq![
        Line::Blank,
        Line::Comment("function "@ + name + " "@ + decimal(n_vars)),
        label(name),
    ];
    assert forall|i: int| 0 <= i < lines.len() implies readable(#[trigger] lines[i]) by {
        if n_vars > 0 {
            let entry = seq![at(SP as nat), store(DestToken::A, CompToken::M)];
            let exit = seq![
                store(DestToken::D, CompToken::A),
                at(SP as nat),
                store(DestToken::M, CompToken::D),
            ];
            let zeros = zero_lines(n_vars);
            assert(lines == head + entry + zeros + exit);
            if i < 3 {
                assert(lines[i] == head[i]);
            } else if i < 5 {
                assert(lines[i] == entry[i - 3]);
            } else if i < 5 + zeros.len() {
                assert(lines[i] == zeros[i - 5]);
            } else {
                assert(lines[i] == exit[i - 5 - zeros.len()]);
            }
        }
    }
}

/// The assembler can read the lines that set local variables to zero.
proof fn lemma_reads_zeros(n: nat)
    ensures
        all_readable(zero_lines(n)),
    decreases n,
{
    lemma_notes();
    if n > 0 {
        lemma_reads_zeros((n - 1) as nat);
        let lines = zero_lines(n);
        let shorter = zero_lines((n - 1) as nat);
        assert forall|i: int| 0 <= i < lines.len() implies readable(#[trigger] lines[i]) by {
            if i < shorter.len() {
                assert(lines[i] == shorter[i]);
            }
        }
    }
}

/// The assembler can read the code of a `label`, a `goto` and an
/// `if-goto`.
pub proof fn lemma_reads_branch(prefix: Seq<char>, name: Seq<char>)
    requires
        is_name(prefix),
        is_plain(name),
    ensures
        all_readable(label_lines(prefix, name)),
        all_readable(goto_lines(prefix, name)),
        all_readable(ifgoto_lines(prefix, name)),
{
    lemma_notes();
    lemma_words();
    lemma_made_names(prefix, name, 0);
    lemma_plain_is_one_line(name);
    lemma_one_line("label "@, name);
    lemma_one_line("goto "@, name);
    lemma_one_line("if-goto "@, name);
    let defined = label_lines(prefix, name);
    assert forall|i: int| 0 <= i < defined.len() implies readable(#[trigger] defined[i]) by {}
    let jump = goto_lines(prefix, name);
    assert forall|i: int| 0 <= i < jump.len() implies readable(#[trigger] jump[i]) by {}
    let branch = ifgoto_lines(prefix, name);
    assert forall|i: int| 0 <= i < branch.len() implies readable(#[trigger] branch[i]) by {}
}

/// The assembler can read the code of a `push` and of a `pop`.
pub proof fn lemma_reads_transfer(segment: TokenKind, number: nat, file: Seq<char>)
    requires
        number <= usize::MAX,
        segment == TokenKind::Temp ==> number + TEMP <= usize::MAX,
        segment == TokenKind::Static ==> is_name(file),
    ensures
        all_readable(push_lines(segment, number, file)),
        all_readable(pop_lines(segment, number, file)),
{
    lemma_notes();
    lemma_words();
    lemma_name_parts();
    lemma_numeral_is_plain(number);
    if segment == TokenKind::Static {
        lemma_made_names(file, Seq::empty(), number);
    }
    lemma_one_line("push constant "@, decimal(number));
    lemma_one_line("push pointer "@, decimal(number));
    lemma_one_line("pop pointer "@, decimal(number));
    lemma_one_line("push temp "@, decimal(number));
    lemma_one_line("pop temp "@, decimal(number));
    lemma_one_line("push static "@, decimal(number));
    lemma_one_line("pop static "@, decimal(number));
    lemma_segment_comments(number, ARG as nat);
    lemma_segment_comments(number, LCL as nat);
    lemma_segment_comments(number, THIS as nat);
    lemma_segment_comments(number, THAT as nat);
    let push = push_lines(segment, number, file);
    assert forall|i: int| 0 <= i < push.len() implies readable(#[trigger] push[i]) by {}
    let pop = pop_lines(segment, number, file);
    assert forall|i: int| 0 <= i < pop.len() implies readable(#[trigger] pop[i]) by {}
}

/// The comments of a `push` and a `pop` with a base pointer hold no line
/// feed.
proof fn lemma_segment_comments(number: nat, segment_addr: nat)
    ensures
        is_one_line("push "@ + segment_name(segment_addr) + " "@ + decimal(number)),
        is_one_line("pop "@ + segment_name(segment_addr) + " "@ + decimal(number)),
{
    lemma_words();
    lemma_numeral_is_plain(number);
    let name = segment_name(segment_addr);
    lemma_one_line("push "@, name);
    lemma_one_line("push "@ + name, " "@);
    lemma_one_line("push "@ + name + " "@, decimal(number));
    lemma_one_line("pop "@, name);
    lemma_one_line("pop "@ + name, " "@);
    lemma_one_line("pop "@ + name + " "@, decimal(number));
}

/// The assembler can read what the engine writes for a command, where the
/// names of the command and of its scope are names.
pub proof fn lemma_reads_command(state: EmitterModel, command: Command)
    requires
        reads_well(state, command),
    ensures
        all_readable(command_lines(state, command)),
{
    lemma_words();
    lemma_name_parts();
    match command {
        Command::Add => lemma_reads_plain("add"@, CompToken::AddDM),
        Command::And => lemma_reads_plain("and"@, CompToken::AndDM),
        Command::Or => lemma_reads_plain("or"@, CompToken::OrDM),
        Command::Sub => lemma_reads_plain("sub"@, CompToken::SubMD),
        Command::Neg => lemma_reads_plain("neg"@, CompToken::NegateM),
        Command::Not => lemma_reads_plain("not"@, CompToken::InvertM),
        Command::Return => lemma_reads_plain("return"@, CompToken::Zero),
        Command::Eq => lemma_reads_comparison(
            state.label_prefix(),
            "eq"@,
            JumpToken::JEQ,
            state.bool_count,
        ),
        Command::Gt => lemma_reads_comparison(
            state.label_prefix(),
            "gt"@,
            JumpToken::JGT,
            state.bool_count,
        ),
        Command::Lt => lemma_reads_comparison(
            state.label_prefix(),
            "lt"@,
            JumpToken::JLT,
            state.bool_count,
        ),
        Command::Push { segment, number } | Command::Pop { segment, number } => {
            lemma_reads_transfer(segment, number, state.file_name);
        },
        Command::Label { name } | Command::Goto { name } | Command::IfGoto { name } => {
            lemma_reads_branch(state.label_prefix(), name);
        },
        Command::Function { name, n_vars } => lemma_reads_function(name, n_vars),
        Command::Call { name, n_args } => lemma_reads_call(name, n_args, state.ret_count),
    }
}

/// The events of the translation of the files from index `from` on: each
/// file is entered, and its commands are emitted, up to the first file that
/// holds an error.
pub open spec fn units_events(
    units: Seq<SourceUnitModel>,
    from: int,
    state: EmitterModel,
) -> Seq<Event>
    decreases units.len() - from,
{
    if 0 <= from < units.len() {
        let entered = state.with_file(units[from].name);
        let tokens = tokenize(without_carriage_returns(units[from].source));
        let events = seq![Event::Enter { file_name: units[from].name }] + translated_events(
            tokens,
            0,
            entered,
        );
        let outcome = translated(tokens, 0, entered);
        if outcome.error is Some {
            events
        } else {
            events + units_events(units, from + 1, outcome.state)
        }
    } else {
        Seq::empty()
    }
}

/// The events of the translation of a program: with `bootstrap` the stack
/// pointer is set and `Sys.init` is called before the first file.
pub open spec fn translation_events(units: Seq<SourceUnitModel>, bootstrap: bool) -> Seq<Event> {
    if bootstrap {
        let begun = seq![
            Event::Begin,
            Event::Emit { command: Command::Call { name: "Sys.init"@, n_args: 0 } },
        ];
        begun + units_events(units, 0, EmitterModel::initial().after_all(begun))
    } else {
        units_events(units, 0, EmitterModel::initial())
    }
}

/// The translation of files is a run.
pub proof fn lemma_units_are_a_run(units: Seq<SourceUnitModel>, from: int, state: EmitterModel)
    requires
        0 <= from,
    ensures
        translated_units(units, from, state) matches Ok(after) ==> after == state.after_all(
            units_events(units, from, state),
        ),
    decreases units.len() - from,
{
    if from < units.len() {
        let enter = Event::Enter { file_name: units[from].name };
        let entered = state.with_file(units[from].name);
        let tokens = tokenize(without_carriage_returns(units[from].source));
        let outcome = translated(tokens, 0, entered);
        lemma_translation_is_a_run(tokens, 0, entered);
        lemma_after_first(state, enter, translated_events(tokens, 0, entered));
        if outcome.error is None {
            lemma_units_are_a_run(units, from + 1, outcome.state);
            lemma_after_both(
                state,
                seq![enter] + translated_events(tokens, 0, entered),
                units_events(units, from + 1, outcome.state),
            );
        }
    }
}

/// The text of a translation is the text of a listing: the lines of the
/// events of the translation.
pub proof fn lemma_translation_text(units: Seq<SourceUnitModel>, bootstrap: bool)
    ensures
        translation(units, bootstrap) matches Ok(text) ==> text == render(
            run_lines(EmitterModel::initial(), translation_events(units, bootstrap)),
        ),
{
    let start = EmitterModel::initial();
    let events = translation_events(units, bootstrap);
    if translation(units, bootstrap) is Ok {
        lemma_run_text(start, events);
        assert(start.out + render(run_lines(start, events)) =~= render(run_lines(start, events)));
        if bootstrap {
            let call = Event::Emit { command: Command::Call { name: "Sys.init"@, n_args: 0 } };
            let begun = seq![Event::Begin, call];
            assert(start.after_all(begun) == start.bootstrapped()) by {
                lemma_after_first(start, Event::Begin, seq![call]);
                lemma_after_first(start.after(Event::Begin), call, Seq::empty());
                assert(seq![Event::Begin] + seq![call] =~= begun);
                assert(seq![call] + Seq::<Event>::empty() =~= seq![call]);
            }
            lemma_units_are_a_run(units, 0, start.bootstrapped());
            lemma_after_both(start, begun, units_events(units, 0, start.bootstrapped()));
        } else {
            lemma_units_are_a_run(units, 0, start);
        }
    }
}

/// Whether the assembler can read what the engine writes at the event.
pub open spec fn event_reads_well(state: EmitterModel, event: Event) -> bool {
    match event {
        Event::Emit { command } => reads_well(state, command),
        _ => true,
    }
}

/// Whether the assembler can read what the engine writes at each event of
/// the run.
pub open spec fn run_reads_well(state: EmitterModel, events: Seq<Event>) -> bool
    decreases events.len(),
{
    if events.len() == 0 {
        true
    } else {
        run_reads_well(state, events.drop_last()) && event_reads_well(
            state.after_all(events.drop_last()),
            events.last(),
        )
    }
}

/// The assembler can read what a run has written, where it can read what
/// is written at each event.
pub proof fn lemma_reads_run(state: EmitterModel, events: Seq<Event>)
    requires
        run_reads_well(state, events),
    ensures
        all_readable(run_lines(state, events)),
    decreases events.len(),
{
    if events.len() > 0 {
        let before = state.after_all(events.drop_last());
        let first = run_lines(state, events.drop_last());
        let last = event_lines(before, events.last());
        lemma_reads_run(state, events.drop_last());
        match events.last() {
            Event::Emit { command } => {
                lemma_reads_command(before, command);
            },
            Event::Begin => {
                lemma_words();
                lemma_reads_plain("add"@, CompToken::AddDM);
            },
            Event::Enter { .. } => {},
        }
        assert forall|i: int| 0 <= i < (first + last).len() implies readable(
            #[trigger] (first + last)[i],
        ) by {
            if i < first.len() {
                assert((first + last)[i] == first[i]);
            } else {
                assert((first + last)[i] == last[i - first.len()]);
            }
        }
    }
}

/// Whether each name of the source is a name that the assembler can read.
pub open spec fn names_are_names(tokens: Seq<TokenModel>) -> bool {
    forall|i: int|
        0 <= i < tokens.len() && (#[trigger] tokens[i]).kind == TokenKind::Identifier ==> is_name(
            tokens[i].text,
        )
}

/// Whether the file and the function that the engine is in have names
/// that the assembler can read.
pub open spec fn scope_is_named(state: EmitterModel) -> bool {
    is_name(state.file_name) && (state.func_name matches Some(name) ==> is_name(name))
}

/// Where the names of the source and of the scope are names, the assembler
/// can read what the engine writes for the command at `pos`, and the scope
/// behind the command has names that are names.
pub proof fn lemma_source_command(tokens: Seq<TokenModel>, pos: int, state: EmitterModel)
    requires
        names_are_names(tokens),
        scope_is_named(state),
        emitted_at(tokens, pos, state) is Some,
    ensures
        reads_well(state, emitted_at(tokens, pos, state)->Some_0),
        scope_is_named(state.executed(emitted_at(tokens, pos, state)->Some_0)),
{
    let command = emitted_at(tokens, pos, state)->Some_0;
    match command {
        Command::Label { name } | Command::Goto { name } | Command::IfGoto { name } => {
            assert(tokens[pos + 1].text == name);
        },
        Command::Function { name, .. } | Command::Call { name, .. } => {
            assert(tokens[pos + 1].text == name);
        },
        _ => {},
    }
}

/// A run of one event and then others is read well where the one is, and
/// the others are behind it.
pub proof fn lemma_reads_well_first(state: EmitterModel, first: Seq<Event>, rest: Seq<Event>)
    requires
        run_reads_well(state, first),
        run_reads_well(state.after_all(first), rest),
    ensures
        run_reads_well(state, first + rest),
    decreases rest.len(),
{
    if rest.len() == 0 {
        assert(first + rest =~= first);
    } else {
        lemma_reads_well_first(state, first, rest.drop_last());
        lemma_after_both(state, first, rest.drop_last());
        assert((first + rest).drop_last() =~= first + rest.drop_last());
        assert((first + rest).last() == rest.last());
    }
}

/// Where the names of the source and of the scope are names, the assembler
/// can read what the translation of the source writes.
pub proof fn lemma_source_reads_well(tokens: Seq<TokenModel>, pos: int, state: EmitterModel)
    requires
        names_are_names(tokens),
        scope_is_named(state),
    ensures
        run_reads_well(state, translated_events(tokens, pos, state)),
        scope_is_named(translated(tokens, pos, state).state),
    decreases tokens.len() - pos,
{
    lemma_step_advances(tokens, pos, state);
    lemma_step_is_a_run(tokens, pos, state);
    let events = step_events(tokens, pos, state);
    assert(run_reads_well(state, events) && scope_is_named(state.after_all(events))) by {
        match emitted_at(tokens, pos, state) {
            Some(command) => {
                lemma_source_command(tokens, pos, state);
                assert(events.drop_last() =~= Seq::<Event>::empty());
                assert(state.after_all(events.drop_last()) == state);
                assert(run_reads_well(state, events.drop_last()));
                lemma_after_first(state, events[0], Seq::empty());
                assert(seq![events[0]] + Seq::<Event>::empty() =~= events);
            },
            None => {},
        }
    }
    match step(tokens, pos, state) {
        Step::Stop(_) => {},
        Step::Next { pos: next, state: after } => {
            lemma_source_reads_well(tokens, next, after);
            lemma_reads_well_first(state, events, translated_events(tokens, next, after));
        },
    }
}

/// Whether the names of the files and the names in their sources are
/// names that the assembler can read.
pub open spec fn sources_are_named(units: Seq<SourceUnitModel>) -> bool {
    forall|i: int|
        0 <= i < units.len() ==> is_name((#[trigger] units[i]).name) && names_are_names(
            tokenize(without_carriage_returns(units[i].source)),
        )
}

/// A run of one event.
pub proof fn lemma_one_event(state: EmitterModel, event: Event)
    ensures
        state.after_all(seq![event]) == state.after(event),
        run_reads_well(state, seq![event]) == event_reads_well(state, event),
{
    let run = seq![event];
    assert(run.drop_last() =~= Seq::<Event>::empty());
    assert(state.after_all(run.drop_last()) == state);
    assert(run_reads_well(state, run.drop_last()));
}

/// Where the names of a file, of its source and of the scope are names,
/// the assembler can read what the translation of the file writes, and the
/// scope behind the file has names that are names.
pub proof fn lemma_file_reads_well(
    name: Seq<char>,
    tokens: Seq<TokenModel>,
    state: EmitterModel,
)
    requires
        is_name(name),
        names_are_names(tokens),
        scope_is_named(state),
    ensures
        ({
            let entered = state.with_file(name);
            let events = seq![Event::Enter { file_name: name }] + translated_events(
                tokens,
                0,
                entered,
            );
            &&& run_reads_well(state, events)
            &&& state.after_all(events) == translated(tokens, 0, entered).state
            &&& scope_is_named(translated(tokens, 0, entered).state)
        }),
{
    let enter = Event::Enter { file_name: name };
    let entered = state.with_file(name);
    lemma_one_event(state, enter);
    lemma_source_reads_well(tokens, 0, entered);
    lemma_translation_is_a_run(tokens, 0, entered);
    lemma_reads_well_first(state, seq![enter], translated_events(tokens, 0, entered));
    lemma_after_both(state, seq![enter], translated_events(tokens, 0, entered));
}

/// Where the names of the files, of their sources and of the scope are
/// names, the assembler can read what the translation of the files
/// writes.
pub proof fn lemma_units_read_well(units: Seq<SourceUnitModel>, from: int, state: EmitterModel)
    requires
        0 <= from,
        sources_are_named(units),
        scope_is_named(state),
    ensures
        run_reads_well(state, units_events(units, from, state)),
    decreases units.len() - from,
{
    if from < units.len() {
        let name = units[from].name;
        let entered = state.with_file(name);
        let tokens = tokenize(without_carriage_returns(units[from].source));
        let outcome = translated(tokens, 0, entered);
        let file = seq![Event::Enter { file_name: name }] + translated_events(tokens, 0, entered);
        assert(is_name(units[from].name));
        lemma_file_reads_well(name, tokens, state);
        if outcome.error is None {
            lemma_units_read_well(units, from + 1, outcome.state);
            lemma_reads_well_first(state, file, units_events(units, from + 1, outcome.state));
        }
    }
}

/// The assembler can read what is written before the first file, and the
/// scope behind it is the scope before it.
pub proof fn lemma_beginning_reads_well()
    ensures
        ({
            let start = EmitterModel::initial();
            let begun = seq![
                Event::Begin,
                Event::Emit { command: Command::Call { name: "Sys.init"@, n_args: 0 } },
            ];
            &&& scope_is_named(start)
            &&& run_reads_well(start, begun)
            &&& scope_is_named(start.after_all(begun))
        }),
{
    let start = EmitterModel::initial();
    let call = Event::Emit { command: Command::Call { name: "Sys.init"@, n_args: 0 } };
    let begun = seq![Event::Begin, call];
    lemma_name_parts();
    lemma_one_event(start, Event::Begin);
    lemma_one_event(start.after(Event::Begin), call);
    assert(seq![Event::Begin] + seq![call] =~= begun);
    lemma_reads_well_first(start, seq![Event::Begin], seq![call]);
    lemma_after_both(start, seq![Event::Begin], seq![call]);
}

/// Where the names of the files and of their sources are names, the
/// assembler can read what the translation of the program writes.
pub proof fn lemma_program_reads_well(units: Seq<SourceUnitModel>, bootstrap: bool)
    requires
        sources_are_named(units),
    ensures
        run_reads_well(EmitterModel::initial(), translation_events(units, bootstrap)),
{
    let start = EmitterModel::initial();
    lemma_beginning_reads_well();
    if bootstrap {
        let begun = seq![
            Event::Begin,
            Event::Emit { command: Command::Call { name: "Sys.init"@, n_args: 0 } },
        ];
        lemma_units_read_well(units, 0, start.after_all(begun));
        lemma_reads_well_first(start, begun, units_events(units, 0, start.after_all(begun)));
    } else {
        lemma_units_read_well(units, 0, start);
    }
}

/// The assembler makes of the text of a translation the program that the
/// translation has emitted. Let the translation have come to its end without
/// an error, let the names of the source be names that the assembler can
/// read, let each label be defined once, and let there be addresses for as
/// many variables as there are instructions. Then the text is assembled;
/// the binary program has one instruction for each instruction that was
/// emitted, the same but for the number in place of a symbol; each label
/// stands for the address of the instruction behind it; and each
/// instruction of the binary program does to the machine what the
/// instruction emitted does with the symbols standing for their numbers.
pub proof fn lemma_assembles_translation(
    units: Seq<SourceUnitModel>,
    bootstrap: bool,
    bytes: Seq<u8>,
)
    requires
        translation(units, bootstrap) matches Ok(text) && holds_text(bytes, text),
        sources_are_named(units),
        labels_are_new(
            run_lines(EmitterModel::initial(), translation_events(units, bootstrap)),
            0,
            Gathered { symbols: predefined(), instructions: Seq::empty() },
        ),
        code(run_lines(EmitterModel::initial(), translation_events(units, bootstrap))).len()
            + LAST_REGISTER <= usize::MAX,
    ensures
        ({
            let lines = run_lines(EmitterModel::initial(), translation_events(units, bootstrap));
            let binary = assembled(bytes)->Ok_0;
            let program = Program { rom: code(lines), symbols: numbers_of(symbol_table(lines)) };
            &&& assembled(bytes) is Ok
            &&& program.holds(lines, 0)
            &&& binary.len() == code(lines).len()
            &&& forall|k: int|
                0 <= k < binary.len() ==> #[trigger] binary[k] == resolved(
                    code(lines)[k],
                    symbol_table(lines),
                )
            &&& forall|k: int, symbols: Map<Seq<char>, int>, machine: Machine|
                0 <= k < binary.len() ==> #[trigger] binary[k].step(symbols, machine)
                    == code(lines)[k].step(program.symbols, machine)
        }),
{
    let lines = run_lines(EmitterModel::initial(), translation_events(units, bootstrap));
    lemma_translation_text(units, bootstrap);
    lemma_program_reads_well(units, bootstrap);
    lemma_reads_run(EmitterModel::initial(), translation_events(units, bootstrap));
    lemma_assembles_listing(bytes, lines);
}

} // verus!
