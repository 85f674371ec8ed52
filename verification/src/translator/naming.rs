//! What holds of the names that the emission engine makes up: the labels of
//! comparisons and of calls never repeat, the labels of the source are kept
//! apart by their scope, and the static variables by their file.

use crate::instruction::{Address, JumpToken, Operation};
use crate::listing::{render, Line};
use crate::numeral::{
    all_decimal_digits, decimal, lemma_decimal_digits, lemma_decimal_injective,
};
use crate::translator::emitter::{
    bootstrap_lines, call_lines, comparison_lines, done_label, goto_lines, ifgoto_lines, label_lines, return_label,
    scoped_label, static_pop_lines, static_push_lines, static_symbol, true_label, EmitterModel,
};
use crate::translator::parser::Command;
use vstd::prelude::*;

verus! {

/// Whether the listing defines the label `name`.
pub open spec fn defines(lines: Seq<Line>, name: Seq<char>) -> bool {
    exists|i: int|
        0 <= i < lines.len() && (#[trigger] lines[i] matches Line::Label { name: defined, .. }
            && defined == name)
}

/// Whether an instruction of the listing loads the symbol `name`.
pub open spec fn refers_to(lines: Seq<Line>, name: Seq<char>) -> bool {
    exists|i: int|
        0 <= i < lines.len() && (#[trigger] lines[i] matches Line::Code {
            op: Operation::Load(Address::Symbol(loaded)),
            ..
        } && loaded == name)
}

/// What happens in an emission run, one thing after the other.
pub ghost enum Event {
    /// The stack pointer is set, before anything else.
    Begin,
    /// A new source file is begun.
    Enter { file_name: Seq<char> },
    /// A command is emitted.
    Emit { command: Command },
}

impl EmitterModel {
    /// The state after one event.
    pub open spec fn after(self, event: Event) -> EmitterModel {
        match event {
            Event::Begin => self.emitted(bootstrap_lines()),
            Event::Enter { file_name } => self.with_file(file_name),
            Event::Emit { command } => self.executed(command),
        }
    }

    /// The state after all the events, in their order.
    pub open spec fn after_all(self, events: Seq<Event>) -> EmitterModel
        decreases events.len(),
    {
        if events.len() == 0 {
            self
        } else {
            self.after_all(events.drop_last()).after(events.last())
        }
    }
}

impl Event {
    /// Whether the event emits a comparison.
    pub open spec fn is_comparison(self) -> bool {
        self matches Event::Emit { command } && (command is Eq || command is Gt || command is Lt)
    }

    /// Whether the event emits a call.
    pub open spec fn is_call(self) -> bool {
        self matches Event::Emit { command } && command is Call
    }

    /// The name of the comparison, as its labels hold it.
    pub open spec fn comparison_name(self) -> Seq<char> {
        match self {
            Event::Emit { command: Command::Eq } => "eq"@,
            Event::Emit { command: Command::Gt } => "gt"@,
            _ => "lt"@,
        }
    }

    /// The jump that the comparison takes where it holds.
    pub open spec fn comparison_jump(self) -> JumpToken {
        match self {
            Event::Emit { command: Command::Eq } => JumpToken::JEQ,
            Event::Emit { command: Command::Gt } => JumpToken::JGT,
            _ => JumpToken::JLT,
        }
    }

    /// The code of the comparison when it is emitted in `state`.
    pub open spec fn comparison_code(self, state: EmitterModel) -> Seq<Line> {
        comparison_lines(
            state.label_prefix(),
            self.comparison_name(),
            self.comparison_jump(),
            state.bool_count,
        )
    }
}

/// A text that ends in a dot, with digits behind it, can be read in one way
/// only: the digits are what follows the last dot.
pub proof fn lemma_numbered_names(
    first: Seq<char>,
    first_digits: Seq<char>,
    second: Seq<char>,
    second_digits: Seq<char>,
)
    requires
        first.len() > 0 && first.last() == '.',
        second.len() > 0 && second.last() == '.',
        all_decimal_digits(first_digits),
        all_decimal_digits(second_digits),
        first + first_digits == second + second_digits,
    ensures
        first == second,
        first_digits == second_digits,
{
    let whole = first + first_digits;
    assert(whole.len() == first.len() + first_digits.len());
    assert(whole.len() == second.len() + second_digits.len());
    if first.len() < second.len() {
        let at = second.len() - 1;
        assert(whole[at] == first_digits[at - first.len()]);
        assert((second + second_digits)[at] == second[at]);
    } else if second.len() < first.len() {
        let at = first.len() - 1;
        assert((second + second_digits)[at] == second_digits[at - second.len()]);
        assert(whole[at] == first[at]);
    }
    assert(first =~= whole.take(first.len() as int));
    assert(second =~= (second + second_digits).take(second.len() as int));
    assert(first_digits =~= whole.skip(first.len() as int));
    assert(second_digits =~= (second + second_digits).skip(second.len() as int));
}

/// Two texts with the same ending are equal only if their beginnings are.
pub proof fn lemma_same_ending(first: Seq<char>, second: Seq<char>, ending: Seq<char>)
    requires
        first + ending == second + ending,
    ensures
        first == second,
{
    assert((first + ending).len() == first.len() + ending.len());
    assert((second + ending).len() == second.len() + ending.len());
    assert(first =~= (first + ending).take(first.len() as int));
    assert(second =~= (second + ending).take(second.len() as int));
}

/// Comparisons with different numbers have different labels, whatever
/// their scopes and kinds: none of the two labels of the one is a label of
/// the other.
pub proof fn lemma_comparison_labels_differ(
    prefix: Seq<char>,
    name: Seq<char>,
    id: nat,
    other_prefix: Seq<char>,
    other_name: Seq<char>,
    other_id: nat,
)
    requires
        id != other_id,
    ensures
        true_label(prefix, name, id) != true_label(other_prefix, other_name, other_id),
        done_label(prefix, name, id) != done_label(other_prefix, other_name, other_id),
        true_label(prefix, name, id) != done_label(other_prefix, other_name, other_id),
        done_label(prefix, name, id) != true_label(other_prefix, other_name, other_id),
{
    reveal_strlit("-true.");
    reveal_strlit("-done.");
    lemma_decimal_digits(id);
    lemma_decimal_digits(other_id);
    let on_true = prefix + "-"@ + name + "-true."@;
    let on_done = prefix + "-"@ + name + "-done."@;
    let other_true = other_prefix + "-"@ + other_name + "-true."@;
    let other_done = other_prefix + "-"@ + other_name + "-done."@;
    if true_label(prefix, name, id) == true_label(other_prefix, other_name, other_id) {
        lemma_numbered_names(on_true, decimal(id), other_true, decimal(other_id));
        lemma_decimal_injective(id, other_id);
    }
    if done_label(prefix, name, id) == done_label(other_prefix, other_name, other_id) {
        lemma_numbered_names(on_done, decimal(id), other_done, decimal(other_id));
        lemma_decimal_injective(id, other_id);
    }
    if true_label(prefix, name, id) == done_label(other_prefix, other_name, other_id) {
        lemma_numbered_names(on_true, decimal(id), other_done, decimal(other_id));
        lemma_decimal_injective(id, other_id);
    }
    if done_label(prefix, name, id) == true_label(other_prefix, other_name, other_id) {
        lemma_numbered_names(on_done, decimal(id), other_true, decimal(other_id));
        lemma_decimal_injective(id, other_id);
    }
}

/// The label of the true branch of a comparison is never the label at
/// which a comparison is done, whatever their scopes, kinds and numbers.
pub proof fn lemma_true_label_is_no_done_label(
    prefix: Seq<char>,
    name: Seq<char>,
    id: nat,
    other_prefix: Seq<char>,
    other_name: Seq<char>,
    other_id: nat,
)
    ensures
        true_label(prefix, name, id) != done_label(other_prefix, other_name, other_id),
{
    reveal_strlit("-true.");
    reveal_strlit("-done.");
    lemma_decimal_digits(id);
    lemma_decimal_digits(other_id);
    let on_true = prefix + "-"@ + name + "-true."@;
    let other_done = other_prefix + "-"@ + other_name + "-done."@;
    if true_label(prefix, name, id) == done_label(other_prefix, other_name, other_id) {
        lemma_numbered_names(on_true, decimal(id), other_done, decimal(other_id));
        assert(on_true[on_true.len() - 5] == 't');
        assert(other_done[other_done.len() - 5] == 'd');
    }
}

/// Calls with different numbers return to different labels, whatever the
/// functions they call.
pub proof fn lemma_return_labels_differ(
    function: Seq<char>,
    id: nat,
    other_function: Seq<char>,
    other_id: nat,
)
    requires
        id != other_id,
    ensures
        return_label(function, id) != return_label(other_function, other_id),
{
    reveal_strlit("$ret.");
    lemma_decimal_digits(id);
    lemma_decimal_digits(other_id);
    if return_label(function, id) == return_label(other_function, other_id) {
        lemma_numbered_names(
            function + "$ret."@,
            decimal(id),
            other_function + "$ret."@,
            decimal(other_id),
        );
        lemma_decimal_injective(id, other_id);
    }
}

/// A comparison defines two labels, the one of its true branch and the one
/// where it is done, and no other.
pub proof fn lemma_comparison_defines_its_labels(
    prefix: Seq<char>,
    name: Seq<char>,
    jump: JumpToken,
    id: nat,
    label: Seq<char>,
)
    ensures
        defines(comparison_lines(prefix, name, jump, id), label) <==> label == true_label(
            prefix,
            name,
            id,
        ) || label == done_label(prefix, name, id),
{
    let lines = comparison_lines(prefix, name, jump, id);
    assert(lines[12] matches Line::Label { name: n, .. } && n == true_label(prefix, name, id));
    assert(lines[14] matches Line::Label { name: n, .. } && n == done_label(prefix, name, id));
    assert forall|i: int| 0 <= i < lines.len() && #[trigger] lines[i] is Label implies i == 12 || i
        == 14 by {
        if 0 <= i < 12 {
        } else if i == 13 {
        } else if 15 <= i < 18 {
        }
    }
}

/// A call defines one label, the one it returns to, and no other.
pub proof fn lemma_call_defines_its_label(
    function: Seq<char>,
    n_args: nat,
    id: nat,
    label: Seq<char>,
)
    ensures
        defines(call_lines(function, n_args, id), label) <==> label == return_label(function, id),
{
    let lines = call_lines(function, n_args, id);
    assert(lines[47] matches Line::Label { name: n, .. } && n == return_label(function, id));
    assert forall|i: int| 0 <= i < lines.len() && #[trigger] lines[i] is Label implies i == 47 by {
        if 0 <= i < 16 {
        } else if 16 <= i < 32 {
        } else if 32 <= i < 47 {
        }
    }
}

/// No event makes a counter smaller; a comparison makes the counter of the
/// comparisons greater by one, a call the counter of the calls.
pub proof fn lemma_counters_grow(state: EmitterModel, event: Event)
    ensures
        state.after(event).bool_count == state.bool_count + if event.is_comparison() {
            1nat
        } else {
            0nat
        },
        state.after(event).ret_count == state.ret_count + if event.is_call() {
            1nat
        } else {
            0nat
        },
{
}

/// Over a run, no counter ever becomes smaller.
pub proof fn lemma_counters_never_shrink(state: EmitterModel, events: Seq<Event>, n: int)
    requires
        0 <= n <= events.len(),
    ensures
        state.after_all(events.take(n)).bool_count <= state.after_all(events).bool_count,
        state.after_all(events.take(n)).ret_count <= state.after_all(events).ret_count,
    decreases events.len() - n,
{
    if n < events.len() {
        lemma_counters_never_shrink(state, events.drop_last(), n);
        assert(events.drop_last().take(n) =~= events.take(n));
        lemma_counters_grow(state.after_all(events.drop_last()), events.last());
    } else {
        assert(events.take(n) =~= events);
    }
}

/// In one run, however many files and commands it goes through, two
/// comparisons never share a label: each defines a label for its true
/// branch and another for its end, and no label that the one defines is
/// defined by the other.
pub proof fn lemma_comparisons_of_a_run_have_their_own_labels(
    start: EmitterModel,
    events: Seq<Event>,
    i: int,
    j: int,
)
    requires
        0 <= i < j < events.len(),
        events[i].is_comparison(),
        events[j].is_comparison(),
    ensures
        ({
            let first = start.after_all(events.take(i));
            let second = start.after_all(events.take(j));
            &&& first.after(events[i]).out == first.out + render(events[i].comparison_code(first))
            &&& second.after(events[j]).out == second.out + render(
                events[j].comparison_code(second),
            )
            &&& true_label(first.label_prefix(), events[i].comparison_name(), first.bool_count)
                != done_label(first.label_prefix(), events[i].comparison_name(), first.bool_count)
            &&& true_label(second.label_prefix(), events[j].comparison_name(), second.bool_count)
                != done_label(
                second.label_prefix(),
                events[j].comparison_name(),
                second.bool_count,
            )
            &&& forall|label: Seq<char>| #[trigger]
                defines(events[i].comparison_code(first), label) ==> !defines(
                    events[j].comparison_code(second),
                    label,
                )
        }),
{
    let first = start.after_all(events.take(i));
    let second = start.after_all(events.take(j));
    assert(first.bool_count < second.bool_count) by {
        let upto = events.take(j);
        lemma_counters_never_shrink(start, upto, i + 1);
        assert(upto.take(i + 1) =~= events.take(i + 1));
        assert(events.take(i + 1).drop_last() =~= events.take(i));
        assert(events.take(i + 1).last() == events[i]);
        lemma_counters_grow(first, events[i]);
    }
    lemma_comparison_labels_differ(
        first.label_prefix(),
        events[i].comparison_name(),
        first.bool_count,
        second.label_prefix(),
        events[j].comparison_name(),
        second.bool_count,
    );
    lemma_true_label_is_no_done_label(
        first.label_prefix(),
        events[i].comparison_name(),
        first.bool_count,
        first.label_prefix(),
        events[i].comparison_name(),
        first.bool_count,
    );
    lemma_true_label_is_no_done_label(
        second.label_prefix(),
        events[j].comparison_name(),
        second.bool_count,
        second.label_prefix(),
        events[j].comparison_name(),
        second.bool_count,
    );
    assert forall|label: Seq<char>| #[trigger]
        defines(events[i].comparison_code(first), label) implies !defines(
        events[j].comparison_code(second),
        label,
    ) by {
        lemma_comparison_defines_its_labels(
            first.label_prefix(),
            events[i].comparison_name(),
            events[i].comparison_jump(),
            first.bool_count,
            label,
        );
        lemma_comparison_defines_its_labels(
            second.label_prefix(),
            events[j].comparison_name(),
            events[j].comparison_jump(),
            second.bool_count,
            label,
        );
    }
}

/// In one run, two calls never return to the same label.
pub proof fn lemma_calls_of_a_run_have_their_own_labels(
    start: EmitterModel,
    events: Seq<Event>,
    i: int,
    j: int,
)
    requires
        0 <= i < j < events.len(),
        events[i] matches Event::Emit { command: Command::Call { .. } },
        events[j] matches Event::Emit { command: Command::Call { .. } },
    ensures
        return_label(
            events[i]->command->Call_name,
            start.after_all(events.take(i)).ret_count,
        ) != return_label(
            events[j]->command->Call_name,
            start.after_all(events.take(j)).ret_count,
        ),
{
    let first = start.after_all(events.take(i));
    let second = start.after_all(events.take(j));
    assert(first.ret_count < second.ret_count) by {
        let upto = events.take(j);
        lemma_counters_never_shrink(start, upto, i + 1);
        assert(upto.take(i + 1) =~= events.take(i + 1));
        assert(events.take(i + 1).drop_last() =~= events.take(i));
        assert(events.take(i + 1).last() == events[i]);
        lemma_counters_grow(first, events[i]);
    }
    lemma_return_labels_differ(
        events[i]->command->Call_name,
        first.ret_count,
        events[j]->command->Call_name,
        second.ret_count,
    );
}

/// A label of the source has one full name in each scope, and different
/// names in different scopes.
pub proof fn lemma_scopes_keep_labels_apart(
    scope: Seq<char>,
    other_scope: Seq<char>,
    name: Seq<char>,
)
    ensures
        scoped_label(scope, name) == scoped_label(other_scope, name) <==> scope == other_scope,
{
    if scoped_label(scope, name) == scoped_label(other_scope, name) {
        assert(scope + "$"@ + name =~= scope + ("$"@ + name));
        assert(other_scope + "$"@ + name =~= other_scope + ("$"@ + name));
        lemma_same_ending(scope, other_scope, "$"@ + name);
    }
}

/// A `label` defines one label, a `goto` and an `if-goto` refer to one
/// symbol: the full name of the label in the scope of the command.
pub proof fn lemma_branches_name_one_label(scope: Seq<char>, name: Seq<char>, full: Seq<char>)
    ensures
        defines(label_lines(scope, name), full) <==> full == scoped_label(scope, name),
        refers_to(goto_lines(scope, name), full) <==> full == scoped_label(scope, name),
        refers_to(ifgoto_lines(scope, name), full) <==> full == scoped_label(scope, name),
{
    let defined = label_lines(scope, name);
    assert(defined[2] matches Line::Label { name: n, .. } && n == scoped_label(scope, name));
    let jump = goto_lines(scope, name);
    assert(jump[2] matches Line::Code { op: Operation::Load(Address::Symbol(n)), .. } && n
        == scoped_label(scope, name));
    let branch = ifgoto_lines(scope, name);
    assert(branch[5] matches Line::Code { op: Operation::Load(Address::Symbol(n)), .. } && n
        == scoped_label(scope, name));
}

/// A jump to a label goes to the label of that name in its own function:
/// the `goto` or `if-goto` refers to what the `label` of the same function
/// defines, and to nothing that the `label` of another function defines.
pub proof fn lemma_jumps_stay_in_their_function(
    function: Seq<char>,
    other_function: Seq<char>,
    name: Seq<char>,
    state: EmitterModel,
    other_state: EmitterModel,
)
    requires
        function != other_function,
        state.func_name == Some(function),
        other_state.func_name == Some(other_function),
    ensures
        forall|target: Seq<char>| #[trigger]
            refers_to(goto_lines(state.label_prefix(), name), target) ==> defines(
                label_lines(state.label_prefix(), name),
                target,
            ) && !defines(label_lines(other_state.label_prefix(), name), target),
        forall|target: Seq<char>| #[trigger]
            refers_to(ifgoto_lines(state.label_prefix(), name), target) ==> defines(
                label_lines(state.label_prefix(), name),
                target,
            ) && !defines(label_lines(other_state.label_prefix(), name), target),
{
    lemma_scopes_keep_labels_apart(function, other_function, name);
    assert forall|target: Seq<char>| #[trigger]
        refers_to(goto_lines(function, name), target) implies defines(
        label_lines(function, name),
        target,
    ) && !defines(label_lines(other_function, name), target) by {
        lemma_branches_name_one_label(function, name, target);
        lemma_branches_name_one_label(other_function, name, target);
    }
    assert forall|target: Seq<char>| #[trigger]
        refers_to(ifgoto_lines(function, name), target) implies defines(
        label_lines(function, name),
        target,
    ) && !defines(label_lines(other_function, name), target) by {
        lemma_branches_name_one_label(function, name, target);
        lemma_branches_name_one_label(other_function, name, target);
    }
}

/// A static variable has one name for each file and number, and no two
/// have the same.
pub proof fn lemma_files_keep_statics_apart(
    file: Seq<char>,
    number: nat,
    other_file: Seq<char>,
    other_number: nat,
)
    ensures
        static_symbol(file, number) == static_symbol(other_file, other_number) <==> file
            == other_file && number == other_number,
{
    reveal_strlit(".");
    lemma_decimal_digits(number);
    lemma_decimal_digits(other_number);
    if static_symbol(file, number) == static_symbol(other_file, other_number) {
        lemma_numbered_names(
            file + "."@,
            decimal(number),
            other_file + "."@,
            decimal(other_number),
        );
        lemma_decimal_injective(number, other_number);
        lemma_same_ending(file, other_file, "."@);
    }
}

/// A `push static` and a `pop static` refer to one symbol: the name of the
/// variable in the file of the command. So the same number in two files is
/// two variables, and the same number in one file is one.
pub proof fn lemma_statics_name_one_variable(file: Seq<char>, number: nat, symbol: Seq<char>)
    ensures
        refers_to(static_push_lines(file, number), symbol) <==> symbol == static_symbol(
            file,
            number,
        ),
        refers_to(static_pop_lines(file, number), symbol) <==> symbol == static_symbol(
            file,
            number,
        ),
{
    let push = static_push_lines(file, number);
    assert(push[1] matches Line::Code { op: Operation::Load(Address::Symbol(n)), .. } && n
        == static_symbol(file, number));
    let pop = static_pop_lines(file, number);
    assert(pop[4] matches Line::Code { op: Operation::Load(Address::Symbol(n)), .. } && n
        == static_symbol(file, number));
}

} // verus!
