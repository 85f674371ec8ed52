use hack_toolchain::translator::emitter::{Emitter, ARG, LCL, THAT, THIS};

/// The lines, each ended by a line feed.
fn text(lines: &[&str]) -> String {
    let mut text = String::new();
    for line in lines {
        text.push_str(line);
        text.push('\n');
    }
    text
}

#[test]
fn a_fresh_engine_has_written_nothing() {
    let emitter = Emitter::new();
    assert_eq!(emitter.output(), "");
    assert_eq!(emitter.ret_count(), 0);
    assert_eq!(emitter.bool_count(), 0);
}

#[test]
fn write_appends_the_text_as_it_is() {
    let mut emitter = Emitter::new();
    emitter.write(String::from("@1"));
    emitter.write(String::from("2\n"));
    assert_eq!(emitter.output(), "@12\n");
}

#[test]
fn writeln_appends_a_line() {
    let mut emitter = Emitter::new();
    emitter.writeln("D=M");
    emitter.writeln("");
    assert_eq!(emitter.into_output(), "D=M\n\n");
}

#[test]
fn each_comparison_and_each_call_counts() {
    let mut emitter = Emitter::new();
    emitter.emit_eq();
    emitter.emit_add();
    emitter.emit_gt();
    emitter.emit_call(String::from("f"), 0);
    emitter.emit_return();
    assert_eq!(emitter.bool_count(), 2);
    assert_eq!(emitter.ret_count(), 1);
}

#[test]
fn add_combines_the_two_topmost_values() {
    let mut emitter = Emitter::new();
    emitter.emit_add();
    assert_eq!(
        emitter.output(),
        text(&[
            "",
            "// add",
            "@0",
            "AM=M-1",
            "D=M",
            "@0",
            "A=M-1",
            "M=D+M",
        ])
    );
}

#[test]
fn sub_takes_the_top_from_the_value_below() {
    let mut emitter = Emitter::new();
    emitter.emit_sub();
    assert_eq!(
        emitter.output(),
        text(&[
            "",
            "// sub",
            "@0",
            "AM=M-1",
            "D=M",
            "@0",
            "A=M-1",
            "M=M-D",
        ])
    );
}

#[test]
fn and_combines_the_two_topmost_values() {
    let mut emitter = Emitter::new();
    emitter.emit_and();
    assert_eq!(
        emitter.output(),
        text(&[
            "",
            "// and",
            "@0",
            "AM=M-1",
            "D=M",
            "@0",
            "A=M-1",
            "M=D&M",
        ])
    );
}

#[test]
fn or_combines_the_two_topmost_values() {
    let mut emitter = Emitter::new();
    emitter.emit_or();
    assert_eq!(
        emitter.output(),
        text(&[
            "",
            "// or",
            "@0",
            "AM=M-1",
            "D=M",
            "@0",
            "A=M-1",
            "M=D|M",
        ])
    );
}

#[test]
fn neg_changes_the_top_in_place() {
    let mut emitter = Emitter::new();
    emitter.emit_neg();
    assert_eq!(
        emitter.output(),
        text(&[
            "",
            "// neg",
            "@0",
            "A=M-1",
            "M=-M",
        ])
    );
}

#[test]
fn not_changes_the_top_in_place() {
    let mut emitter = Emitter::new();
    emitter.emit_not();
    assert_eq!(
        emitter.output(),
        text(&[
            "",
            "// not",
            "@0",
            "A=M-1",
            "M=!M",
        ])
    );
}

#[test]
fn eq_in_a_fresh_engine_is_scoped_by_the_bootstrap_file() {
    let mut emitter = Emitter::new();
    emitter.emit_eq();
    assert_eq!(
        emitter.output(),
        text(&[
            "",
            "// eq",
            "@0",
            "AM=M-1",
            "D=M",
            "@0",
            "A=M-1",
            "D=M-D",
            "@Bootstrap-eq-true.0",
            "D;JEQ",
            "@Bootstrap-eq-done.0",
            "D=0;JMP // false",
            "(Bootstrap-eq-true.0)",
            "D=-1    // true",
            "(Bootstrap-eq-done.0)",
            "@0",
            "A=M-1",
            "M=D",
        ])
    );
}

#[test]
fn gt_is_scoped_by_the_file() {
    let mut emitter = Emitter::new();
    emitter.set_file_name(String::from("Main"));
    emitter.emit_gt();
    assert_eq!(
        emitter.output(),
        text(&[
            "",
            "// gt",
            "@0",
            "AM=M-1",
            "D=M",
            "@0",
            "A=M-1",
            "D=M-D",
            "@Main-gt-true.0",
            "D;JGT",
            "@Main-gt-done.0",
            "D=0;JMP // false",
            "(Main-gt-true.0)",
            "D=-1    // true",
            "(Main-gt-done.0)",
            "@0",
            "A=M-1",
            "M=D",
        ])
    );
}

#[test]
fn lt_is_scoped_by_the_function() {
    let mut emitter = Emitter::new();
    emitter.set_file_name(String::from("Main"));
    emitter.set_func_name(String::from("Main.less"));
    emitter.emit_lt();
    assert_eq!(
        emitter.output(),
        text(&[
            "",
            "// lt",
            "@0",
            "AM=M-1",
            "D=M",
            "@0",
            "A=M-1",
            "D=M-D",
            "@Main.less-lt-true.0",
            "D;JLT",
            "@Main.less-lt-done.0",
            "D=0;JMP // false",
            "(Main.less-lt-true.0)",
            "D=-1    // true",
            "(Main.less-lt-done.0)",
            "@0",
            "A=M-1",
            "M=D",
        ])
    );
}

#[test]
fn comparisons_are_numbered_in_the_order_they_come() {
    let mut emitter = Emitter::new();
    emitter.emit_eq();
    emitter.emit_eq();
    emitter.emit_lt();
    assert_eq!(
        emitter.output(),
        text(&[
            "",
            "// eq",
            "@0",
            "AM=M-1",
            "D=M",
            "@0",
            "A=M-1",
            "D=M-D",
            "@Bootstrap-eq-true.0",
            "D;JEQ",
            "@Bootstrap-eq-done.0",
            "D=0;JMP // false",
            "(Bootstrap-eq-true.0)",
            "D=-1    // true",
            "(Bootstrap-eq-done.0)",
            "@0",
            "A=M-1",
            "M=D",
            "",
            "// eq",
            "@0",
            "AM=M-1",
            "D=M",
            "@0",
            "A=M-1",
            "D=M-D",
            "@Bootstrap-eq-true.1",
            "D;JEQ",
            "@Bootstrap-eq-done.1",
            "D=0;JMP // false",
            "(Bootstrap-eq-true.1)",
            "D=-1    // true",
            "(Bootstrap-eq-done.1)",
            "@0",
            "A=M-1",
            "M=D",
            "",
            "// lt",
            "@0",
            "AM=M-1",
            "D=M",
            "@0",
            "A=M-1",
            "D=M-D",
            "@Bootstrap-lt-true.2",
            "D;JLT",
            "@Bootstrap-lt-done.2",
            "D=0;JMP // false",
            "(Bootstrap-lt-true.2)",
            "D=-1    // true",
            "(Bootstrap-lt-done.2)",
            "@0",
            "A=M-1",
            "M=D",
        ])
    );
}

#[test]
fn call_saves_the_frame_and_jumps() {
    let mut emitter = Emitter::new();
    emitter.emit_call(String::from("Math.multiply"), 2);
    assert_eq!(
        emitter.output(),
        text(&[
            "",
            "// call Math.multiply 2",
            "@Math.multiply$ret.0    // push the return addr onto the stack",
            "D=A",
            "@0",
            "A=M",
            "M=D",
            "@0",
            "M=M+1",
            "@1   // push the LCL value onto the stack",
            "D=M",
            "@0",
            "A=M",
            "M=D",
            "@0",
            "M=M+1",
            "@2   // push the ARG value onto the stack",
            "D=M",
            "@0",
            "A=M",
            "M=D",
            "@0",
            "M=M+1",
            "@3  // push the THIS value onto the stack",
            "D=M",
            "@0",
            "A=M",
            "M=D",
            "@0",
            "M=M+1",
            "@4  // push the THAT value onto the stack",
            "D=M",
            "@0",
            "A=M",
            "M=D",
            "@0",
            "MD=M+1",
            "@7 // Re-position ARG",
            "D=D-A",
            "@2",
            "M=D",
            "@0    // set LCL=SP",
            "D=M ",
            "@1",
            "M=D",
            "@Math.multiply",
            "0;JMP",
            "(Math.multiply$ret.0)",
        ])
    );
}

#[test]
fn calls_are_numbered_in_the_order_they_come() {
    let mut emitter = Emitter::new();
    emitter.emit_call(String::from("f"), 0);
    emitter.emit_call(String::from("f"), 1);
    assert_eq!(
        emitter.output(),
        text(&[
            "",
            "// call f 0",
            "@f$ret.0    // push the return addr onto the stack",
            "D=A",
            "@0",
            "A=M",
            "M=D",
            "@0",
            "M=M+1",
            "@1   // push the LCL value onto the stack",
            "D=M",
            "@0",
            "A=M",
            "M=D",
            "@0",
            "M=M+1",
            "@2   // push the ARG value onto the stack",
            "D=M",
            "@0",
            "A=M",
            "M=D",
            "@0",
            "M=M+1",
            "@3  // push the THIS value onto the stack",
            "D=M",
            "@0",
            "A=M",
            "M=D",
            "@0",
            "M=M+1",
            "@4  // push the THAT value onto the stack",
            "D=M",
            "@0",
            "A=M",
            "M=D",
            "@0",
            "MD=M+1",
            "@5 // Re-position ARG",
            "D=D-A",
            "@2",
            "M=D",
            "@0    // set LCL=SP",
            "D=M ",
            "@1",
            "M=D",
            "@f",
            "0;JMP",
            "(f$ret.0)",
            "",
            "// call f 1",
            "@f$ret.1    // push the return addr onto the stack",
            "D=A",
            "@0",
            "A=M",
            "M=D",
            "@0",
            "M=M+1",
            "@1   // push the LCL value onto the stack",
            "D=M",
            "@0",
            "A=M",
            "M=D",
            "@0",
            "M=M+1",
            "@2   // push the ARG value onto the stack",
            "D=M",
            "@0",
            "A=M",
            "M=D",
            "@0",
            "M=M+1",
            "@3  // push the THIS value onto the stack",
            "D=M",
            "@0",
            "A=M",
            "M=D",
            "@0",
            "M=M+1",
            "@4  // push the THAT value onto the stack",
            "D=M",
            "@0",
            "A=M",
            "M=D",
            "@0",
            "MD=M+1",
            "@6 // Re-position ARG",
            "D=D-A",
            "@2",
            "M=D",
            "@0    // set LCL=SP",
            "D=M ",
            "@1",
            "M=D",
            "@f",
            "0;JMP",
            "(f$ret.1)",
        ])
    );
}

#[test]
fn return_restores_the_frame_and_jumps_back() {
    let mut emitter = Emitter::new();
    emitter.emit_return();
    assert_eq!(
        emitter.output(),
        text(&[
            "",
            "// return",
            "@1    // copy the return address to R13: *(RAM[LCL] - 5)",
            "D=M",
            "@5",
            "A=D-A",
            "D=M",
            "@R13",
            "M=D",
            "@0     // pop the return value into arg 0",
            "AM=M-1",
            "D=M",
            "@2",
            "A=M",
            "M=D",
            "D=A+1     // move the stack pointer to arg + 1",
            "@0",
            "M=D",
            "@1    // restore the caller's THAT address: *(RAM[LCL] - 1)",
            "AM=M-1",
            "D=M",
            "@4",
            "M=D",
            "@1    // restore the callers' THIS address: *(RAM[LCL] - 2)",
            "AM=M-1",
            "D=M",
            "@3",
            "M=D",
            "@1    // restore the callers'  ARG address: *(RAM[LCL] - 3)",
            "AM=M-1",
            "D=M",
            "@2",
            "M=D",
            "@1    // restore the callers'  LCL address: *(RAM[LCL] - 4)",
            "AM=M-1",
            "D=M",
            "@1",
            "M=D",
            "@R13      // jump to the return address",
            "A=M;JMP",
        ])
    );
}

#[test]
fn bootstrap_sets_the_stack_pointer_and_calls_the_entry_point() {
    let mut emitter = Emitter::new();
    emitter.emit_bootstrap();
    assert_eq!(
        emitter.output(),
        text(&[
            "",
            "// Bootstrap",
            "@256",
            "D=A",
            "@SP",
            "M=D",
            "",
            "// call Sys.init 0",
            "@Sys.init$ret.0    // push the return addr onto the stack",
            "D=A",
            "@0",
            "A=M",
            "M=D",
            "@0",
            "M=M+1",
            "@1   // push the LCL value onto the stack",
            "D=M",
            "@0",
            "A=M",
            "M=D",
            "@0",
            "M=M+1",
            "@2   // push the ARG value onto the stack",
            "D=M",
            "@0",
            "A=M",
            "M=D",
            "@0",
            "M=M+1",
            "@3  // push the THIS value onto the stack",
            "D=M",
            "@0",
            "A=M",
            "M=D",
            "@0",
            "M=M+1",
            "@4  // push the THAT value onto the stack",
            "D=M",
            "@0",
            "A=M",
            "M=D",
            "@0",
            "MD=M+1",
            "@5 // Re-position ARG",
            "D=D-A",
            "@2",
            "M=D",
            "@0    // set LCL=SP",
            "D=M ",
            "@1",
            "M=D",
            "@Sys.init",
            "0;JMP",
            "(Sys.init$ret.0)",
        ])
    );
}

#[test]
fn function_without_locals_is_a_label_only() {
    let mut emitter = Emitter::new();
    emitter.emit_function(String::from("Sys.init"), 0);
    assert_eq!(
        emitter.output(),
        text(&[
            "",
            "// function Sys.init 0",
            "(Sys.init)",
        ])
    );
}

#[test]
fn function_sets_its_locals_to_zero() {
    let mut emitter = Emitter::new();
    emitter.emit_function(String::from("Main.fibonacci"), 3);
    assert_eq!(
        emitter.output(),
        text(&[
            "",
            "// function Main.fibonacci 3",
            "(Main.fibonacci)",
            "@0",
            "A=M",
            "M=0",
            "A=A+1",
            "M=0",
            "A=A+1",
            "M=0",
            "A=A+1",
            "D=A",
            "@0",
            "M=D",
        ])
    );
}

#[test]
fn goto_outside_a_function_is_scoped_by_the_file() {
    let mut emitter = Emitter::new();
    emitter.set_file_name(String::from("Loop"));
    emitter.emit_goto(String::from("END"));
    assert_eq!(
        emitter.output(),
        text(&[
            "",
            "// goto END",
            "@Loop$END ",
            "0;JMP",
        ])
    );
}

#[test]
fn goto_inside_a_function_is_scoped_by_the_function() {
    let mut emitter = Emitter::new();
    emitter.set_file_name(String::from("Loop"));
    emitter.set_func_name(String::from("Loop.run"));
    emitter.emit_goto(String::from("END"));
    assert_eq!(
        emitter.output(),
        text(&[
            "",
            "// goto END",
            "@Loop.run$END ",
            "0;JMP",
        ])
    );
}

#[test]
fn ifgoto_pops_and_jumps_on_non_zero() {
    let mut emitter = Emitter::new();
    emitter.set_func_name(String::from("Loop.run"));
    emitter.emit_ifgoto(String::from("AGAIN"));
    assert_eq!(
        emitter.output(),
        text(&[
            "",
            "// if-goto AGAIN",
            "@0",
            "AM=M-1",
            "D=M",
            "@Loop.run$AGAIN ",
            "D;JNE",
        ])
    );
}

#[test]
fn label_is_defined_in_the_current_scope() {
    let mut emitter = Emitter::new();
    emitter.set_func_name(String::from("Loop.run"));
    emitter.emit_label(String::from("AGAIN"));
    assert_eq!(
        emitter.output(),
        text(&[
            "",
            "// label AGAIN",
            "(Loop.run$AGAIN) ",
        ])
    );
}

#[test]
fn a_new_file_leaves_the_function_scope() {
    let mut emitter = Emitter::new();
    emitter.set_func_name(String::from("Loop.run"));
    emitter.set_file_name(String::from("Other"));
    emitter.emit_label(String::from("AGAIN"));
    assert_eq!(
        emitter.output(),
        text(&[
            "",
            "// label AGAIN",
            "(Other$AGAIN) ",
        ])
    );
}

#[test]
fn push_constant_pushes_the_number_itself() {
    let mut emitter = Emitter::new();
    emitter.emit_constant_push(17);
    assert_eq!(
        emitter.output(),
        text(&[
            "",
            "// push constant 17",
            "@17",
            "D=A",
            "@0",
            "A=M",
            "M=D",
            "@0",
            "M=M+1",
        ])
    );
}

#[test]
fn push_constant_writes_large_numbers_in_full() {
    let mut emitter = Emitter::new();
    emitter.emit_constant_push(32767);
    assert_eq!(
        emitter.output(),
        text(&[
            "",
            "// push constant 32767",
            "@32767",
            "D=A",
            "@0",
            "A=M",
            "M=D",
            "@0",
            "M=M+1",
        ])
    );
}

#[test]
fn push_constant_zero() {
    let mut emitter = Emitter::new();
    emitter.emit_constant_push(0);
    assert_eq!(
        emitter.output(),
        text(&[
            "",
            "// push constant 0",
            "@0",
            "D=A",
            "@0",
            "A=M",
            "M=D",
            "@0",
            "M=M+1",
        ])
    );
}

#[test]
fn push_pointer_reads_the_base_pointer_itself() {
    let mut emitter = Emitter::new();
    emitter.emit_pointer_push(0, THIS);
    emitter.emit_pointer_push(1, THAT);
    assert_eq!(
        emitter.output(),
        text(&[
            "",
            "// push pointer 0",
            "@3",
            "D=M",
            "@0",
            "A=M",
            "M=D",
            "@0",
            "M=M+1",
            "",
            "// push pointer 1",
            "@4",
            "D=M",
            "@0",
            "A=M",
            "M=D",
            "@0",
            "M=M+1",
        ])
    );
}

#[test]
fn pop_pointer_writes_the_base_pointer_itself() {
    let mut emitter = Emitter::new();
    emitter.emit_pointer_pop(0, THIS);
    emitter.emit_pointer_pop(1, THAT);
    assert_eq!(
        emitter.output(),
        text(&[
            "",
            "// pop pointer 0",
            "@0",
            "AM=M-1",
            "D=M",
            "@3",
            "M=D",
            "",
            "// pop pointer 1",
            "@0",
            "AM=M-1",
            "D=M",
            "@4",
            "M=D",
        ])
    );
}

#[test]
fn push_local_reads_through_the_base_pointer() {
    let mut emitter = Emitter::new();
    emitter.emit_segment_push(2, LCL);
    assert_eq!(
        emitter.output(),
        text(&[
            "",
            "// push local 2",
            "@1",
            "D=M",
            "@2",
            "A=D+A",
            "D=M",
            "@0",
            "A=M",
            "M=D",
            "@0",
            "M=M+1",
        ])
    );
}

#[test]
fn pop_local_writes_through_the_base_pointer() {
    let mut emitter = Emitter::new();
    emitter.emit_segment_pop(5, LCL);
    assert_eq!(
        emitter.output(),
        text(&[
            "",
            "// pop local 5",
            "@5",
            "D=A",
            "@1",
            "D=D+M",
            "@R13",
            "M=D",
            "@0",
            "AM=M-1",
            "D=M",
            "@R13",
            "A=M",
            "M=D",
        ])
    );
}

#[test]
fn push_argument_reads_through_the_base_pointer() {
    let mut emitter = Emitter::new();
    emitter.emit_segment_push(2, ARG);
    assert_eq!(
        emitter.output(),
        text(&[
            "",
            "// push argument 2",
            "@2",
            "D=M",
            "@2",
            "A=D+A",
            "D=M",
            "@0",
            "A=M",
            "M=D",
            "@0",
            "M=M+1",
        ])
    );
}

#[test]
fn pop_argument_writes_through_the_base_pointer() {
    let mut emitter = Emitter::new();
    emitter.emit_segment_pop(5, ARG);
    assert_eq!(
        emitter.output(),
        text(&[
            "",
            "// pop argument 5",
            "@5",
            "D=A",
            "@2",
            "D=D+M",
            "@R13",
            "M=D",
            "@0",
            "AM=M-1",
            "D=M",
            "@R13",
            "A=M",
            "M=D",
        ])
    );
}

#[test]
fn push_this_reads_through_the_base_pointer() {
    let mut emitter = Emitter::new();
    emitter.emit_segment_push(2, THIS);
    assert_eq!(
        emitter.output(),
        text(&[
            "",
            "// push this 2",
            "@3",
            "D=M",
            "@2",
            "A=D+A",
            "D=M",
            "@0",
            "A=M",
            "M=D",
            "@0",
            "M=M+1",
        ])
    );
}

#[test]
fn pop_this_writes_through_the_base_pointer() {
    let mut emitter = Emitter::new();
    emitter.emit_segment_pop(5, THIS);
    assert_eq!(
        emitter.output(),
        text(&[
            "",
            "// pop this 5",
            "@5",
            "D=A",
            "@3",
            "D=D+M",
            "@R13",
            "M=D",
            "@0",
            "AM=M-1",
            "D=M",
            "@R13",
            "A=M",
            "M=D",
        ])
    );
}

#[test]
fn push_that_reads_through_the_base_pointer() {
    let mut emitter = Emitter::new();
    emitter.emit_segment_push(2, THAT);
    assert_eq!(
        emitter.output(),
        text(&[
            "",
            "// push that 2",
            "@4",
            "D=M",
            "@2",
            "A=D+A",
            "D=M",
            "@0",
            "A=M",
            "M=D",
            "@0",
            "M=M+1",
        ])
    );
}

#[test]
fn pop_that_writes_through_the_base_pointer() {
    let mut emitter = Emitter::new();
    emitter.emit_segment_pop(5, THAT);
    assert_eq!(
        emitter.output(),
        text(&[
            "",
            "// pop that 5",
            "@5",
            "D=A",
            "@4",
            "D=D+M",
            "@R13",
            "M=D",
            "@0",
            "AM=M-1",
            "D=M",
            "@R13",
            "A=M",
            "M=D",
        ])
    );
}

#[test]
fn a_segment_at_another_address_has_no_name() {
    let mut emitter = Emitter::new();
    emitter.emit_segment_push(1, 9);
    assert_eq!(
        emitter.output(),
        text(&[
            "",
            "// push unknown 1",
            "@9",
            "D=M",
            "@1",
            "A=D+A",
            "D=M",
            "@0",
            "A=M",
            "M=D",
            "@0",
            "M=M+1",
        ])
    );
}

#[test]
fn push_static_names_the_cell_after_the_file() {
    let mut emitter = Emitter::new();
    emitter.set_file_name(String::from("Foo"));
    emitter.emit_static_push(3);
    assert_eq!(
        emitter.output(),
        text(&[
            "// push static 3",
            "@Foo.3",
            "D=M",
            "@0",
            "A=M",
            "M=D",
            "@0",
            "M=M+1",
        ])
    );
}

#[test]
fn pop_static_names_the_cell_after_the_file() {
    let mut emitter = Emitter::new();
    emitter.set_file_name(String::from("Foo"));
    emitter.emit_static_pop(3);
    assert_eq!(
        emitter.output(),
        text(&[
            "// pop static 3",
            "@0",
            "AM=M-1",
            "D=M",
            "@Foo.3",
            "M=D",
        ])
    );
}

#[test]
fn static_cells_are_shared_by_the_functions_of_a_file() {
    let mut emitter = Emitter::new();
    emitter.set_file_name(String::from("Foo"));
    emitter.set_func_name(String::from("Foo.f"));
    emitter.emit_static_push(0);
    assert_eq!(
        emitter.output(),
        text(&[
            "// push static 0",
            "@Foo.0",
            "D=M",
            "@0",
            "A=M",
            "M=D",
            "@0",
            "M=M+1",
        ])
    );
}

#[test]
fn push_temp_reads_the_cell_five_further() {
    let mut emitter = Emitter::new();
    emitter.emit_temp_push(6);
    assert_eq!(
        emitter.output(),
        text(&[
            "",
            "// push temp 6",
            "@11",
            "D=M",
            "@0",
            "A=M",
            "M=D",
            "@0",
            "M=M+1",
        ])
    );
}

#[test]
fn pop_temp_writes_the_cell_five_further() {
    let mut emitter = Emitter::new();
    emitter.emit_temp_pop(0);
    assert_eq!(
        emitter.output(),
        text(&[
            "",
            "// pop temp 0",
            "@0",
            "AM=M-1",
            "D=M",
            "@5",
            "M=D",
        ])
    );
}

#[test]
fn a_function_is_the_scope_of_the_labels_behind_it() {
    let mut emitter = Emitter::new();
    emitter.emit_function(String::from("A"), 0);
    emitter.emit_label(String::from("FOO"));
    emitter.emit_goto(String::from("FOO"));
    emitter.emit_function(String::from("B"), 0);
    emitter.emit_label(String::from("FOO"));
    emitter.emit_ifgoto(String::from("FOO"));
    let text = emitter.into_output();
    assert_eq!(text.matches("(A$FOO) \n").count(), 1);
    assert_eq!(text.matches("(B$FOO) \n").count(), 1);
    assert_eq!(text.matches("@A$FOO \n").count(), 1);
    assert_eq!(text.matches("@B$FOO \n").count(), 1);
    assert!(!text.contains("Bootstrap$FOO"));
}

#[test]
fn a_function_is_the_scope_of_the_comparisons_behind_it() {
    let mut emitter = Emitter::new();
    emitter.set_file_name(String::from("Main"));
    emitter.emit_eq();
    emitter.emit_function(String::from("Main.f"), 1);
    emitter.emit_eq();
    let text = emitter.into_output();
    assert!(text.contains("(Main-eq-true.0)\n"));
    assert!(text.contains("(Main.f-eq-true.1)\n"));
}

#[test]
fn a_function_leaves_the_file_and_the_counters_as_they_are() {
    let mut emitter = Emitter::new();
    emitter.set_file_name(String::from("Foo"));
    emitter.emit_call(String::from("g"), 0);
    emitter.emit_lt();
    emitter.emit_function(String::from("Foo.f"), 2);
    assert_eq!(emitter.ret_count(), 1);
    assert_eq!(emitter.bool_count(), 1);
    emitter.emit_static_push(7);
    assert!(emitter.output().ends_with(
        "// push static 7\n@Foo.7\nD=M\n@0\nA=M\nM=D\n@0\nM=M+1\n"
    ));
}
