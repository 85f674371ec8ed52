use hack_toolchain::translator::emitter::{Emitter, ARG, LCL, THAT, THIS};
use hack_toolchain::translator::lexer::Lexer;
use hack_toolchain::translator::parser::{ParseError, ParseErrorKind, Parser};
use hack_toolchain::translator::tokens::{Token, TokenKind};

fn translate(source: &str) -> Result<String, ParseError> {
    let mut emitter = Emitter::new();
    Parser::parse_file(source, String::from("Test"), &mut emitter)?;
    Ok(emitter.into_output())
}

fn rejection(source: &str) -> (ParseErrorKind, String, usize, usize) {
    match translate(source) {
        Ok(text) => panic!("expected an error but got {:?}", text),
        Err(error) => (
            error.kind,
            error.token.text.iter().collect(),
            error.token.beg_row,
            error.token.beg_col,
        ),
    }
}

/// What the engine writes when it is asked directly, in file `Test`.
fn emitted(ask: fn(&mut Emitter)) -> String {
    let mut emitter = Emitter::new();
    emitter.set_file_name(String::from("Test"));
    ask(&mut emitter);
    emitter.into_output()
}

#[test]
fn an_empty_source_gives_no_code() {
    assert_eq!(translate("").unwrap(), "");
    assert_eq!(translate("\n\n// nothing here\n\n").unwrap(), "");
    assert_eq!(translate("// no end of line").unwrap(), "");
}

#[test]
fn each_plain_command_asks_for_its_code() {
    assert_eq!(translate("add\n").unwrap(), emitted(|e| e.emit_add()));
    assert_eq!(translate("sub\n").unwrap(), emitted(|e| e.emit_sub()));
    assert_eq!(translate("and\n").unwrap(), emitted(|e| e.emit_and()));
    assert_eq!(translate("or\n").unwrap(), emitted(|e| e.emit_or()));
    assert_eq!(translate("neg\n").unwrap(), emitted(|e| e.emit_neg()));
    assert_eq!(translate("not\n").unwrap(), emitted(|e| e.emit_not()));
    assert_eq!(translate("eq\n").unwrap(), emitted(|e| e.emit_eq()));
    assert_eq!(translate("gt\n").unwrap(), emitted(|e| e.emit_gt()));
    assert_eq!(translate("lt\n").unwrap(), emitted(|e| e.emit_lt()));
    assert_eq!(translate("return\n").unwrap(), emitted(|e| e.emit_return()));
}

#[test]
fn push_asks_for_the_code_of_its_segment() {
    assert_eq!(translate("push constant 7\n").unwrap(), emitted(|e| e.emit_constant_push(7)));
    assert_eq!(translate("push local 0\n").unwrap(), emitted(|e| e.emit_segment_push(0, LCL)));
    assert_eq!(translate("push argument 1\n").unwrap(), emitted(|e| e.emit_segment_push(1, ARG)));
    assert_eq!(translate("push this 2\n").unwrap(), emitted(|e| e.emit_segment_push(2, THIS)));
    assert_eq!(translate("push that 3\n").unwrap(), emitted(|e| e.emit_segment_push(3, THAT)));
    assert_eq!(translate("push static 4\n").unwrap(), emitted(|e| e.emit_static_push(4)));
    assert_eq!(translate("push temp 5\n").unwrap(), emitted(|e| e.emit_temp_push(5)));
    assert_eq!(translate("push pointer 0\n").unwrap(), emitted(|e| e.emit_pointer_push(0, THIS)));
    assert_eq!(translate("push pointer 1\n").unwrap(), emitted(|e| e.emit_pointer_push(1, THAT)));
}

#[test]
fn pop_asks_for_the_code_of_its_segment() {
    assert_eq!(translate("pop local 0\n").unwrap(), emitted(|e| e.emit_segment_pop(0, LCL)));
    assert_eq!(translate("pop argument 1\n").unwrap(), emitted(|e| e.emit_segment_pop(1, ARG)));
    assert_eq!(translate("pop this 2\n").unwrap(), emitted(|e| e.emit_segment_pop(2, THIS)));
    assert_eq!(translate("pop that 3\n").unwrap(), emitted(|e| e.emit_segment_pop(3, THAT)));
    assert_eq!(translate("pop static 4\n").unwrap(), emitted(|e| e.emit_static_pop(4)));
    assert_eq!(translate("pop temp 5\n").unwrap(), emitted(|e| e.emit_temp_pop(5)));
    assert_eq!(translate("pop pointer 0\n").unwrap(), emitted(|e| e.emit_pointer_pop(0, THIS)));
    assert_eq!(translate("pop pointer 1\n").unwrap(), emitted(|e| e.emit_pointer_pop(1, THAT)));
}

#[test]
fn branches_ask_for_their_code() {
    assert_eq!(
        translate("label LOOP\n").unwrap(),
        emitted(|e| e.emit_label(String::from("LOOP")))
    );
    assert_eq!(
        translate("goto LOOP\n").unwrap(),
        emitted(|e| e.emit_goto(String::from("LOOP")))
    );
    assert_eq!(
        translate("if-goto LOOP\n").unwrap(),
        emitted(|e| e.emit_ifgoto(String::from("LOOP")))
    );
}

#[test]
fn a_function_opens_the_scope_of_the_labels_behind_it() {
    assert_eq!(
        translate("label A\nfunction Main.f 2\nlabel A\n").unwrap(),
        emitted(|e| {
            e.emit_label(String::from("A"));
            e.emit_function(String::from("Main.f"), 2);
            e.emit_label(String::from("A"));
        })
    );
}

#[test]
fn a_call_asks_for_its_code() {
    assert_eq!(
        translate("call Math.multiply 2\n").unwrap(),
        emitted(|e| e.emit_call(String::from("Math.multiply"), 2))
    );
}

#[test]
fn a_leading_zero_changes_nothing() {
    assert_eq!(translate("push constant 007\n").unwrap(), emitted(|e| e.emit_constant_push(7)));
}

#[test]
fn comments_and_empty_lines_are_passed_over() {
    let source = "// A small sum\n\n  push constant 1 // one\n\tpush constant 2 // two // too\n\nadd\n// done\n";
    assert_eq!(
        translate(source).unwrap(),
        emitted(|e| {
            e.emit_constant_push(1);
            e.emit_constant_push(2);
            e.emit_add();
        })
    );
}

#[test]
fn the_file_name_is_the_scope_of_statics_and_of_labels() {
    let mut emitter = Emitter::new();
    Parser::parse_file("push static 3\nlabel X\n", String::from("Foo"), &mut emitter).unwrap();
    let text = emitter.into_output();
    assert!(text.contains("@Foo.3\n"));
    assert!(text.contains("(Foo$X) \n"));
}

#[test]
fn files_share_the_counters_of_one_engine() {
    let mut emitter = Emitter::new();
    Parser::parse_file("eq\ncall f 0\n", String::from("A"), &mut emitter).unwrap();
    Parser::parse_file("eq\ncall f 0\n", String::from("B"), &mut emitter).unwrap();
    let text = emitter.into_output();
    assert!(text.contains("(A-eq-true.0)\n"));
    assert!(text.contains("(B-eq-true.1)\n"));
    assert!(text.contains("(f$ret.0)\n"));
    assert!(text.contains("(f$ret.1)\n"));
}

#[test]
fn a_new_file_closes_the_function_of_the_file_before() {
    let mut emitter = Emitter::new();
    Parser::parse_file("function A.f 0\nlabel X\n", String::from("A"), &mut emitter).unwrap();
    Parser::parse_file("label X\n", String::from("B"), &mut emitter).unwrap();
    let text = emitter.into_output();
    assert!(text.contains("(A.f$X) \n"));
    assert!(text.contains("(B$X) \n"));
}

#[test]
fn pop_constant_is_rejected() {
    assert_eq!(
        rejection("pop constant 0\n"),
        (ParseErrorKind::ExpectedSegment, String::from("constant"), 1, 5)
    );
}

#[test]
fn push_pointer_2_is_rejected_with_the_offset() {
    assert_eq!(
        rejection("push pointer 2\n"),
        (ParseErrorKind::InvalidPointerOffset, String::from("2"), 1, 14)
    );
    assert_eq!(
        rejection("pop pointer 17\n"),
        (ParseErrorKind::InvalidPointerOffset, String::from("17"), 1, 13)
    );
}

#[test]
fn a_token_that_begins_no_command_is_rejected() {
    assert_eq!(rejection("local 1\n"), (ParseErrorKind::UnsupportedToken, String::from("local"), 1, 1));
    assert_eq!(rejection("add\n7\n"), (ParseErrorKind::UnsupportedToken, String::from("7"), 2, 1));
    assert_eq!(rejection("foo\n"), (ParseErrorKind::UnsupportedToken, String::from("foo"), 1, 1));
    assert_eq!(rejection("\n  %\n"), (ParseErrorKind::UnsupportedToken, String::from("%"), 2, 3));
}

#[test]
fn a_missing_or_wrong_segment_is_rejected() {
    assert_eq!(rejection("push 1\n"), (ParseErrorKind::ExpectedSegment, String::from("1"), 1, 6));
    assert_eq!(rejection("push\n"), (ParseErrorKind::ExpectedSegment, String::from("\n"), 1, 5));
    assert_eq!(rejection("pop stack 1\n"), (ParseErrorKind::ExpectedSegment, String::from("stack"), 1, 5));
    assert_eq!(rejection("push"), (ParseErrorKind::ExpectedSegment, String::from(""), 0, 0));
}

#[test]
fn a_missing_or_wrong_number_is_rejected() {
    assert_eq!(rejection("push local\n"), (ParseErrorKind::ExpectedNumber, String::from("\n"), 1, 11));
    assert_eq!(rejection("push local x\n"), (ParseErrorKind::ExpectedNumber, String::from("x"), 1, 12));
    assert_eq!(rejection("pop local -1\n"), (ParseErrorKind::ExpectedNumber, String::from("-"), 1, 11));
    assert_eq!(rejection("function f\n"), (ParseErrorKind::ExpectedNumber, String::from("\n"), 1, 11));
    assert_eq!(rejection("call f g\n"), (ParseErrorKind::ExpectedNumber, String::from("g"), 1, 8));
    assert_eq!(rejection("push local"), (ParseErrorKind::ExpectedNumber, String::from(""), 0, 0));
}

#[test]
fn a_number_beyond_the_machine_word_is_rejected() {
    let huge = "340282366920938463463374607431768211456";
    assert_eq!(
        rejection(&format!("push constant {}\n", huge)),
        (ParseErrorKind::InvalidNumber, String::from(huge), 1, 15)
    );
    assert_eq!(
        rejection(&format!("function f {}\n", huge)),
        (ParseErrorKind::InvalidNumber, String::from(huge), 1, 12)
    );
    let most = format!("{}", usize::MAX);
    assert_eq!(
        rejection(&format!("push temp {}\n", most)),
        (ParseErrorKind::InvalidNumber, most.clone(), 1, 11)
    );
    assert_eq!(
        rejection(&format!("call f {}\n", most)),
        (ParseErrorKind::InvalidNumber, most.clone(), 1, 8)
    );
    assert!(translate(&format!("push constant {}\n", most)).is_ok());
}

#[test]
fn a_missing_or_wrong_name_is_rejected() {
    assert_eq!(rejection("label\n"), (ParseErrorKind::ExpectedIdentifier, String::from("\n"), 1, 6));
    assert_eq!(rejection("goto 5\n"), (ParseErrorKind::ExpectedIdentifier, String::from("5"), 1, 6));
    assert_eq!(rejection("if-goto add\n"), (ParseErrorKind::ExpectedIdentifier, String::from("add"), 1, 9));
    assert_eq!(rejection("function 7 7\n"), (ParseErrorKind::ExpectedIdentifier, String::from("7"), 1, 10));
    assert_eq!(rejection("call local 7\n"), (ParseErrorKind::ExpectedIdentifier, String::from("local"), 1, 6));
}

#[test]
fn a_command_has_to_end_its_line() {
    assert_eq!(rejection("add sub\n"), (ParseErrorKind::ExpectedEndOfLine, String::from("sub"), 1, 5));
    assert_eq!(rejection("push local 1 2\n"), (ParseErrorKind::ExpectedEndOfLine, String::from("2"), 1, 14));
    assert_eq!(rejection("add"), (ParseErrorKind::ExpectedEndOfLine, String::from(""), 0, 0));
    assert_eq!(rejection("add // no end of line"), (ParseErrorKind::ExpectedEndOfLine, String::from(""), 0, 0));
    assert_eq!(rejection("label A B\n"), (ParseErrorKind::ExpectedEndOfLine, String::from("B"), 1, 9));
}

#[test]
fn the_first_error_ends_the_translation() {
    assert_eq!(
        rejection("push constant 1\npop constant 1\npush pointer 5\n"),
        (ParseErrorKind::ExpectedSegment, String::from("constant"), 2, 5)
    );
}

#[test]
fn the_engine_keeps_what_was_written_before_the_error() {
    let mut emitter = Emitter::new();
    let result = Parser::parse_file("add\npop constant 0\n", String::from("Test"), &mut emitter);
    assert!(result.is_err());
    assert_eq!(emitter.into_output(), emitted(|e| e.emit_add()));
}

#[test]
fn tokens_without_an_end_of_file_are_read_as_if_they_had_one() {
    let mut tokens = Lexer::new("add\n").list_all_tokens();
    tokens.pop();
    let mut emitter = Emitter::new();
    let mut parser = Parser::new(tokens);
    parser.generate_assembly(&mut emitter).unwrap();
    let mut direct = Emitter::new();
    direct.emit_add();
    assert_eq!(emitter.into_output(), direct.into_output());

    let mut parser = Parser::new(vec![Token::empty(TokenKind::Push)]);
    let error = parser.generate_assembly(&mut Emitter::new()).unwrap_err();
    assert_eq!(error.kind, ParseErrorKind::ExpectedSegment);
    assert_eq!(error.token.kind, TokenKind::EndOfFile);
}

#[test]
fn nothing_behind_the_end_of_file_is_read() {
    let mut tokens = Lexer::new("add\n").list_all_tokens();
    tokens.extend(Lexer::new("pop constant 0\n").list_all_tokens());
    let mut emitter = Emitter::new();
    Parser::new(tokens).generate_assembly(&mut emitter).unwrap();
    let mut direct = Emitter::new();
    direct.emit_add();
    assert_eq!(emitter.into_output(), direct.into_output());
}
