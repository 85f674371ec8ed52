use hack_toolchain::assembler::generator::Generator;
use hack_toolchain::assembler::lexer::{LexError, LexErrorKind, Lexer, Token};
use hack_toolchain::assembler::parser::{AssemblyError, Parser};
use hack_toolchain::instruction::{AddrToken, CompToken, DestToken, Instruction, JumpToken};

/// The tokens of the text, as they are printed.
fn tokens(source: &str) -> Result<Vec<String>, LexError> {
    let mut lexer = Lexer::from_str(source);
    let mut tokens = Vec::new();
    while let Some(token) = lexer.next_token()? {
        tokens.push(format!("{:?}", token));
    }
    Ok(tokens)
}

/// The instructions of the text, as they are printed.
fn instructions(source: &str) -> Result<Vec<String>, AssemblyError> {
    Ok(Parser::from_str(source)?
        .into_instructions()
        .iter()
        .map(|instruction| format!("{:?}", instruction))
        .collect())
}

fn binary(source: &str) -> String {
    let bytes = Generator::from_str(source).run().unwrap();
    String::from_utf8(bytes).unwrap()
}

#[test]
fn simplest_instruction() {
    let mut lex = Lexer::from_str("0");
    let dest = lex.next_token();
    let comp = lex.next_token();
    let jump = lex.next_token();
    let eof = lex.next_token();
    let actual = (dest, comp, jump, eof);

    match actual {
        (
            Ok(Some(Token::Dest(DestToken::Empty))),
            Ok(Some(Token::Comp(CompToken::Zero))),
            Ok(Some(Token::Jump(JumpToken::Empty))),
            Ok(None),
        ) => {}
        _ => panic!(
            "expected (Some(Dest(Empty)), Some(Comp(Zero)), Some(Jump(Empty)), None) but got {:?}",
            actual
        ),
    }
}

#[test]
fn an_empty_text_has_no_tokens() {
    assert_eq!(tokens("").unwrap(), Vec::<String>::new());
    assert_eq!(tokens("  \n\t\r\n// nothing\n").unwrap(), Vec::<String>::new());
    assert_eq!(tokens("// no end of line").unwrap(), Vec::<String>::new());
}

#[test]
fn the_end_of_the_text_comes_again_and_again() {
    let mut lexer = Lexer::from_str("@1");
    assert!(matches!(lexer.next_token(), Ok(Some(Token::Addr(AddrToken::Static(1))))));
    assert!(matches!(lexer.next_token(), Ok(None)));
    assert!(matches!(lexer.next_token(), Ok(None)));
}

#[test]
fn an_address_is_a_number_or_a_symbol() {
    assert_eq!(
        tokens("@17\n@sum\n@Foo.bar$ret.3\n@_x-1\n").unwrap(),
        vec![
            "Addr(Static(17))",
            "Addr(Dynamic(\"sum\"))",
            "Addr(Dynamic(\"Foo.bar$ret.3\"))",
            "Addr(Dynamic(\"_x-1\"))",
        ]
    );
}

#[test]
fn an_address_without_operand_makes_no_token() {
    assert_eq!(tokens("@\n@ // nothing\n").unwrap(), Vec::<String>::new());
}

#[test]
fn an_address_too_large_to_count_makes_no_token() {
    assert_eq!(
        tokens("@340282366920938463463374607431768211456\n@1\n").unwrap(),
        vec!["Addr(Static(1))"]
    );
}

#[test]
fn a_label_stands_in_round_brackets() {
    assert_eq!(
        tokens("(LOOP)\n(Main.f$ret.0) // back\n").unwrap(),
        vec!["Label(\"LOOP\")", "Label(\"Main.f$ret.0\")"]
    );
}

#[test]
fn a_computation_has_three_tokens() {
    assert_eq!(
        tokens("D=M\n").unwrap(),
        vec!["Dest(D)", "Comp(M)", "Jump(Empty)"]
    );
    assert_eq!(
        tokens("0;JMP\n").unwrap(),
        vec!["Dest(Empty)", "Comp(Zero)", "Jump(JMP)"]
    );
    assert_eq!(
        tokens("AM=M-1 // down\nMD=M+1\nADM=D|M;JNE").unwrap(),
        vec![
            "Dest(AM)",
            "Comp(SubM1)",
            "Jump(Empty)",
            "Dest(MD)",
            "Comp(AddM1)",
            "Jump(Empty)",
            "Dest(ADM)",
            "Comp(OrDM)",
            "Jump(JNE)",
        ]
    );
}

#[test]
fn every_computation_is_read_by_its_longest_spelling() {
    let spellings = [
        ("0", "Zero"),
        ("1", "One"),
        ("A", "A"),
        ("D", "D"),
        ("M", "M"),
        ("A+1", "AddA1"),
        ("D+1", "AddD1"),
        ("D+A", "AddDA"),
        ("D+M", "AddDM"),
        ("M+1", "AddM1"),
        ("D&A", "AndDA"),
        ("D&M", "AndDM"),
        ("!A", "InvertA"),
        ("!D", "InvertD"),
        ("!M", "InvertM"),
        ("-1", "Negate1"),
        ("-A", "NegateA"),
        ("-D", "NegateD"),
        ("-M", "NegateM"),
        ("D|A", "OrDA"),
        ("D|M", "OrDM"),
        ("A-1", "SubA1"),
        ("A-D", "SubAD"),
        ("D-1", "SubD1"),
        ("D-A", "SubDA"),
        ("D-M", "SubDM"),
        ("M-1", "SubM1"),
        ("M-D", "SubMD"),
    ];
    for (spelling, name) in spellings {
        assert_eq!(
            tokens(&format!("D={}\n", spelling)).unwrap(),
            vec![String::from("Dest(D)"), format!("Comp({})", name), String::from("Jump(Empty)")]
        );
    }
}

#[test]
fn every_jump_and_every_destination_is_read() {
    for jump in ["JGT", "JEQ", "JGE", "JLT", "JNE", "JLE", "JMP"] {
        assert_eq!(
            tokens(&format!("D;{}", jump)).unwrap(),
            vec![String::from("Dest(Empty)"), String::from("Comp(D)"), format!("Jump({})", jump)]
        );
    }
    for dest in ["A", "AD", "ADM", "AM", "D", "MD", "M"] {
        assert_eq!(
            tokens(&format!("{}=0", dest)).unwrap(),
            vec![format!("Dest({})", dest), String::from("Comp(Zero)"), String::from("Jump(Empty)")]
        );
    }
}

#[test]
fn lexical_errors_come_with_row_and_column() {
    assert_eq!(
        tokens("@1\n  (9)\n"),
        Err(LexError { kind: LexErrorKind::InvalidLabel, row: 2, col: 4, found: Some('9') })
    );
    assert_eq!(
        tokens("(LOOP\n"),
        Err(LexError { kind: LexErrorKind::InvalidLabel, row: 1, col: 6, found: Some('\n') })
    );
    assert_eq!(
        tokens("("),
        Err(LexError { kind: LexErrorKind::InvalidLabel, row: 1, col: 2, found: None })
    );
    assert_eq!(
        tokens("D=M\nD=X\n"),
        Err(LexError { kind: LexErrorKind::InvalidComputation, row: 2, col: 3, found: Some('X') })
    );
    assert_eq!(
        tokens("0;JUMP\n"),
        Err(LexError { kind: LexErrorKind::InvalidJump, row: 1, col: 3, found: Some('J') })
    );
    assert_eq!(
        tokens("@1 @2\n"),
        Err(LexError { kind: LexErrorKind::UnexpectedCharacter, row: 1, col: 4, found: Some('@') })
    );
    assert_eq!(
        tokens("D=M+1+1\n"),
        Err(LexError { kind: LexErrorKind::UnexpectedCharacter, row: 1, col: 6, found: Some('+') })
    );
}

#[test]
fn numbers_stay_and_known_symbols_give_way_to_their_numbers() {
    assert_eq!(
        instructions("@5\n@SP\n@LCL\n@ARG\n@THIS\n@THAT\n@R13\n@SCREEN\n@KBD\n").unwrap(),
        vec![
            "Addr(Static(5))",
            "Addr(Static(0))",
            "Addr(Static(1))",
            "Addr(Static(2))",
            "Addr(Static(3))",
            "Addr(Static(4))",
            "Addr(Static(13))",
            "Addr(Static(16384))",
            "Addr(Static(24576))",
        ]
    );
}

#[test]
fn a_label_stands_for_the_address_of_the_next_instruction() {
    assert_eq!(
        instructions("@END\n(LOOP)\nD=M\n@LOOP\n0;JMP\n(END)\n@END\n").unwrap(),
        vec![
            "Addr(Static(4))",
            "Comp(D, M, Empty)",
            "Addr(Static(1))",
            "Comp(Empty, Zero, JMP)",
            "Addr(Static(4))",
        ]
    );
}

#[test]
fn variables_get_the_cells_from_16_on_in_the_order_they_come() {
    assert_eq!(
        instructions("@Foo.3\n@i\n@Foo.3\n@Bar.3\n@i\n").unwrap(),
        vec![
            "Addr(Static(16))",
            "Addr(Static(17))",
            "Addr(Static(16))",
            "Addr(Static(18))",
            "Addr(Static(17))",
        ]
    );
}

#[test]
fn a_label_defined_twice_is_an_error() {
    assert!(matches!(
        Parser::from_str("(A)\n@1\n(A)\n"),
        Err(AssemblyError::LabelDefinedTwice(label)) if label == "A"
    ));
    assert!(matches!(
        Parser::from_str("(SP)\n"),
        Err(AssemblyError::LabelDefinedTwice(label)) if label == "SP"
    ));
}

#[test]
fn a_lexical_error_ends_the_assembly() {
    assert!(matches!(
        Parser::from_str("@1\nD=Q\n"),
        Err(AssemblyError::Lexical(LexError {
            kind: LexErrorKind::InvalidComputation,
            row: 2,
            col: 3,
            found: Some('Q'),
        }))
    ));
}

#[test]
fn instructions_are_encoded_in_sixteen_binary_digits() {
    let cases = [
        (Instruction::Addr(AddrToken::Static(0)), "0000000000000000\n"),
        (Instruction::Addr(AddrToken::Static(2)), "0000000000000010\n"),
        (Instruction::Addr(AddrToken::Static(32767)), "0111111111111111\n"),
        (
            Instruction::Comp(DestToken::D, CompToken::A, JumpToken::Empty),
            "1110110000010000\n",
        ),
        (
            Instruction::Comp(DestToken::M, CompToken::AddDM, JumpToken::Empty),
            "1111000010001000\n",
        ),
        (
            Instruction::Comp(DestToken::Empty, CompToken::Zero, JumpToken::JMP),
            "1110101010000111\n",
        ),
        (
            Instruction::Comp(DestToken::Empty, CompToken::D, JumpToken::JGT),
            "1110001100000001\n",
        ),
        (
            Instruction::Comp(DestToken::ADM, CompToken::SubMD, JumpToken::JLE),
            "1111000111111110\n",
        ),
        (
            Instruction::Comp(DestToken::AM, CompToken::SubM1, JumpToken::Empty),
            "1111110010101000\n",
        ),
    ];
    for (instruction, line) in cases {
        assert_eq!(String::from_utf8(instruction.to_binary()).unwrap(), line);
    }
}

#[test]
fn the_codes_of_the_fields_are_those_of_the_machine() {
    assert_eq!(DestToken::Empty.code(), 0);
    assert_eq!(DestToken::M.code(), 1);
    assert_eq!(DestToken::D.code(), 2);
    assert_eq!(DestToken::MD.code(), 3);
    assert_eq!(DestToken::A.code(), 4);
    assert_eq!(DestToken::AM.code(), 5);
    assert_eq!(DestToken::AD.code(), 6);
    assert_eq!(DestToken::ADM.code(), 7);
    assert_eq!(JumpToken::Empty.code(), 0);
    assert_eq!(JumpToken::JGT.code(), 1);
    assert_eq!(JumpToken::JEQ.code(), 2);
    assert_eq!(JumpToken::JGE.code(), 3);
    assert_eq!(JumpToken::JLT.code(), 4);
    assert_eq!(JumpToken::JNE.code(), 5);
    assert_eq!(JumpToken::JLE.code(), 6);
    assert_eq!(JumpToken::JMP.code(), 7);
    assert_eq!(CompToken::Zero.code(), 0b0101010);
    assert_eq!(CompToken::One.code(), 0b0111111);
    assert_eq!(CompToken::Negate1.code(), 0b0111010);
    assert_eq!(CompToken::D.code(), 0b0001100);
    assert_eq!(CompToken::A.code(), 0b0110000);
    assert_eq!(CompToken::M.code(), 0b1110000);
    assert_eq!(CompToken::AddDM.code(), 0b1000010);
    assert_eq!(CompToken::SubMD.code(), 0b1000111);
    assert_eq!(CompToken::AndDA.code(), 0);
    assert_eq!(CompToken::OrDM.code(), 0b1010101);
}

#[test]
fn the_fields_are_spelled_as_the_assembler_reads_them() {
    assert_eq!(DestToken::AM.text(), "AM");
    assert_eq!(DestToken::Empty.text(), "");
    assert_eq!(CompToken::SubMD.text(), "M-D");
    assert_eq!(CompToken::Negate1.text(), "-1");
    assert_eq!(JumpToken::JNE.text(), "JNE");
    assert_eq!(JumpToken::Empty.text(), "");
}

#[test]
fn a_small_program_is_assembled() {
    let source = "// Computes R0 = 2 + 3\n\n@2\nD=A\n@3\nD=D+A\n@0\nM=D\n";
    assert_eq!(
        binary(source),
        "0000000000000010\n\
         1110110000010000\n\
         0000000000000011\n\
         1110000010010000\n\
         0000000000000000\n\
         1110001100001000\n"
    );
}

#[test]
fn a_program_with_symbols_is_assembled() {
    let source = "   @i\n   M=1 // i = 1\n(LOOP)\n   @i\n   D=M\n   @100\n   D=D-A\n   @END\n   D;JGT\n   @i\n   M=M+1\n   @LOOP\n   0;JMP\n(END)\n   @END\n   0;JMP\r\n";
    assert_eq!(
        binary(source),
        "0000000000010000\n\
         1110111111001000\n\
         0000000000010000\n\
         1111110000010000\n\
         0000000001100100\n\
         1110010011010000\n\
         0000000000001100\n\
         1110001100000001\n\
         0000000000010000\n\
         1111110111001000\n\
         0000000000000010\n\
         1110101010000111\n\
         0000000000001100\n\
         1110101010000111\n"
    );
}

#[test]
fn the_same_text_can_be_assembled_again() {
    let mut generator = Generator::from_str("@1\n");
    assert_eq!(generator.run().unwrap(), b"0000000000000001\n".to_vec());
    assert_eq!(generator.run().unwrap(), b"0000000000000001\n".to_vec());
}

#[test]
fn an_error_leaves_no_binary() {
    assert!(matches!(
        Generator::from_str("@1\n(1)\n").run(),
        Err(AssemblyError::Lexical(LexError {
            kind: LexErrorKind::InvalidLabel,
            row: 2,
            col: 2,
            found: Some('1'),
        }))
    ));
}
