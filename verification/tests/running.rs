//! The emitted code, assembled and run on a small simulator of the
//! machine.

use hack_toolchain::assembler::generator::Generator;
use hack_toolchain::translator::parser::{Parser, SourceUnit};

const SP: usize = 0;
const LCL: usize = 1;
const ARG: usize = 2;
const THIS: usize = 3;
const THAT: usize = 4;

struct Machine {
    a: u16,
    d: u16,
    pc: usize,
    ram: Vec<u16>,
    rom: Vec<u16>,
}

impl Machine {
    /// A machine with the program in its instruction memory and zeros
    /// everywhere else.
    fn load(assembly: &str) -> Machine {
        let binary = Generator::from_str(assembly).run().unwrap();
        let rom = String::from_utf8(binary)
            .unwrap()
            .lines()
            .map(|line| {
                assert_eq!(line.len(), 16);
                u16::from_str_radix(line, 2).unwrap()
            })
            .collect();
        Machine { a: 0, d: 0, pc: 0, ram: vec![0; 1 << 15], rom }
    }

    fn step(&mut self) {
        let instruction = self.rom[self.pc];
        if instruction & 0x8000 == 0 {
            self.a = instruction;
            self.pc += 1;
            return;
        }
        let bit = |n: u16| instruction & (1 << n) != 0;
        let mut x = self.d;
        let mut y = if bit(12) { self.ram[self.a as usize] } else { self.a };
        if bit(11) {
            x = 0;
        }
        if bit(10) {
            x = !x;
        }
        if bit(9) {
            y = 0;
        }
        if bit(8) {
            y = !y;
        }
        let mut out = if bit(7) { x.wrapping_add(y) } else { x & y };
        if bit(6) {
            out = !out;
        }
        if bit(3) {
            self.ram[self.a as usize] = out;
        }
        if bit(5) {
            self.a = out;
        }
        if bit(4) {
            self.d = out;
        }
        let signed = out as i16;
        let jump = (bit(2) && signed < 0) || (bit(1) && signed == 0) || (bit(0) && signed > 0);
        if jump {
            self.pc = self.a as usize;
        } else {
            self.pc += 1;
        }
    }

    /// Runs to the end of the program.
    fn run_through(&mut self) {
        let mut steps = 0;
        while self.pc < self.rom.len() {
            self.step();
            steps += 1;
            assert!(steps < 1_000_000, "the program does not come to its end");
        }
    }

    /// Runs until the instruction at `pc` is reached.
    fn run_to(&mut self, pc: usize) {
        let mut steps = 0;
        while self.pc != pc {
            self.step();
            steps += 1;
            assert!(steps < 1_000_000, "the program does not come to {}", pc);
        }
    }

    fn top(&self) -> u16 {
        self.ram[self.ram[SP] as usize - 1]
    }
}

fn translate(source: &str) -> String {
    let units = vec![SourceUnit { name: String::from("Test"), source: String::from(source) }];
    Parser::parse(&units, false).unwrap()
}

/// A machine that has run the commands with the stack at 256 and the
/// segments at 300, 400, 3000 and 3010.
fn run(source: &str) -> Machine {
    let mut machine = Machine::load(&translate(source));
    machine.ram[SP] = 256;
    machine.ram[LCL] = 300;
    machine.ram[ARG] = 400;
    machine.ram[THIS] = 3000;
    machine.ram[THAT] = 3010;
    machine.run_through();
    machine
}

/// The address of the first instruction behind the definition of the
/// label in the assembly text.
fn address_of(assembly: &str, label: &str) -> usize {
    let mut address = 0;
    for line in assembly.lines() {
        let line = line.trim();
        if line == format!("({})", label) {
            return address;
        }
        if !line.is_empty() && !line.starts_with("//") && !line.starts_with('(') {
            address += 1;
        }
    }
    panic!("no label {}", label);
}

#[test]
fn a_constant_pushed_and_popped_arrives_in_the_named_cell() {
    let cases = [
        ("local", 0, 300),
        ("local", 7, 307),
        ("argument", 2, 402),
        ("this", 5, 3005),
        ("that", 9, 3019),
        ("temp", 0, 5),
        ("temp", 7, 12),
        ("static", 3, 16),
    ];
    for k in [0u16, 1, 57, 256, 32767] {
        for (segment, number, cell) in cases {
            let machine = run(&format!("push constant {}\npop {} {}\n", k, segment, number));
            assert_eq!(machine.ram[cell], k, "pop {} {}", segment, number);
            assert_eq!(machine.ram[SP], 256, "pop {} {}", segment, number);
        }
        let machine = run(&format!("push constant {}\npop pointer 0\n", k));
        assert_eq!((machine.ram[THIS], machine.ram[SP]), (k, 256));
        let machine = run(&format!("push constant {}\npop pointer 1\n", k));
        assert_eq!((machine.ram[THAT], machine.ram[SP]), (k, 256));
    }
}

#[test]
fn with_the_stack_pointer_at_the_scratch_cell_the_value_is_lost() {
    let mut machine = Machine::load(&translate("push constant 57\npop local 2\n"));
    machine.ram[SP] = 13;
    machine.ram[LCL] = 300;
    machine.run_through();
    assert_ne!(machine.ram[302], 57);
}

#[test]
fn a_push_reads_what_a_pop_has_written() {
    for segment in ["local", "argument", "this", "that", "temp", "static"] {
        let machine = run(&format!(
            "push constant 11\npop {0} 1\npush constant 22\npop {0} 2\npush {0} 1\npush {0} 2\n",
            segment
        ));
        assert_eq!(machine.ram[SP], 258, "{}", segment);
        assert_eq!((machine.ram[256], machine.ram[257]), (11, 22), "{}", segment);
    }
    let machine = run("push pointer 0\npush pointer 1\n");
    assert_eq!((machine.ram[256], machine.ram[257], machine.ram[SP]), (3000, 3010, 258));
}

#[test]
fn arithmetic_works_on_the_top_of_the_stack() {
    let result = |source: &str| {
        let machine = run(source);
        assert_eq!(machine.ram[SP], 257);
        machine.top()
    };
    assert_eq!(result("push constant 7\npush constant 8\nadd\n"), 15);
    assert_eq!(result("push constant 7\npush constant 8\nsub\n"), 0xffff);
    assert_eq!(result("push constant 8\npush constant 7\nsub\n"), 1);
    assert_eq!(result("push constant 12\npush constant 10\nand\n"), 8);
    assert_eq!(result("push constant 12\npush constant 10\nor\n"), 14);
    assert_eq!(result("push constant 1\nneg\n"), 0xffff);
    assert_eq!(result("push constant 0\nnot\n"), 0xffff);
    assert_eq!(result("push constant 32767\npush constant 1\nadd\n"), 0x8000);
}

#[test]
fn comparisons_give_all_ones_or_all_zeros() {
    let result = |first: u16, command: &str, second: u16| {
        let machine = run(&format!("push constant {}\npush constant {}\n{}\n", first, second, command));
        assert_eq!(machine.ram[SP], 257);
        machine.top()
    };
    assert_eq!(result(3, "eq", 3), 0xffff);
    assert_eq!(result(3, "eq", 4), 0);
    assert_eq!(result(4, "gt", 3), 0xffff);
    assert_eq!(result(3, "gt", 3), 0);
    assert_eq!(result(3, "gt", 4), 0);
    assert_eq!(result(3, "lt", 4), 0xffff);
    assert_eq!(result(3, "lt", 3), 0);
    assert_eq!(result(4, "lt", 3), 0);
}

#[test]
fn comparisons_in_a_row_do_not_share_their_labels() {
    let machine = run(
        "push constant 1\npush constant 2\nlt\npush constant 2\npush constant 1\nlt\npush constant 5\npush constant 5\neq\npush constant 5\npush constant 6\neq\n",
    );
    assert_eq!(machine.ram[SP], 260);
    assert_eq!(&machine.ram[256..260], &[0xffff, 0, 0xffff, 0]);
}

#[test]
fn a_loop_runs_as_often_as_its_counter_says() {
    // local 0 counts down from 10, local 1 sums up what it counts
    let machine = run(
        "push constant 10\npop local 0\npush constant 0\npop local 1\nlabel LOOP\npush local 0\npush local 1\nadd\npop local 1\npush local 0\npush constant 1\nsub\npop local 0\npush local 0\nif-goto LOOP\npush local 1\n",
    );
    assert_eq!(machine.top(), 55);
    assert_eq!(machine.ram[SP], 257);
}

#[test]
fn a_goto_passes_over_what_lies_between() {
    let machine = run("push constant 1\ngoto END\npush constant 2\nlabel END\npush constant 3\n");
    assert_eq!(machine.ram[SP], 258);
    assert_eq!(&machine.ram[256..258], &[1, 3]);
}

#[test]
fn a_function_sets_its_locals_to_zero() {
    let mut machine = Machine::load(&translate("function f 3\n"));
    machine.ram[SP] = 256;
    machine.ram[256] = 7;
    machine.ram[257] = 8;
    machine.ram[258] = 9;
    machine.run_through();
    assert_eq!(machine.ram[SP], 259);
    assert_eq!(&machine.ram[256..259], &[0, 0, 0]);
}

#[test]
fn a_return_undoes_what_the_call_did_to_the_frame() {
    let source = "function Sys.init 0\n\
                  push constant 3000\n\
                  pop pointer 0\n\
                  push constant 3010\n\
                  pop pointer 1\n\
                  push constant 11\n\
                  push constant 22\n\
                  push constant 33\n\
                  call Test.work 2\n\
                  label HALT\n\
                  goto HALT\n\
                  function Test.work 2\n\
                  push constant 4000\n\
                  pop pointer 0\n\
                  push constant 4010\n\
                  pop pointer 1\n\
                  push argument 0\n\
                  push argument 1\n\
                  add\n\
                  pop local 1\n\
                  push local 1\n\
                  return\n";
    let units = vec![SourceUnit { name: String::from("Test"), source: String::from(source) }];
    let assembly = Parser::parse(&units, true).unwrap();
    let mut machine = Machine::load(&assembly);
    machine.run_to(address_of(&assembly, "Test.work"));
    // the frame of the call: after the bootstrap the stack of Sys.init begins at 261
    assert_eq!(machine.ram[SP], 269);
    assert_eq!(machine.ram[LCL], 269);
    assert_eq!(machine.ram[ARG], 262);
    assert_eq!(machine.ram[264] as usize, address_of(&assembly, "Test.work$ret.1"));
    assert_eq!(&machine.ram[265..269], &[261, 256, 3000, 3010]);
    machine.run_to(address_of(&assembly, "Test.work$ret.1"));
    assert_eq!(machine.ram[LCL], 261);
    assert_eq!(machine.ram[ARG], 256);
    assert_eq!(machine.ram[THIS], 3000);
    assert_eq!(machine.ram[THAT], 3010);
    // one value where the first argument was, and the value below it as it was
    assert_eq!(machine.ram[SP], 263);
    assert_eq!(machine.ram[262], 55);
    assert_eq!(machine.ram[261], 11);
}

#[test]
fn a_return_from_a_call_without_arguments_takes_the_place_of_the_return_address() {
    let source = "function Sys.init 0\n\
                  call Test.seven 0\n\
                  label HALT\n\
                  goto HALT\n\
                  function Test.seven 0\n\
                  push constant 7\n\
                  return\n";
    let units = vec![SourceUnit { name: String::from("Test"), source: String::from(source) }];
    let assembly = Parser::parse(&units, true).unwrap();
    let mut machine = Machine::load(&assembly);
    machine.run_to(address_of(&assembly, "Test.seven$ret.1"));
    assert_eq!(machine.ram[SP], 262);
    assert_eq!(machine.ram[261], 7);
    assert_eq!((machine.ram[LCL], machine.ram[ARG]), (261, 256));
}

#[test]
fn deeply_nested_calls_come_back_one_by_one() {
    // sum(n) = n + sum(n - 1), sum(0) = 0
    let source = "function Sys.init 0\n\
                  push constant 1234\n\
                  pop pointer 0\n\
                  push constant 200\n\
                  call Test.sum 1\n\
                  label HALT\n\
                  goto HALT\n\
                  function Test.sum 1\n\
                  push argument 0\n\
                  pop pointer 1\n\
                  push argument 0\n\
                  push constant 0\n\
                  eq\n\
                  if-goto BASE\n\
                  push argument 0\n\
                  push argument 0\n\
                  push constant 1\n\
                  sub\n\
                  call Test.sum 1\n\
                  add\n\
                  return\n\
                  label BASE\n\
                  push constant 0\n\
                  return\n";
    let units = vec![SourceUnit { name: String::from("Test"), source: String::from(source) }];
    let assembly = Parser::parse(&units, true).unwrap();
    let mut machine = Machine::load(&assembly);
    machine.run_to(address_of(&assembly, "Test.sum$ret.1"));
    assert_eq!(machine.ram[SP], 262);
    assert_eq!(machine.ram[261], 20100);
    assert_eq!(machine.ram[LCL], 261);
    assert_eq!(machine.ram[ARG], 256);
    assert_eq!(machine.ram[THIS], 1234);
    assert_eq!(machine.ram[THAT], 0);
}

#[test]
fn the_same_label_in_two_functions_is_two_places() {
    let source = "function Sys.init 0\n\
                  call Test.a 0\n\
                  call Test.b 0\n\
                  add\n\
                  label HALT\n\
                  goto HALT\n\
                  function Test.a 0\n\
                  goto OUT\n\
                  push constant 1\n\
                  return\n\
                  label OUT\n\
                  push constant 10\n\
                  return\n\
                  function Test.b 0\n\
                  goto OUT\n\
                  push constant 2\n\
                  return\n\
                  label OUT\n\
                  push constant 20\n\
                  return\n";
    let units = vec![SourceUnit { name: String::from("Test"), source: String::from(source) }];
    let assembly = Parser::parse(&units, true).unwrap();
    assert!(assembly.contains("(Test.a$OUT) \n"));
    assert!(assembly.contains("(Test.b$OUT) \n"));
    let mut machine = Machine::load(&assembly);
    machine.run_to(address_of(&assembly, "Sys.init$HALT"));
    assert_eq!(machine.top(), 30);
}

#[test]
fn the_same_static_in_two_files_is_two_cells() {
    let units = vec![
        SourceUnit {
            name: String::from("Sys"),
            source: String::from(
                "function Sys.init 0\ncall Foo.set 0\ncall Bar.set 0\ncall Foo.get 0\ncall Bar.get 0\nlabel HALT\ngoto HALT\n",
            ),
        },
        SourceUnit {
            name: String::from("Foo"),
            source: String::from(
                "function Foo.set 0\npush constant 111\npop static 3\npush constant 0\nreturn\nfunction Foo.get 0\npush static 3\nreturn\n",
            ),
        },
        SourceUnit {
            name: String::from("Bar"),
            source: String::from(
                "function Bar.set 0\npush constant 222\npop static 3\npush constant 0\nreturn\nfunction Bar.get 0\npush static 3\nreturn\n",
            ),
        },
    ];
    let assembly = Parser::parse(&units, true).unwrap();
    assert!(assembly.contains("@Foo.3\n"));
    assert!(assembly.contains("@Bar.3\n"));
    let mut machine = Machine::load(&assembly);
    machine.run_to(address_of(&assembly, "Sys.init$HALT"));
    let sp = machine.ram[SP] as usize;
    assert_eq!(&machine.ram[sp - 2..sp], &[111, 222]);
}

#[test]
fn the_bootstrap_comes_once_and_first() {
    let units = vec![
        SourceUnit { name: String::from("A"), source: String::from("function Sys.init 0\n") },
        SourceUnit { name: String::from("B"), source: String::from("add\n") },
    ];
    let with = Parser::parse(&units, true).unwrap();
    let without = Parser::parse(&units, false).unwrap();
    assert!(with.starts_with("\n// Bootstrap\n@256\nD=A\n@SP\nM=D\n\n// call Sys.init 0\n"));
    assert_eq!(with.matches("// Bootstrap").count(), 1);
    assert!(with.ends_with(&without));
    assert!(!without.contains("// Bootstrap"));
}

#[test]
fn a_program_without_a_source_file_is_rejected() {
    assert!(matches!(
        Parser::parse(&Vec::new(), true),
        Err(hack_toolchain::translator::parser::TranslationError::NoSource)
    ));
    assert!(matches!(
        Parser::parse(&Vec::new(), false),
        Err(hack_toolchain::translator::parser::TranslationError::NoSource)
    ));
}

#[test]
fn an_error_names_its_file_and_leaves_no_text() {
    let units = vec![
        SourceUnit { name: String::from("Good"), source: String::from("add\n") },
        SourceUnit { name: String::from("Bad"), source: String::from("add\npop constant 0\n") },
        SourceUnit { name: String::from("Worse"), source: String::from("push pointer 2\n") },
    ];
    match Parser::parse(&units, true) {
        Err(hack_toolchain::translator::parser::TranslationError::Rejected { file, error }) => {
            assert_eq!(file, "Bad");
            assert_eq!(
                error.kind,
                hack_toolchain::translator::parser::ParseErrorKind::ExpectedSegment
            );
            assert_eq!((error.token.beg_row, error.token.beg_col), (2, 5));
        }
        other => panic!("expected a rejection but got {:?}", other),
    }
}

#[test]
fn the_name_of_a_source_file_ends_in_its_extension() {
    assert_eq!(Parser::source_name("Main.vm"), Some(String::from("Main")));
    assert_eq!(Parser::source_name("a.b.vm"), Some(String::from("a.b")));
    assert_eq!(Parser::source_name("x.vm.vm"), Some(String::from("x.vm")));
    assert_eq!(Parser::source_name(".vm"), None);
    assert_eq!(Parser::source_name("vm"), None);
    assert_eq!(Parser::source_name(""), None);
    assert_eq!(Parser::source_name("Main.asm"), None);
    assert_eq!(Parser::source_name("Main.vm "), None);
    assert_eq!(Parser::source_name("Main.VM"), None);
    assert_eq!(Parser::source_name("Mainvm"), None);
}
