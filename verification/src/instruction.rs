//! The instruction set: the fields of an instruction, how each is spelled in
//! assembly text, and how each is encoded in a binary word.

use crate::numeral::{binary, push_binary};
use vstd::prelude::*;

verus! {

/// Where a computation's result is stored: any subset of the address
/// register `A`, the data register `D` and the memory cell `M` that `A`
/// selects.
#[derive(Debug, PartialEq, Eq, Clone, Copy, Structural)]
pub enum DestToken {
    A,
    AD,
    ADM,
    AM,
    D,
    Empty,
    M,
    MD,
}

impl DestToken {
    /// The three destination bits: `A` is 4, `D` is 2, `M` is 1.
    pub open spec fn code_of(self) -> nat {
        match self {
            DestToken::Empty => 0,
            DestToken::M => 1,
            DestToken::D => 2,
            DestToken::MD => 3,
            DestToken::A => 4,
            DestToken::AM => 5,
            DestToken::AD => 6,
            DestToken::ADM => 7,
        }
    }

    /// How the destination is spelled in front of the `=` sign.
    pub open spec fn mnemonic(self) -> Seq<char> {
        match self {
            DestToken::Empty => ""@,
            DestToken::M => "M"@,
            DestToken::D => "D"@,
            DestToken::MD => "MD"@,
            DestToken::A => "A"@,
            DestToken::AM => "AM"@,
            DestToken::AD => "AD"@,
            DestToken::ADM => "ADM"@,
        }
    }

    /// Whether the address register is among the destinations.
    pub open spec fn writes_a(self) -> bool {
        self is A || self is AM || self is AD || self is ADM
    }

    /// Whether the data register is among the destinations.
    pub open spec fn writes_d(self) -> bool {
        self is D || self is MD || self is AD || self is ADM
    }

    /// Whether the selected memory cell is among the destinations.
    pub open spec fn writes_m(self) -> bool {
        self is M || self is MD || self is AM || self is ADM
    }

    /// The destination bits.
    pub fn code(&self) -> (code: usize)
        ensures
            code == self.code_of(),
    {
        match self {
            DestToken::Empty => 0,
            DestToken::M => 1,
            DestToken::D => 2,
            DestToken::MD => 3,
            DestToken::A => 4,
            DestToken::AM => 5,
            DestToken::AD => 6,
            DestToken::ADM => 7,
        }
    }

    /// The spelling of the destination.
    pub fn text(&self) -> (text: &'static str)
        ensures
            text@ == self.mnemonic(),
    {
        match self {
            DestToken::Empty => "",
            DestToken::M => "M",
            DestToken::D => "D",
            DestToken::MD => "MD",
            DestToken::A => "A",
            DestToken::AM => "AM",
            DestToken::AD => "AD",
            DestToken::ADM => "ADM",
        }
    }
}

/// What an instruction computes from `A`, `D` and `M`.
#[derive(Debug, PartialEq, Eq, Clone, Copy, Structural)]
pub enum CompToken {
    Zero,
    One,
    A,
    D,
    M,
    AddA1,
    AddD1,
    AddDA,
    AddDM,
    AddM1,
    AndDA,
    AndDM,
    InvertA,
    InvertD,
    InvertM,
    Negate1,
    NegateA,
    NegateD,
    NegateM,
    OrDA,
    OrDM,
    SubA1,
    SubAD,
    SubD1,
    SubDA,
    SubDM,
    SubM1,
    SubMD,
}

impl CompToken {
    /// The seven computation bits: the first says whether the second operand
    /// is `M` rather than `A`, the other six drive the arithmetic unit.
    pub open spec fn code_of(self) -> nat {
        match self {
            CompToken::Zero => 0b0101010,
            CompToken::One => 0b0111111,
            CompToken::A => 0b0110000,
            CompToken::D => 0b0001100,
            CompToken::M => 0b1110000,
            CompToken::AddA1 => 0b0110111,
            CompToken::AddD1 => 0b0011111,
            CompToken::AddDA => 0b0000010,
            CompToken::AddDM => 0b1000010,
            CompToken::AddM1 => 0b1110111,
            CompToken::AndDA => 0b0000000,
            CompToken::AndDM => 0b1000000,
            CompToken::InvertA => 0b0110001,
            CompToken::InvertD => 0b0001101,
            CompToken::InvertM => 0b1110001,
            CompToken::Negate1 => 0b0111010,
            CompToken::NegateA => 0b0110011,
            CompToken::NegateD => 0b0001111,
            CompToken::NegateM => 0b1110011,
            CompToken::OrDA => 0b0010101,
            CompToken::OrDM => 0b1010101,
            CompToken::SubA1 => 0b0110010,
            CompToken::SubAD => 0b0000111,
            CompToken::SubD1 => 0b0001110,
            CompToken::SubDA => 0b0010011,
            CompToken::SubDM => 0b1010011,
            CompToken::SubM1 => 0b1110010,
            CompToken::SubMD => 0b1000111,
        }
    }

    /// How the computation is spelled.
    pub open spec fn mnemonic(self) -> Seq<char> {
        match self {
            CompToken::Zero => "0"@,
            CompToken::One => "1"@,
            CompToken::A => "A"@,
            CompToken::D => "D"@,
            CompToken::M => "M"@,
            CompToken::AddA1 => "A+1"@,
            CompToken::AddD1 => "D+1"@,
            CompToken::AddDA => "D+A"@,
            CompToken::AddDM => "D+M"@,
            CompToken::AddM1 => "M+1"@,
            CompToken::AndDA => "D&A"@,
            CompToken::AndDM => "D&M"@,
            CompToken::InvertA => "!A"@,
            CompToken::InvertD => "!D"@,
            CompToken::InvertM => "!M"@,
            CompToken::Negate1 => "-1"@,
            CompToken::NegateA => "-A"@,
            CompToken::NegateD => "-D"@,
            CompToken::NegateM => "-M"@,
            CompToken::OrDA => "D|A"@,
            CompToken::OrDM => "D|M"@,
            CompToken::SubA1 => "A-1"@,
            CompToken::SubAD => "A-D"@,
            CompToken::SubD1 => "D-1"@,
            CompToken::SubDA => "D-A"@,
            CompToken::SubDM => "D-M"@,
            CompToken::SubM1 => "M-1"@,
            CompToken::SubMD => "M-D"@,
        }
    }

    /// The computation bits.
    pub fn code(&self) -> (code: usize)
        ensures
            code == self.code_of(),
    {
        match self {
            CompToken::Zero => 0b0101010,
            CompToken::One => 0b0111111,
            CompToken::A => 0b0110000,
            CompToken::D => 0b0001100,
            CompToken::M => 0b1110000,
            CompToken::AddA1 => 0b0110111,
            CompToken::AddD1 => 0b0011111,
            CompToken::AddDA => 0b0000010,
            CompToken::AddDM => 0b1000010,
            CompToken::AddM1 => 0b1110111,
            CompToken::AndDA => 0b0000000,
            CompToken::AndDM => 0b1000000,
            CompToken::InvertA => 0b0110001,
            CompToken::InvertD => 0b0001101,
            CompToken::InvertM => 0b1110001,
            CompToken::Negate1 => 0b0111010,
            CompToken::NegateA => 0b0110011,
            CompToken::NegateD => 0b0001111,
            CompToken::NegateM => 0b1110011,
            CompToken::OrDA => 0b0010101,
            CompToken::OrDM => 0b1010101,
            CompToken::SubA1 => 0b0110010,
            CompToken::SubAD => 0b0000111,
            CompToken::SubD1 => 0b0001110,
            CompToken::SubDA => 0b0010011,
            CompToken::SubDM => 0b1010011,
            CompToken::SubM1 => 0b1110010,
            CompToken::SubMD => 0b1000111,
        }
    }

    /// The spelling of the computation.
    pub fn text(&self) -> (text: &'static str)
        ensures
            text@ == self.mnemonic(),
    {
        match self {
            CompToken::Zero => "0",
            CompToken::One => "1",
            CompToken::A => "A",
            CompToken::D => "D",
            CompToken::M => "M",
            CompToken::AddA1 => "A+1",
            CompToken::AddD1 => "D+1",
            CompToken::AddDA => "D+A",
            CompToken::AddDM => "D+M",
            CompToken::AddM1 => "M+1",
            CompToken::AndDA => "D&A",
            CompToken::AndDM => "D&M",
            CompToken::InvertA => "!A",
            CompToken::InvertD => "!D",
            CompToken::InvertM => "!M",
            CompToken::Negate1 => "-1",
            CompToken::NegateA => "-A",
            CompToken::NegateD => "-D",
            CompToken::NegateM => "-M",
            CompToken::OrDA => "D|A",
            CompToken::OrDM => "D|M",
            CompToken::SubA1 => "A-1",
            CompToken::SubAD => "A-D",
            CompToken::SubD1 => "D-1",
            CompToken::SubDA => "D-A",
            CompToken::SubDM => "D-M",
            CompToken::SubM1 => "M-1",
            CompToken::SubMD => "M-D",
        }
    }
}

/// On which sign of the computed value an instruction jumps.
#[derive(Debug, PartialEq, Eq, Clone, Copy, Structural)]
pub enum JumpToken {
    JEQ,
    JGE,
    JGT,
    JLE,
    JLT,
    JMP,
    JNE,
    Empty,
}

impl JumpToken {
    /// The three jump bits: less than zero is 4, zero is 2, greater is 1.
    pub open spec fn code_of(self) -> nat {
        match self {
            JumpToken::Empty => 0,
            JumpToken::JGT => 1,
            JumpToken::JEQ => 2,
            JumpToken::JGE => 3,
            JumpToken::JLT => 4,
            JumpToken::JNE => 5,
            JumpToken::JLE => 6,
            JumpToken::JMP => 7,
        }
    }

    /// How the jump is spelled behind the `;` sign.
    pub open spec fn mnemonic(self) -> Seq<char> {
        match self {
            JumpToken::Empty => ""@,
            JumpToken::JGT => "JGT"@,
            JumpToken::JEQ => "JEQ"@,
            JumpToken::JGE => "JGE"@,
            JumpToken::JLT => "JLT"@,
            JumpToken::JNE => "JNE"@,
            JumpToken::JLE => "JLE"@,
            JumpToken::JMP => "JMP"@,
        }
    }

    /// The jump bits.
    pub fn code(&self) -> (code: usize)
        ensures
            code == self.code_of(),
    {
        match self {
            JumpToken::Empty => 0,
            JumpToken::JGT => 1,
            JumpToken::JEQ => 2,
            JumpToken::JGE => 3,
            JumpToken::JLT => 4,
            JumpToken::JNE => 5,
            JumpToken::JLE => 6,
            JumpToken::JMP => 7,
        }
    }

    /// The spelling of the jump.
    pub fn text(&self) -> (text: &'static str)
        ensures
            text@ == self.mnemonic(),
    {
        match self {
            JumpToken::Empty => "",
            JumpToken::JGT => "JGT",
            JumpToken::JEQ => "JEQ",
            JumpToken::JGE => "JGE",
            JumpToken::JLT => "JLT",
            JumpToken::JNE => "JNE",
            JumpToken::JLE => "JLE",
            JumpToken::JMP => "JMP",
        }
    }
}

/// The mathematical content of an [`AddrToken`].
pub ghost enum Address {
    /// A literal address or constant.
    Number(nat),
    /// A name that stands for an address: a label or a variable.
    Symbol(Seq<char>),
}

/// The operand of an address instruction: a number, or a symbol that is
/// still to be resolved to one.
#[derive(Debug)]
pub enum AddrToken {
    Static(usize),
    Dynamic(String),
}

impl View for AddrToken {
    type V = Address;

    open spec fn view(&self) -> Address {
        match self {
            AddrToken::Static(n) => Address::Number(*n as nat),
            AddrToken::Dynamic(name) => Address::Symbol(name@),
        }
    }
}

/// The mathematical content of an [`Instruction`].
pub ghost enum Operation {
    /// Load the address register.
    Load(Address),
    /// Compute, store, and perhaps jump.
    Compute(DestToken, CompToken, JumpToken),
}

/// One machine instruction.
#[derive(Debug)]
pub enum Instruction {
    Addr(AddrToken),
    Comp(DestToken, CompToken, JumpToken),
}

impl View for Instruction {
    type V = Operation;

    open spec fn view(&self) -> Operation {
        match self {
            Instruction::Addr(addr) => Operation::Load(addr@),
            Instruction::Comp(dest, comp, jump) => Operation::Compute(*dest, *comp, *jump),
        }
    }
}

impl Operation {
    /// Whether the instruction can be encoded: all but a load of a symbol.
    pub open spec fn is_resolved(self) -> bool {
        !(self matches Operation::Load(Address::Symbol(_)))
    }

    /// The instruction as a line of binary digits in ASCII, ended by a line
    /// feed. A load is a `0` and the number in at least fifteen digits; a
    /// computation is `111`, then the seven computation bits, the three
    /// destination bits and the three jump bits.
    pub open spec fn binary_line(self) -> Seq<u8> {
        match self {
            Operation::Load(Address::Number(n)) => seq![48u8] + binary(n, 15) + seq![10u8],
            Operation::Load(Address::Symbol(_)) => Seq::empty(),
            Operation::Compute(dest, comp, jump) => seq![49u8, 49u8, 49u8] + binary(
                comp.code_of(),
                7,
            ) + binary(dest.code_of(), 3) + binary(jump.code_of(), 3) + seq![10u8],
        }
    }
}

impl Instruction {
    /// The binary line of a resolved instruction.
    pub fn to_binary(&self) -> (line: Vec<u8>)
        requires
            self@.is_resolved(),
        ensures
            line@ == self@.binary_line(),
    {
        let mut line: Vec<u8> = Vec::new();
        match self {
            Instruction::Addr(AddrToken::Static(addr)) => {
                line.push(48u8);
                push_binary(&mut line, *addr, 15);
            },
            Instruction::Addr(AddrToken::Dynamic(_)) => {},
            Instruction::Comp(dest, comp, jump) => {
                line.push(49u8);
                line.push(49u8);
                line.push(49u8);
                push_binary(&mut line, comp.code(), 7);
                push_binary(&mut line, dest.code(), 3);
                push_binary(&mut line, jump.code(), 3);
            },
        }
        line.push(10u8);
        line
    }
}

} // verus!
