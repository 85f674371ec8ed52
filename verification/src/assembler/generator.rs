//! The assembler as a whole: from assembly text to the text of the binary
//! program, one line of sixteen binary digits for each instruction.

use crate::assembler::lexer::LexerState;
use crate::assembler::parser::{
    all_resolved, assembled, first_pass, lemma_second_pass_resolves, operations, predefined,
    AssemblyError, AssemblyErrorModel, Gathered, Parser, LAST_REGISTER,
};
use crate::instruction::Operation;
use vstd::prelude::*;
use vstd::string::StringSliceAdditionalSpecFns;

verus! {

/// The binary lines of the instructions, one after the other.
pub open spec fn binary_text(operations: Seq<Operation>) -> Seq<u8>
    decreases operations.len(),
{
    if operations.len() == 0 {
        Seq::empty()
    } else {
        binary_text(operations.drop_last()) + operations.last().binary_line()
    }
}

/// What the assembler makes of a text: the binary program, or the error
/// that the text holds. A text of as many bytes as the machine word of the
/// assembler can count is too long.
pub open spec fn generated(bytes: Seq<u8>) -> Result<Seq<u8>, AssemblyErrorModel> {
    if bytes.len() >= usize::MAX {
        Err(AssemblyErrorModel::SourceTooLong)
    } else {
        match assembled(bytes) {
            Ok(operations) => Ok(binary_text(operations)),
            Err(error) => Err(error),
        }
    }
}

/// What is assembled has no symbols left.
pub proof fn lemma_assembled_is_resolved(bytes: Seq<u8>)
    ensures
        assembled(bytes) matches Ok(operations) ==> all_resolved(operations),
{
    match first_pass(
        bytes,
        LexerState::InstructionStart,
        0,
        Gathered { symbols: predefined(), instructions: Seq::empty() },
    ) {
        Ok(gathered) => {
            lemma_second_pass_resolves(gathered.instructions, 0, gathered.symbols, LAST_REGISTER);
        },
        Err(_) => {},
    }
}

/// An assembler for one source text.
pub struct Generator<'a> {
    source: &'a str,
}

impl<'a> Generator<'a> {
    /// The source text.
    pub closed spec fn source(&self) -> Seq<u8> {
        self.source.spec_bytes()
    }

    /// An assembler for the text `source`.
    pub fn from_str(source: &'a str) -> (generator: Generator<'a>)
        ensures
            generator.source() == source.spec_bytes(),
    {
        Generator { source }
    }

    /// Assembles the source and hands back the text of the binary program.
    pub fn run(&mut self) -> (result: Result<Vec<u8>, AssemblyError>)
        ensures
            final(self).source() == old(self).source(),
            match result {
                Ok(binary) => generated(old(self).source()) == Ok::<Seq<u8>, AssemblyErrorModel>(
                    binary@,
                ),
                Err(error) => generated(old(self).source()) == Err::<Seq<u8>, AssemblyErrorModel>(
                    error@,
                ),
            },
    {
        if self.source.as_bytes().len() == usize::MAX {
            return Err(AssemblyError::SourceTooLong);
        }
        let instructions = match Parser::from_str(self.source) {
            Ok(parser) => parser.into_instructions(),
            Err(error) => {
                return Err(error);
            },
        };
        proof {
            lemma_assembled_is_resolved(self.source());
        }
        let ghost all = operations(instructions@);
        let mut binary: Vec<u8> = Vec::new();
        for instruction in it: instructions
            invariant
                operations(it.seq()) == all,
                all_resolved(all),
                binary@ == binary_text(all.take(it.index() as int)),
        {
            let ghost i = it.index() as int;
            assert(instruction@ == all[i]);
            assert(all.len() == it.seq().len());
            let mut line = instruction.to_binary();
            binary.append(&mut line);
            proof {
                assert(all.take(i + 1).drop_last() =~= all.take(i));
                assert(all.take(i + 1).last() == all[i]);
            }
        }
        proof {
            assert(all.take(all.len() as int) =~= all);
        }
        Ok(binary)
    }
}

} // verus!
