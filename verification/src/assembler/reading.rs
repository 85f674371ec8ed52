//! The assembler reads a listing back from its text: the first pass
//! gathers from the text of a listing the instructions of the listing, one
//! for one, and notes for each label the address of the instruction behind
//! it.
//!
//! This holds of listings whose names are names that the assembler knows
//! how to read, whose notes are blanks and comments, and whose labels are
//! new; and of texts in which one byte stands for one character.

use crate::assembler::lexer::{
    byte_at, chars_of, comp_at, dest_at, digits_end, is_blank, is_digit_byte, is_label_byte,
    jump_at, label_at, label_end, number_at, scan, spelled_at, step, LexerState, Scan, Step,
    TokenModel,
};
use crate::assembler::parser::{
    assembled, first_pass, lemma_second_pass_succeeds, pass_step, predefined, second_pass,
    settled, AssemblyErrorModel, Gathered, LAST_REGISTER,
};
use crate::instruction::{Address, CompToken, DestToken, JumpToken, Operation};
use crate::listing::{render, Line};
use crate::machine::{code, code_from, lemma_code_len, lemma_code_suffix, Machine, Program};
use crate::numeral::{all_decimal_digits, decimal, lemma_decimal_digits, lemma_decimal_value};
use vstd::prelude::*;

verus! {

/// Where the first pass goes on is all that matters: two places from which
/// the lexer finds the same give the same first pass.
pub proof fn lemma_same_scan(
    bytes: Seq<u8>,
    state: LexerState,
    pos: int,
    other_state: LexerState,
    other_pos: int,
    so_far: Gathered,
)
    requires
        scan(bytes, state, pos) == scan(bytes, other_state, other_pos),
    ensures
        first_pass(bytes, state, pos, so_far) == first_pass(
            bytes,
            other_state,
            other_pos,
            so_far,
        ),
{
    reveal(pass_step);
}

/// A text that is spelled at a place is spelled there piece by piece.
pub proof fn lemma_spelled_pieces(bytes: Seq<u8>, pos: int, first: Seq<char>, second: Seq<char>)
    requires
        spelled_at(bytes, pos, first + second),
    ensures
        spelled_at(bytes, pos, first),
        spelled_at(bytes, pos + first.len(), second),
{
    let whole = first + second;
    assert forall|i: int| 0 <= i < first.len() implies (#[trigger] bytes[pos + i]) as char
        == first[i] by {
        assert(whole[i] == first[i]);
    }
    assert forall|i: int| 0 <= i < second.len() implies (#[trigger] bytes[pos + first.len()
        + i]) as char == second[i] by {
        assert(whole[first.len() + i] == second[i]);
        assert(bytes[pos + (first.len() + i)] as char == whole[first.len() + i]);
    }
}

/// The lexer passes over a comment up to the end of its line.
pub proof fn lemma_skips_comment(bytes: Seq<u8>, pos: int, end: int)
    requires
        0 <= pos <= end < bytes.len(),
        forall|i: int| pos <= i < end ==> bytes[i] != 10,
        bytes[end] == 10,
    ensures
        scan(bytes, LexerState::Comment, pos) == scan(bytes, LexerState::InstructionStart, end + 1),
    decreases end - pos,
{
    if pos < end {
        lemma_skips_comment(bytes, pos + 1, end);
    }
}

/// Whether the bytes of `pos..end` may follow an instruction on its line:
/// blanks, and then nothing more or a comment.
pub open spec fn trails(bytes: Seq<u8>, pos: int, end: int) -> bool
    decreases end - pos,
{
    if pos >= end {
        pos == end
    } else if is_blank(bytes[pos]) {
        trails(bytes, pos + 1, end)
    } else {
        &&& bytes[pos] == 47
        &&& pos + 1 < end
        &&& bytes[pos + 1] == 47
        &&& forall|i: int| pos <= i < end ==> bytes[i] != 10
    }
}

/// The lexer passes over what may follow an instruction on its line, and
/// over the end of the line.
pub proof fn lemma_skips_trailer(bytes: Seq<u8>, pos: int, end: int)
    requires
        0 <= pos <= end < bytes.len(),
        trails(bytes, pos, end),
        bytes[end] == 10,
    ensures
        scan(bytes, LexerState::InstructionEnd, pos) == scan(
            bytes,
            LexerState::InstructionStart,
            end + 1,
        ),
    decreases end - pos,
{
    reveal_strlit("//");
    if pos < end {
        if is_blank(bytes[pos]) {
            assert(!spelled_at(bytes, pos, "//"@)) by {
                if spelled_at(bytes, pos, "//"@) {
                    assert(bytes[pos + 0] as char == "//"@[0]);
                }
            }
            lemma_skips_trailer(bytes, pos + 1, end);
        } else {
            assert(spelled_at(bytes, pos, "//"@)) by {
                assert forall|i: int| 0 <= i < 2 implies (#[trigger] bytes[pos + i]) as char
                    == "//"@[i] by {
                    if i == 0 {
                    } else {
                        assert(bytes[pos + 1] == 47);
                    }
                }
            }
            lemma_skips_comment(bytes, pos + 2, end);
        }
    } else {
        assert(!spelled_at(bytes, pos, "//"@)) by {
            if spelled_at(bytes, pos, "//"@) {
                assert(bytes[pos + 0] as char == "//"@[0]);
            }
        }
    }
}

/// Whether a computation that ends at `pos` ends there for the lexer too:
/// what follows is the end of the text, a `;`, a blank, the end of the
/// line or a comment.
pub open spec fn ends_word(bytes: Seq<u8>, pos: int) -> bool {
    match byte_at(bytes, pos) {
        None => true,
        Some(b) => b == 59 || is_blank(b) || b == 10 || b == 47,
    }
}

/// The spellings of the computations, character by character.
pub proof fn lemma_comp_spellings()
    ensures
        "A+1"@ == seq!['A', '+', '1'],
        "D+1"@ == seq!['D', '+', '1'],
        "D+A"@ == seq!['D', '+', 'A'],
        "D+M"@ == seq!['D', '+', 'M'],
        "M+1"@ == seq!['M', '+', '1'],
        "A-1"@ == seq!['A', '-', '1'],
        "A-D"@ == seq!['A', '-', 'D'],
        "D-1"@ == seq!['D', '-', '1'],
        "D-A"@ == seq!['D', '-', 'A'],
        "D-M"@ == seq!['D', '-', 'M'],
        "M-1"@ == seq!['M', '-', '1'],
        "M-D"@ == seq!['M', '-', 'D'],
        "D&A"@ == seq!['D', '&', 'A'],
        "D&M"@ == seq!['D', '&', 'M'],
        "D|A"@ == seq!['D', '|', 'A'],
        "D|M"@ == seq!['D', '|', 'M'],
        "!A"@ == seq!['!', 'A'],
        "!D"@ == seq!['!', 'D'],
        "!M"@ == seq!['!', 'M'],
        "-1"@ == seq!['-', '1'],
        "-A"@ == seq!['-', 'A'],
        "-D"@ == seq!['-', 'D'],
        "-M"@ == seq!['-', 'M'],
        "0"@ == seq!['0'],
        "1"@ == seq!['1'],
        "A"@ == seq!['A'],
        "D"@ == seq!['D'],
        "M"@ == seq!['M'],
{
    reveal_strlit("A+1");
    reveal_strlit("D+1");
    reveal_strlit("D+A");
    reveal_strlit("D+M");
    reveal_strlit("M+1");
    reveal_strlit("A-1");
    reveal_strlit("A-D");
    reveal_strlit("D-1");
    reveal_strlit("D-A");
    reveal_strlit("D-M");
    reveal_strlit("M-1");
    reveal_strlit("M-D");
    reveal_strlit("D&A");
    reveal_strlit("D&M");
    reveal_strlit("D|A");
    reveal_strlit("D|M");
    reveal_strlit("!A");
    reveal_strlit("!D");
    reveal_strlit("!M");
    reveal_strlit("-1");
    reveal_strlit("-A");
    reveal_strlit("-D");
    reveal_strlit("-M");
    reveal_strlit("0");
    reveal_strlit("1");
    reveal_strlit("A");
    reveal_strlit("D");
    reveal_strlit("M");
    assert("A+1"@ =~= seq!['A', '+', '1']);
    assert("D+1"@ =~= seq!['D', '+', '1']);
    assert("D+A"@ =~= seq!['D', '+', 'A']);
    assert("D+M"@ =~= seq!['D', '+', 'M']);
    assert("M+1"@ =~= seq!['M', '+', '1']);
    assert("A-1"@ =~= seq!['A', '-', '1']);
    assert("A-D"@ =~= seq!['A', '-', 'D']);
    assert("D-1"@ =~= seq!['D', '-', '1']);
    assert("D-A"@ =~= seq!['D', '-', 'A']);
    assert("D-M"@ =~= seq!['D', '-', 'M']);
    assert("M-1"@ =~= seq!['M', '-', '1']);
    assert("M-D"@ =~= seq!['M', '-', 'D']);
    assert("D&A"@ =~= seq!['D', '&', 'A']);
    assert("D&M"@ =~= seq!['D', '&', 'M']);
    assert("D|A"@ =~= seq!['D', '|', 'A']);
    assert("D|M"@ =~= seq!['D', '|', 'M']);
    assert("!A"@ =~= seq!['!', 'A']);
    assert("!D"@ =~= seq!['!', 'D']);
    assert("!M"@ =~= seq!['!', 'M']);
    assert("-1"@ =~= seq!['-', '1']);
    assert("-A"@ =~= seq!['-', 'A']);
    assert("-D"@ =~= seq!['-', 'D']);
    assert("-M"@ =~= seq!['-', 'M']);
    assert("0"@ =~= seq!['0']);
    assert("1"@ =~= seq!['1']);
    assert("A"@ =~= seq!['A']);
    assert("D"@ =~= seq!['D']);
    assert("M"@ =~= seq!['M']);
}

/// The spellings of the destinations and of the jumps, character by
/// character.
pub proof fn lemma_field_spellings()
    ensures
        "A="@ == seq!['A', '='],
        "AD="@ == seq!['A', 'D', '='],
        "ADM="@ == seq!['A', 'D', 'M', '='],
        "AM="@ == seq!['A', 'M', '='],
        "D="@ == seq!['D', '='],
        "MD="@ == seq!['M', 'D', '='],
        "M="@ == seq!['M', '='],
        "AD"@ == seq!['A', 'D'],
        "ADM"@ == seq!['A', 'D', 'M'],
        "AM"@ == seq!['A', 'M'],
        "MD"@ == seq!['M', 'D'],
        "="@ == seq!['='],
        ";"@ == seq![';'],
        ""@ == Seq::<char>::empty(),
        "JGT"@ == seq!['J', 'G', 'T'],
        "JEQ"@ == seq!['J', 'E', 'Q'],
        "JGE"@ == seq!['J', 'G', 'E'],
        "JLT"@ == seq!['J', 'L', 'T'],
        "JNE"@ == seq!['J', 'N', 'E'],
        "JLE"@ == seq!['J', 'L', 'E'],
        "JMP"@ == seq!['J', 'M', 'P'],
{
    reveal_strlit("A=");
    reveal_strlit("AD=");
    reveal_strlit("ADM=");
    reveal_strlit("AM=");
    reveal_strlit("D=");
    reveal_strlit("MD=");
    reveal_strlit("M=");
    reveal_strlit("AD");
    reveal_strlit("ADM");
    reveal_strlit("AM");
    reveal_strlit("MD");
    reveal_strlit("=");
    reveal_strlit(";");
    reveal_strlit("");
    reveal_strlit("JGT");
    reveal_strlit("JEQ");
    reveal_strlit("JGE");
    reveal_strlit("JLT");
    reveal_strlit("JNE");
    reveal_strlit("JLE");
    reveal_strlit("JMP");
    assert("A="@ =~= seq!['A', '=']);
    assert("AD="@ =~= seq!['A', 'D', '=']);
    assert("ADM="@ =~= seq!['A', 'D', 'M', '=']);
    assert("AM="@ =~= seq!['A', 'M', '=']);
    assert("D="@ =~= seq!['D', '=']);
    assert("MD="@ =~= seq!['M', 'D', '=']);
    assert("M="@ =~= seq!['M', '=']);
    assert("AD"@ =~= seq!['A', 'D']);
    assert("ADM"@ =~= seq!['A', 'D', 'M']);
    assert("AM"@ =~= seq!['A', 'M']);
    assert("MD"@ =~= seq!['M', 'D']);
    assert("="@ =~= seq!['=']);
    assert(";"@ =~= seq![';']);
    assert(""@ =~= Seq::<char>::empty());
    assert("JGT"@ =~= seq!['J', 'G', 'T']);
    assert("JEQ"@ =~= seq!['J', 'E', 'Q']);
    assert("JGE"@ =~= seq!['J', 'G', 'E']);
    assert("JLT"@ =~= seq!['J', 'L', 'T']);
    assert("JNE"@ =~= seq!['J', 'N', 'E']);
    assert("JLE"@ =~= seq!['J', 'L', 'E']);
    assert("JMP"@ =~= seq!['J', 'M', 'P']);
}

/// The lexer reads a computation that is spelled and ends where it is
/// spelled as that computation.
pub proof fn lemma_reads_comp(bytes: Seq<u8>, pos: int, comp: CompToken)
    requires
        spelled_at(bytes, pos, comp.mnemonic()),
        ends_word(bytes, pos + comp.mnemonic().len()),
    ensures
        comp_at(bytes, pos) == Some((comp, comp.mnemonic())),
{
    lemma_comp_spellings();
    let n = comp.mnemonic().len();
    assert(bytes[pos + 0] as char == comp.mnemonic()[0]);
    if n > 1 {
        assert(bytes[pos + 1] as char == comp.mnemonic()[1]);
    }
    if n > 2 {
        assert(bytes[pos + 2] as char == comp.mnemonic()[2]);
    }
}

/// The lexer reads a jump that is spelled as that jump.
pub proof fn lemma_reads_jump(bytes: Seq<u8>, pos: int, jump: JumpToken)
    requires
        jump != JumpToken::Empty,
        spelled_at(bytes, pos, jump.mnemonic()),
    ensures
        jump_at(bytes, pos) == Some((jump, jump.mnemonic())),
{
    lemma_field_spellings();
    assert(bytes[pos + 0] as char == jump.mnemonic()[0]);
    assert(bytes[pos + 1] as char == jump.mnemonic()[1]);
    assert(bytes[pos + 2] as char == jump.mnemonic()[2]);
}

/// The lexer reads a destination that is spelled with its `=` as that
/// destination.
pub proof fn lemma_reads_dest(bytes: Seq<u8>, pos: int, dest: DestToken)
    requires
        dest != DestToken::Empty,
        spelled_at(bytes, pos, dest.mnemonic() + "="@),
    ensures
        dest_at(bytes, pos) == Some((dest, dest.mnemonic() + "="@)),
{
    lemma_field_spellings();
    reveal_strlit("A");
    reveal_strlit("D");
    reveal_strlit("M");
    let word = dest.mnemonic() + "="@;
    assert(bytes[pos + 0] as char == word[0]);
    assert(bytes[pos + 1] as char == word[1]);
    if word.len() > 2 {
        assert(bytes[pos + 2] as char == word[2]);
    }
    if word.len() > 3 {
        assert(bytes[pos + 3] as char == word[3]);
    }
    assert("A"@ + "="@ =~= "A="@);
    assert("AD"@ + "="@ =~= "AD="@);
    assert("ADM"@ + "="@ =~= "ADM="@);
    assert("AM"@ + "="@ =~= "AM="@);
    assert("D"@ + "="@ =~= "D="@);
    assert("MD"@ + "="@ =~= "MD="@);
    assert("M"@ + "="@ =~= "M="@);
}

/// Where a computation is spelled and ends, the lexer reads no destination
/// in front of it.
pub proof fn lemma_reads_no_dest(bytes: Seq<u8>, pos: int, comp: CompToken)
    requires
        spelled_at(bytes, pos, comp.mnemonic()),
        ends_word(bytes, pos + comp.mnemonic().len()),
    ensures
        dest_at(bytes, pos) is None,
{
    lemma_comp_spellings();
    lemma_field_spellings();
    let n = comp.mnemonic().len();
    assert(bytes[pos + 0] as char == comp.mnemonic()[0]);
    if n > 1 {
        assert(bytes[pos + 1] as char == comp.mnemonic()[1]);
    }
    if n > 2 {
        assert(bytes[pos + 2] as char == comp.mnemonic()[2]);
    }
    if dest_at(bytes, pos) is Some {
        let word = dest_at(bytes, pos)->Some_0.1;
        assert(spelled_at(bytes, pos, word));
        assert(bytes[pos + 0] as char == word[0]);
        assert(bytes[pos + 1] as char == word[1]);
        if word.len() > 2 {
            assert(bytes[pos + 2] as char == word[2]);
        }
        if word.len() > 3 {
            assert(bytes[pos + 3] as char == word[3]);
        }
    }
}

/// Whether a name may begin with the character.
pub open spec fn is_name_start(c: char) -> bool {
    ('A' <= c <= 'Z') || ('a' <= c <= 'z') || c == '_' || c == '$'
}

/// Whether a name may go on with the character.
pub open spec fn is_name_char(c: char) -> bool {
    is_name_start(c) || ('0' <= c <= '9') || c == '.' || c == '-'
}

/// Whether the text is a name that the assembler can read: a label or a
/// variable.
pub open spec fn is_name(name: Seq<char>) -> bool {
    &&& name.len() > 0
    &&& is_name_start(name[0])
    &&& forall|i: int| 0 <= i < name.len() ==> is_name_char(#[trigger] name[i])
}

/// Whether the text may follow an instruction or a label on its line:
/// blanks, and then nothing more or a comment.
pub open spec fn is_note(note: Seq<char>) -> bool {
    note_from(note, 0)
}

/// Whether the text from index `from` on may follow an instruction.
pub open spec fn note_from(note: Seq<char>, from: int) -> bool
    decreases note.len() - from,
{
    if from >= note.len() {
        true
    } else if note[from] == ' ' || note[from] == '\t' || note[from] == '\r' {
        note_from(note, from + 1)
    } else {
        &&& note[from] == '/'
        &&& from + 1 < note.len()
        &&& note[from + 1] == '/'
        &&& forall|i: int| from <= i < note.len() ==> note[i] != '\n'
    }
}

/// What may follow an instruction lies in the text as bytes that may follow
/// an instruction, and does not begin like a name, a number, a `;` or an
/// `=`.
pub proof fn lemma_note_trails(bytes: Seq<u8>, pos: int, note: Seq<char>, from: int)
    requires
        0 <= from <= note.len(),
        spelled_at(bytes, pos, note),
        note_from(note, from),
        pos + note.len() < bytes.len(),
        bytes[pos + note.len()] == 10,
    ensures
        trails(bytes, pos + from, pos + note.len()),
        !is_label_byte(bytes[pos + from]),
        ends_word(bytes, pos + from),
        bytes[pos + from] != 59,
        bytes[pos + from] != 61,
    decreases note.len() - from,
{
    if from < note.len() {
        assert(bytes[pos + from] as char == note[from]);
        if note[from] == ' ' || note[from] == '\t' || note[from] == '\r' {
            lemma_note_trails(bytes, pos, note, from + 1);
        } else {
            assert(bytes[pos + (from + 1)] as char == note[from + 1]);
            assert forall|i: int| pos + from <= i < pos + note.len() implies bytes[i] != 10 by {
                assert(bytes[pos + (i - pos)] as char == note[i - pos]);
            }
        }
    }
}

/// The lexer reads a name that is spelled, and behind which no name goes
/// on, as that name.
pub proof fn lemma_reads_name(bytes: Seq<u8>, pos: int, name: Seq<char>)
    requires
        is_name(name),
        spelled_at(bytes, pos, name),
        byte_at(bytes, pos + name.len()) matches Some(b) ==> !is_label_byte(b),
    ensures
        label_at(bytes, pos) == Some(name),
        label_end(bytes, pos) == pos + name.len(),
{
    lemma_name_ends(bytes, pos, name, 0);
    assert(bytes[pos + 0] as char == name[0]);
    assert(chars_of(bytes, pos, pos + name.len()) =~= name) by {
        assert forall|i: int| 0 <= i < name.len() implies chars_of(
            bytes,
            pos,
            pos + name.len(),
        )[i] == name[i] by {
            assert(bytes[pos + i] as char == name[i]);
        }
    }
}

/// The bytes of a name go on to its end and no further.
proof fn lemma_name_ends(bytes: Seq<u8>, pos: int, name: Seq<char>, from: int)
    requires
        0 <= from <= name.len(),
        is_name(name),
        spelled_at(bytes, pos, name),
        byte_at(bytes, pos + name.len()) matches Some(b) ==> !is_label_byte(b),
    ensures
        label_end(bytes, pos + from) == pos + name.len(),
    decreases name.len() - from,
{
    if from < name.len() {
        assert(bytes[pos + from] as char == name[from]);
        assert(is_name_char(name[from]));
        lemma_name_ends(bytes, pos, name, from + 1);
    }
}

/// The lexer reads the numeral of a number that it can count as that
/// number, where no digit follows the numeral.
pub proof fn lemma_reads_number(bytes: Seq<u8>, pos: int, n: nat)
    requires
        n <= usize::MAX,
        spelled_at(bytes, pos, decimal(n)),
        byte_at(bytes, pos + decimal(n).len()) matches Some(b) ==> !is_digit_byte(b),
    ensures
        label_at(bytes, pos) is None,
        digits_end(bytes, pos) == pos + decimal(n).len(),
        number_at(bytes, pos) == Some(n),
{
    let numeral = decimal(n);
    lemma_decimal_digits(n);
    lemma_decimal_value(n);
    lemma_digits_end(bytes, pos, numeral, 0);
    assert(bytes[pos + 0] as char == numeral[0]);
    assert(chars_of(bytes, pos, pos + numeral.len()) =~= numeral) by {
        assert forall|i: int| 0 <= i < numeral.len() implies chars_of(
            bytes,
            pos,
            pos + numeral.len(),
        )[i] == numeral[i] by {
            assert(bytes[pos + i] as char == numeral[i]);
        }
    }
}

/// The digits of a numeral go on to its end and no further.
proof fn lemma_digits_end(bytes: Seq<u8>, pos: int, numeral: Seq<char>, from: int)
    requires
        0 <= from <= numeral.len(),
        all_decimal_digits(numeral),
        spelled_at(bytes, pos, numeral),
        byte_at(bytes, pos + numeral.len()) matches Some(b) ==> !is_digit_byte(b),
    ensures
        digits_end(bytes, pos + from) == pos + numeral.len(),
    decreases numeral.len() - from,
{
    if from < numeral.len() {
        assert(bytes[pos + from] as char == numeral[from]);
        lemma_digits_end(bytes, pos, numeral, from + 1);
    }
}

/// Whether the assembler can read the line back from its text.
pub open spec fn readable(line: Line) -> bool {
    match line {
        Line::Blank => true,
        Line::Comment(text) => forall|i: int| 0 <= i < text.len() ==> text[i] != '\n',
        Line::Label { name, note } => is_name(name) && is_note(note),
        Line::Code { op: Operation::Load(Address::Number(n)), note } => n <= usize::MAX
            && is_note(note),
        Line::Code { op: Operation::Load(Address::Symbol(name)), note } => is_name(name)
            && is_note(note),
        Line::Code { op: Operation::Compute(..), note } => is_note(note),
    }
}

/// What is gathered once the line is read: a label stands for the address
/// of the instruction to come, and an instruction is one more.
pub open spec fn gathered_line(line: Line, so_far: Gathered) -> Gathered {
    match line {
        Line::Label { name, .. } => Gathered {
            symbols: so_far.symbols.insert(name, so_far.instructions.len() as usize),
            ..so_far
        },
        Line::Code { op, .. } => Gathered { instructions: so_far.instructions.push(op), ..so_far },
        _ => so_far,
    }
}

/// The first pass reads an empty line and a comment line as nothing.
pub proof fn lemma_reads_nothing(bytes: Seq<u8>, pos: int, line: Line, so_far: Gathered)
    requires
        line is Blank || line is Comment,
        readable(line),
        spelled_at(bytes, pos, line.text()),
    ensures
        first_pass(bytes, LexerState::InstructionStart, pos, so_far) == first_pass(
            bytes,
            LexerState::InstructionStart,
            pos + line.text().len(),
            so_far,
        ),
{
    reveal_strlit("\n");
    reveal_strlit("// ");
    reveal_strlit("//");
    let start = LexerState::InstructionStart;
    match line {
        Line::Comment(text) => {
            let end = pos + 3 + text.len();
            lemma_spelled_pieces(bytes, pos, "// "@ + text, "\n"@);
            lemma_spelled_pieces(bytes, pos, "// "@, text);
            assert(bytes[end + 0] as char == "\n"@[0]);
            assert(bytes[pos + 0] as char == "// "@[0]);
            assert(bytes[pos + 1] as char == "// "@[1]);
            assert(bytes[pos + 2] as char == "// "@[2]);
            assert(spelled_at(bytes, pos, "//"@));
            assert forall|i: int| pos + 2 <= i < end implies bytes[i] != 10 by {
                if i > pos + 2 {
                    assert(bytes[pos + 3 + (i - pos - 3)] as char == text[i - pos - 3]);
                }
            }
            lemma_skips_comment(bytes, pos + 2, end);
            assert(scan(bytes, start, pos) == scan(bytes, LexerState::Comment, pos + 2));
            lemma_same_scan(bytes, start, pos, start, end + 1, so_far);
        },
        _ => {
            assert(bytes[pos + 0] as char == "\n"@[0]);
            assert(scan(bytes, start, pos) == scan(bytes, start, pos + 1));
            lemma_same_scan(bytes, start, pos, start, pos + 1, so_far);
        },
    }
}

/// The first pass reads the line of a label as that label.
pub proof fn lemma_reads_label(bytes: Seq<u8>, pos: int, line: Line, so_far: Gathered)
    requires
        line is Label,
        readable(line),
        spelled_at(bytes, pos, line.text()),
        !so_far.symbols.contains_key(line->name),
    ensures
        first_pass(bytes, LexerState::InstructionStart, pos, so_far) == first_pass(
            bytes,
            LexerState::InstructionStart,
            pos + line.text().len(),
            gathered_line(line, so_far),
        ),
{
    reveal_strlit("\n");
    reveal_strlit("(");
    reveal_strlit(")");
    reveal_strlit("//");
    reveal_strlit("@");
    let start = LexerState::InstructionStart;
    let name = line->name;
    let note = line->Label_note;
    let named = pos + 1;
    let closed = named + name.len();
    let noted = closed + 1;
    let end = noted + note.len();
    lemma_spelled_pieces(bytes, pos, "("@ + name + ")"@ + note, "\n"@);
    lemma_spelled_pieces(bytes, pos, "("@ + name + ")"@, note);
    lemma_spelled_pieces(bytes, pos, "("@ + name, ")"@);
    lemma_spelled_pieces(bytes, pos, "("@, name);
    assert(bytes[pos + 0] as char == "("@[0]);
    assert(bytes[closed + 0] as char == ")"@[0]);
    assert(bytes[end + 0] as char == "\n"@[0]);
    lemma_reads_name(bytes, named, name);
    assert(!spelled_at(bytes, pos, "//"@)) by {
        if spelled_at(bytes, pos, "//"@) {
            assert(bytes[pos + 0] as char == "//"@[0]);
        }
    }
    assert(!spelled_at(bytes, pos, "@"@)) by {
        if spelled_at(bytes, pos, "@"@) {
            assert(bytes[pos + 0] as char == "@"@[0]);
        }
    }
    assert(step(bytes, start, pos) == (Step::Next {
        state: LexerState::Label,
        pos: named,
        token: None,
    }));
    assert(scan(bytes, start, pos) == scan(bytes, LexerState::Label, named));
    assert(scan(bytes, LexerState::Label, named) == (Scan::Token {
        token: TokenModel::Label(name),
        state: LexerState::LabelEnd,
        pos: closed,
    }));
    let more = gathered_line(line, so_far);
    assert(first_pass(bytes, start, pos, so_far) == first_pass(
        bytes,
        LexerState::LabelEnd,
        closed,
        more,
    )) by {
        reveal(pass_step);
    }
    lemma_note_trails(bytes, noted, note, 0);
    lemma_skips_trailer(bytes, noted, end);
    assert(scan(bytes, LexerState::LabelEnd, closed) == scan(
        bytes,
        LexerState::InstructionEnd,
        noted,
    ));
    lemma_same_scan(bytes, LexerState::LabelEnd, closed, start, end + 1, more);
}

/// The first pass reads the line of a load as that load.
pub proof fn lemma_reads_load(bytes: Seq<u8>, pos: int, line: Line, so_far: Gathered)
    requires
        line matches Line::Code { op: Operation::Load(_), .. },
        readable(line),
        spelled_at(bytes, pos, line.text()),
    ensures
        first_pass(bytes, LexerState::InstructionStart, pos, so_far) == first_pass(
            bytes,
            LexerState::InstructionStart,
            pos + line.text().len(),
            gathered_line(line, so_far),
        ),
{
    reveal_strlit("\n");
    reveal_strlit("(");
    reveal_strlit("//");
    reveal_strlit("@");
    let start = LexerState::InstructionStart;
    let addr = line->op->Load_0;
    let note = line->Code_note;
    let operand = addr.text();
    let named = pos + 1;
    let noted = named + operand.len();
    let end = noted + note.len();
    lemma_spelled_pieces(bytes, pos, "@"@ + operand + note, "\n"@);
    lemma_spelled_pieces(bytes, pos, "@"@ + operand, note);
    lemma_spelled_pieces(bytes, pos, "@"@, operand);
    assert(bytes[pos + 0] as char == "@"@[0]);
    assert(bytes[end + 0] as char == "\n"@[0]);
    lemma_note_trails(bytes, noted, note, 0);
    assert(!spelled_at(bytes, pos, "//"@)) by {
        if spelled_at(bytes, pos, "//"@) {
            assert(bytes[pos + 0] as char == "//"@[0]);
        }
    }
    assert(spelled_at(bytes, pos, "@"@));
    assert(step(bytes, start, pos) == (Step::Next {
        state: LexerState::Address,
        pos: named,
        token: None,
    }));
    match addr {
        Address::Number(n) => {
            lemma_reads_number(bytes, named, n);
        },
        Address::Symbol(name) => {
            lemma_reads_name(bytes, named, name);
        },
    }
    assert(scan(bytes, start, pos) == scan(bytes, LexerState::Address, named));
    assert(scan(bytes, LexerState::Address, named) == (Scan::Token {
        token: TokenModel::Addr(addr),
        state: LexerState::InstructionEnd,
        pos: noted,
    }));
    let more = gathered_line(line, so_far);
    assert(first_pass(bytes, start, pos, so_far) == first_pass(
        bytes,
        LexerState::InstructionEnd,
        noted,
        more,
    )) by {
        reveal(pass_step);
    }
    lemma_skips_trailer(bytes, noted, end);
    lemma_same_scan(bytes, LexerState::InstructionEnd, noted, start, end + 1, more);
}

impl Operation {
    /// How the destination of a computation is spelled in front of it.
    pub open spec fn stored(self) -> Seq<char> {
        if self->Compute_0 is Empty {
            ""@
        } else {
            self->Compute_0.mnemonic() + "="@
        }
    }

    /// How the jump of a computation is spelled behind it.
    pub open spec fn jumped(self) -> Seq<char> {
        if self->Compute_2 is Empty {
            ""@
        } else {
            ";"@ + self->Compute_2.mnemonic()
        }
    }
}

/// Where the pieces of the line of a computation lie in the text.
proof fn lemma_computation_pieces(bytes: Seq<u8>, pos: int, line: Line)
    requires
        line matches Line::Code { op: Operation::Compute(..), .. },
        readable(line),
        spelled_at(bytes, pos, line.text()),
    ensures
        ({
            let operation = line->op;
            let comp = operation->Compute_1;
            let jump = operation->Compute_2;
            let computed = pos + operation.stored().len();
            let decided = computed + comp.mnemonic().len();
            let noted = decided + operation.jumped().len();
            let end = noted + line->Code_note.len();
            &&& spelled_at(bytes, pos, operation.stored())
            &&& spelled_at(bytes, computed, comp.mnemonic())
            &&& ends_word(bytes, decided)
            &&& if jump is Empty {
                !spelled_at(bytes, decided, ";"@) && noted == decided
            } else {
                spelled_at(bytes, decided, ";"@) && spelled_at(
                    bytes,
                    decided + ";"@.len(),
                    jump.mnemonic(),
                ) && noted == decided + ";"@.len() + jump.mnemonic().len()
            }
            &&& 0 <= noted <= end < bytes.len()
            &&& trails(bytes, noted, end)
            &&& bytes[end] == 10
            &&& end + 1 == pos + line.text().len()
        }),
{
    reveal_strlit("\n");
    reveal_strlit(";");
    reveal_strlit("");
    let operation = line->op;
    let comp = operation->Compute_1;
    let jump = operation->Compute_2;
    let note = line->Code_note;
    let stored = operation.stored();
    let jumped = operation.jumped();
    let computed = pos + stored.len();
    let decided = computed + comp.mnemonic().len();
    let noted = decided + jumped.len();
    let end = noted + note.len();
    assert(line.text() == stored + comp.mnemonic() + jumped + note + "\n"@);
    lemma_spelled_pieces(bytes, pos, stored + comp.mnemonic() + jumped + note, "\n"@);
    lemma_spelled_pieces(bytes, pos, stored + comp.mnemonic() + jumped, note);
    lemma_spelled_pieces(bytes, pos, stored + comp.mnemonic(), jumped);
    lemma_spelled_pieces(bytes, pos, stored, comp.mnemonic());
    assert(bytes[end + 0] as char == "\n"@[0]);
    lemma_note_trails(bytes, noted, note, 0);
    if jump is Empty {
        assert(!spelled_at(bytes, decided, ";"@)) by {
            if spelled_at(bytes, decided, ";"@) {
                assert(bytes[decided + 0] as char == ";"@[0]);
            }
        }
    } else {
        lemma_spelled_pieces(bytes, decided, ";"@, jump.mnemonic());
        assert(bytes[decided + 0] as char == ";"@[0]);
    }
}

/// The three tokens that the lexer makes of a computation whose pieces lie
/// in the text as they should.
proof fn lemma_scans_computation(
    bytes: Seq<u8>,
    pos: int,
    operation: Operation,
    computed: int,
    decided: int,
    noted: int,
)
    requires
        operation is Compute,
        step(bytes, LexerState::InstructionStart, pos) == (Step::Next {
            state: LexerState::Dest,
            pos,
            token: None,
        }),
        computed == pos + operation.stored().len(),
        if operation->Compute_0 is Empty {
            dest_at(bytes, pos) is None
        } else {
            dest_at(bytes, pos) == Some((operation->Compute_0, operation.stored()))
        },
        comp_at(bytes, computed) == Some((operation->Compute_1, operation->Compute_1.mnemonic())),
        decided == computed + operation->Compute_1.mnemonic().len(),
        if operation->Compute_2 is Empty {
            !spelled_at(bytes, decided, ";"@) && noted == decided
        } else {
            spelled_at(bytes, decided, ";"@) && jump_at(bytes, decided + ";"@.len()) == Some(
                (operation->Compute_2, operation->Compute_2.mnemonic()),
            ) && noted == decided + ";"@.len() + operation->Compute_2.mnemonic().len()
        },
    ensures
        scan(bytes, LexerState::InstructionStart, pos) == (Scan::Token {
            token: TokenModel::Dest(operation->Compute_0),
            state: LexerState::Comp,
            pos: computed,
        }),
        scan(bytes, LexerState::Comp, computed) == (Scan::Token {
            token: TokenModel::Comp(operation->Compute_1),
            state: LexerState::AfterComp,
            pos: decided,
        }),
        scan(bytes, LexerState::AfterComp, decided) == (Scan::Token {
            token: TokenModel::Jump(operation->Compute_2),
            state: LexerState::InstructionEnd,
            pos: noted,
        }),
{
    reveal_strlit("");
    assert(scan(bytes, LexerState::InstructionStart, pos) == scan(bytes, LexerState::Dest, pos));
    if !(operation->Compute_2 is Empty) {
        assert(scan(bytes, LexerState::AfterComp, decided) == scan(
            bytes,
            LexerState::Jump,
            decided + ";"@.len(),
        ));
    }
}

/// The first pass reads the line of a computation as that computation.
pub proof fn lemma_reads_computation(bytes: Seq<u8>, pos: int, line: Line, so_far: Gathered)
    requires
        line matches Line::Code { op: Operation::Compute(..), .. },
        readable(line),
        spelled_at(bytes, pos, line.text()),
    ensures
        first_pass(bytes, LexerState::InstructionStart, pos, so_far) == first_pass(
            bytes,
            LexerState::InstructionStart,
            pos + line.text().len(),
            gathered_line(line, so_far),
        ),
{
    let start = LexerState::InstructionStart;
    let operation = line->op;
    let dest = operation->Compute_0;
    let comp = operation->Compute_1;
    let jump = operation->Compute_2;
    let computed = pos + operation.stored().len();
    let decided = computed + comp.mnemonic().len();
    let noted = decided + operation.jumped().len();
    let end = noted + line->Code_note.len();
    lemma_computation_pieces(bytes, pos, line);
    lemma_begins_computation(bytes, pos, dest, comp);
    if dest is Empty {
        assert(computed == pos) by {
            reveal_strlit("");
        }
        lemma_reads_no_dest(bytes, pos, comp);
    } else {
        lemma_reads_dest(bytes, pos, dest);
    }
    lemma_reads_comp(bytes, computed, comp);
    if !(jump is Empty) {
        lemma_reads_jump(bytes, decided + ";"@.len(), jump);
    }
    lemma_scans_computation(bytes, pos, operation, computed, decided, noted);
    let more = gathered_line(line, so_far);
    assert(first_pass(bytes, start, pos, so_far) == first_pass(
        bytes,
        LexerState::InstructionEnd,
        noted,
        more,
    )) by {
        reveal(pass_step);
    }
    lemma_skips_trailer(bytes, noted, end);
    lemma_same_scan(bytes, LexerState::InstructionEnd, noted, start, end + 1, more);
}

/// Where a computation begins, with or without a destination, the lexer
/// sees the beginning of a computation: no whitespace, no comment, no
/// address and no label.
proof fn lemma_begins_computation(bytes: Seq<u8>, pos: int, dest: DestToken, comp: CompToken)
    requires
        spelled_at(
            bytes,
            pos,
            if dest is Empty {
                ""@
            } else {
                dest.mnemonic() + "="@
            },
        ),
        spelled_at(
            bytes,
            pos + if dest is Empty {
                ""@
            } else {
                dest.mnemonic() + "="@
            }.len(),
            comp.mnemonic(),
        ),
    ensures
        step(bytes, LexerState::InstructionStart, pos) == (Step::Next {
            state: LexerState::Dest,
            pos,
            token: None,
        }),
{
    lemma_field_spellings();
    lemma_comp_spellings();
    reveal_strlit("A");
    reveal_strlit("D");
    reveal_strlit("M");
    reveal_strlit("//");
    reveal_strlit("@");
    reveal_strlit("(");
    if dest is Empty {
        assert(bytes[pos + 0] as char == comp.mnemonic()[0]);
    } else {
        assert(bytes[pos + 0] as char == (dest.mnemonic() + "="@)[0]);
    }
    if spelled_at(bytes, pos, "//"@) {
        assert(bytes[pos + 0] as char == "//"@[0]);
    }
    if spelled_at(bytes, pos, "@"@) {
        assert(bytes[pos + 0] as char == "@"@[0]);
    }
    if spelled_at(bytes, pos, "("@) {
        assert(bytes[pos + 0] as char == "("@[0]);
    }
}

/// The first pass reads a line back from its text.
pub proof fn lemma_reads_line(bytes: Seq<u8>, pos: int, line: Line, so_far: Gathered)
    requires
        readable(line),
        spelled_at(bytes, pos, line.text()),
        line matches Line::Label { name, .. } ==> !so_far.symbols.contains_key(name),
    ensures
        first_pass(bytes, LexerState::InstructionStart, pos, so_far) == first_pass(
            bytes,
            LexerState::InstructionStart,
            pos + line.text().len(),
            gathered_line(line, so_far),
        ),
{
    match line {
        Line::Blank | Line::Comment(_) => {
            lemma_reads_nothing(bytes, pos, line, so_far);
        },
        Line::Label { .. } => {
            lemma_reads_label(bytes, pos, line, so_far);
        },
        Line::Code { op: Operation::Load(_), .. } => {
            lemma_reads_load(bytes, pos, line, so_far);
        },
        Line::Code { op: Operation::Compute(..), .. } => {
            lemma_reads_computation(bytes, pos, line, so_far);
        },
    }
}

/// Where the line at index `at` begins in the text of the listing.
pub open spec fn line_start(lines: Seq<Line>, at: int) -> int {
    render(lines.take(at)).len() as int
}

/// What is gathered once the lines from index `from` on are read.
pub open spec fn gathered_lines(lines: Seq<Line>, from: int, so_far: Gathered) -> Gathered
    decreases lines.len() - from,
{
    if 0 <= from < lines.len() {
        gathered_lines(lines, from + 1, gathered_line(lines[from], so_far))
    } else {
        so_far
    }
}

/// Whether each label among the lines from index `from` on is new where it
/// is defined: unknown at the start and not defined by a line before.
pub open spec fn labels_are_new(lines: Seq<Line>, from: int, so_far: Gathered) -> bool
    decreases lines.len() - from,
{
    if 0 <= from < lines.len() {
        &&& lines[from] matches Line::Label { name, .. } ==> !so_far.symbols.contains_key(name)
        &&& labels_are_new(lines, from + 1, gathered_line(lines[from], so_far))
    } else {
        true
    }
}

/// Whether the assembler can read all lines back from their text.
pub open spec fn all_readable(lines: Seq<Line>) -> bool {
    forall|i: int| 0 <= i < lines.len() ==> readable(#[trigger] lines[i])
}

/// Whether the bytes are the text, one byte for each character.
pub open spec fn holds_text(bytes: Seq<u8>, text: Seq<char>) -> bool {
    bytes.len() == text.len() && spelled_at(bytes, 0, text)
}

/// The bytes that encode a text of ASCII characters are the text, one byte
/// for each character.
pub proof fn lemma_ascii_holds(text: Seq<char>)
    requires
        vstd::utf8::is_ascii_chars(text),
    ensures
        holds_text(vstd::utf8::encode_utf8(text), text),
{
    vstd::utf8::is_ascii_chars_encode_utf8(text);
    let bytes = vstd::utf8::encode_utf8(text);
    assert forall|i: int| 0 <= i < text.len() implies (#[trigger] bytes[0 + i]) as char
        == text[i] by {
        assert('\0' <= text[i] <= '\u{7f}');
        assert(text[i] as u8 == bytes[i]);
    }
}

/// The text of a listing begins with the text of each of its beginnings,
/// and each line follows the lines before it.
pub proof fn lemma_line_lies(lines: Seq<Line>, at: int)
    requires
        0 <= at <= lines.len(),
    ensures
        line_start(lines, at) <= render(lines).len(),
        forall|k: int|
            0 <= k < line_start(lines, at) ==> render(lines)[k] == render(lines.take(at))[k],
        at < lines.len() ==> render(lines.take(at + 1)) == render(lines.take(at))
            + lines[at].text(),
        at == lines.len() ==> line_start(lines, at) == render(lines).len(),
    decreases lines.len() - at,
{
    if at < lines.len() {
        lemma_line_lies(lines, at + 1);
        assert(lines.take(at + 1).drop_last() =~= lines.take(at));
        assert(lines.take(at + 1).last() == lines[at]);
    } else {
        assert(lines.take(at) =~= lines);
    }
}

/// The first pass reads a listing back from its text, line by line.
pub proof fn lemma_reads_lines(bytes: Seq<u8>, lines: Seq<Line>, from: int, so_far: Gathered)
    requires
        0 <= from <= lines.len(),
        all_readable(lines),
        holds_text(bytes, render(lines)),
        labels_are_new(lines, from, so_far),
    ensures
        first_pass(bytes, LexerState::InstructionStart, line_start(lines, from), so_far) == Ok::<
            Gathered,
            AssemblyErrorModel,
        >(gathered_lines(lines, from, so_far)),
    decreases lines.len() - from,
{
    let start = LexerState::InstructionStart;
    let pos = line_start(lines, from);
    lemma_line_lies(lines, from);
    if from < lines.len() {
        let line = lines[from];
        let text = line.text();
        lemma_line_lies(lines, from + 1);
        assert(spelled_at(bytes, pos, text)) by {
            let longer = render(lines.take(from + 1));
            assert forall|k: int| 0 <= k < text.len() implies (#[trigger] bytes[pos + k]) as char
                == text[k] by {
                assert(longer[pos + k] == text[k]);
                assert(render(lines)[pos + k] == longer[pos + k]);
                assert(bytes[0 + (pos + k)] as char == render(lines)[pos + k]);
            }
        }
        lemma_reads_line(bytes, pos, line, so_far);
        lemma_reads_lines(bytes, lines, from + 1, gathered_line(line, so_far));
    } else {
        assert(scan(bytes, start, pos) == (Scan::End { pos })) by {
            assert(byte_at(bytes, pos) is None);
        }
        assert(first_pass(bytes, start, pos, so_far) == Ok::<
            Gathered,
            AssemblyErrorModel,
        >(so_far)) by {
            reveal(pass_step);
        }
    }
}

/// What is gathered from lines holds what was gathered before, and the
/// instructions of the lines behind it.
pub proof fn lemma_gathers_code(lines: Seq<Line>, from: int, so_far: Gathered)
    requires
        0 <= from <= lines.len(),
    ensures
        gathered_lines(lines, from, so_far).instructions == so_far.instructions + code_from(
            lines,
            from,
        ),
    decreases lines.len() - from,
{
    if from < lines.len() {
        let more = gathered_line(lines[from], so_far);
        lemma_gathers_code(lines, from + 1, more);
        match lines[from] {
            Line::Code { op, .. } => {
                assert(so_far.instructions.push(op) + code_from(lines, from + 1)
                    =~= so_far.instructions + (seq![op] + code_from(lines, from + 1)));
            },
            _ => {},
        }
    } else {
        assert(so_far.instructions + Seq::<Operation>::empty() =~= so_far.instructions);
    }
}

/// Labels that are new where they are defined leave what is known alone:
/// a symbol that is known before the lines stands for the same behind
/// them.
pub proof fn lemma_gathers_keep(lines: Seq<Line>, from: int, so_far: Gathered, name: Seq<char>)
    requires
        0 <= from <= lines.len(),
        labels_are_new(lines, from, so_far),
        so_far.symbols.contains_key(name),
    ensures
        gathered_lines(lines, from, so_far).symbols.contains_key(name),
        gathered_lines(lines, from, so_far).symbols[name] == so_far.symbols[name],
    decreases lines.len() - from,
{
    if from < lines.len() {
        lemma_gathers_keep(lines, from + 1, gathered_line(lines[from], so_far), name);
    }
}

/// Each label of the lines stands for the number of instructions that are
/// gathered when it is defined.
pub proof fn lemma_gathers_labels(lines: Seq<Line>, from: int, so_far: Gathered, at: int)
    requires
        0 <= from <= at < lines.len(),
        labels_are_new(lines, from, so_far),
        lines[at] is Label,
    ensures
        ({
            let all = gathered_lines(lines, from, so_far);
            let known = so_far.instructions.len() + code_from(lines, from).len() - code_from(
                lines,
                at,
            ).len();
            &&& all.symbols.contains_key(lines[at]->name)
            &&& all.symbols[lines[at]->name] == known as usize
        }),
    decreases lines.len() - from,
{
    let more = gathered_line(lines[from], so_far);
    if from < at {
        lemma_gathers_labels(lines, from + 1, more, at);
    } else {
        lemma_gathers_keep(lines, from + 1, more, lines[at]->name);
    }
}

/// The program that the first pass has gathered: its instructions, and its
/// symbols as the numbers they stand for.
pub open spec fn program_of(gathered: Gathered) -> Program {
    Program {
        rom: gathered.instructions,
        symbols: Map::new(
            |name: Seq<char>| gathered.symbols.contains_key(name),
            |name: Seq<char>| gathered.symbols[name] as int,
        ),
    }
}

/// The first pass makes of the text of a listing a program that holds the
/// listing: the instructions of the listing lie in it one after the other,
/// and each label of the listing stands for the address of the instruction
/// behind it.
pub proof fn lemma_reads_listing(bytes: Seq<u8>, lines: Seq<Line>, so_far: Gathered)
    requires
        all_readable(lines),
        holds_text(bytes, render(lines)),
        labels_are_new(lines, 0, so_far),
        so_far.instructions.len() + code(lines).len() <= usize::MAX,
    ensures
        first_pass(bytes, LexerState::InstructionStart, 0, so_far) == Ok::<
            Gathered,
            AssemblyErrorModel,
        >(gathered_lines(lines, 0, so_far)),
        program_of(gathered_lines(lines, 0, so_far)).holds(
            lines,
            so_far.instructions.len() as int,
        ),
{
    let all = gathered_lines(lines, 0, so_far);
    let base = so_far.instructions.len() as int;
    lemma_reads_lines(bytes, lines, 0, so_far);
    assert(line_start(lines, 0) == 0) by {
        assert(lines.take(0) =~= Seq::<Line>::empty());
    }
    lemma_gathers_code(lines, 0, so_far);
    let program = program_of(all);
    assert forall|i: int| 0 <= i < lines.len() implies (#[trigger] lines[i] matches Line::Label {
        name,
        ..
    } ==> program.symbols[name] == Program::line_address(lines, i, base)) by {
        if lines[i] is Label {
            lemma_gathers_labels(lines, 0, so_far, i);
            lemma_code_len(lines, 0);
            lemma_code_suffix(lines, i);
        }
    }
}

/// The symbols that are known once the second pass has gone over the
/// instructions from index `from` on.
pub open spec fn settled_symbols(
    instructions: Seq<Operation>,
    from: int,
    symbols: Map<Seq<char>, usize>,
    last: usize,
) -> Map<Seq<char>, usize>
    decreases instructions.len() - from,
{
    if 0 <= from < instructions.len() {
        match settled(instructions[from], symbols, last) {
            Ok(one) => settled_symbols(instructions, from + 1, one.symbols, one.last),
            Err(_) => symbols,
        }
    } else {
        symbols
    }
}

/// The instruction with the number that its symbol stands for in place of
/// the symbol.
pub open spec fn resolved(operation: Operation, table: Map<Seq<char>, usize>) -> Operation {
    match operation {
        Operation::Load(Address::Symbol(name)) => Operation::Load(
            Address::Number(table[name] as nat),
        ),
        _ => operation,
    }
}

/// The symbols as the numbers they stand for.
pub open spec fn numbers_of(table: Map<Seq<char>, usize>) -> Map<Seq<char>, int> {
    Map::new(|name: Seq<char>| table.contains_key(name), |name: Seq<char>| table[name] as int)
}

/// The second pass forgets no symbol and changes none, and puts in place of
/// each symbol the number that the symbol stands for in the end.
pub proof fn lemma_second_pass_table(
    instructions: Seq<Operation>,
    from: int,
    symbols: Map<Seq<char>, usize>,
    last: usize,
)
    requires
        0 <= from <= instructions.len(),
        second_pass(instructions, from, symbols, last) is Ok,
    ensures
        ({
            let table = settled_symbols(instructions, from, symbols, last);
            let binary = second_pass(instructions, from, symbols, last)->Ok_0;
            &&& binary.len() == instructions.len() - from
            &&& forall|name: Seq<char>| #[trigger]
                symbols.contains_key(name) ==> table.contains_key(name) && table[name]
                    == symbols[name]
            &&& forall|k: int|
                from <= k < instructions.len() ==> #[trigger] binary[k - from] == resolved(
                    instructions[k],
                    table,
                )
        }),
    decreases instructions.len() - from,
{
    if from < instructions.len() {
        let one = settled(instructions[from], symbols, last)->Ok_0;
        lemma_second_pass_table(instructions, from + 1, one.symbols, one.last);
        let table = settled_symbols(instructions, from, symbols, last);
        let rest = second_pass(instructions, from + 1, one.symbols, one.last)->Ok_0;
        let binary = second_pass(instructions, from, symbols, last)->Ok_0;
        assert(binary == seq![one.operation] + rest);
        assert forall|name: Seq<char>| #[trigger] symbols.contains_key(name) implies table.contains_key(
            name,
        ) && table[name] == symbols[name] by {
            assert(one.symbols.contains_key(name));
        }
        assert forall|k: int| from <= k < instructions.len() implies #[trigger] binary[k - from]
            == resolved(instructions[k], table) by {
            if k > from {
                assert(binary[k - from] == rest[k - (from + 1)]);
            } else {
                assert(binary[0] == one.operation);
                match instructions[from] {
                    Operation::Load(Address::Symbol(name)) => {
                        assert(one.symbols.contains_key(name));
                    },
                    _ => {},
                }
            }
        }
    }
}

/// The symbols that are known once the listing is assembled: those known
/// before any text, the labels of the listing, and its variables.
pub open spec fn symbol_table(lines: Seq<Line>) -> Map<Seq<char>, usize> {
    settled_symbols(
        code(lines),
        0,
        gathered_lines(
            lines,
            0,
            Gathered { symbols: predefined(), instructions: Seq::empty() },
        ).symbols,
        LAST_REGISTER,
    )
}

/// The assembler makes of the text of a listing the program of the listing.
/// Let the assembler be able to read the lines, let the labels be new, and
/// let there be addresses for as many variables as the listing has
/// instructions. Then the text is assembled; there is one instruction in
/// the binary program for each instruction of the listing, the same but
/// for the number in place of a symbol; each label of the listing stands
/// for the address of the instruction behind it; and each instruction of
/// the binary program does to the machine what the instruction of the
/// listing does with the symbols standing for their numbers.
pub proof fn lemma_assembles_listing(bytes: Seq<u8>, lines: Seq<Line>)
    requires
        all_readable(lines),
        holds_text(bytes, render(lines)),
        labels_are_new(
            lines,
            0,
            Gathered { symbols: predefined(), instructions: Seq::empty() },
        ),
        code(lines).len() + LAST_REGISTER <= usize::MAX,
    ensures
        ({
            let binary = assembled(bytes)->Ok_0;
            let table = symbol_table(lines);
            let program = Program { rom: code(lines), symbols: numbers_of(table) };
            &&& assembled(bytes) is Ok
            &&& program.holds(lines, 0)
            &&& binary.len() == code(lines).len()
            &&& forall|k: int|
                0 <= k < binary.len() ==> #[trigger] binary[k] == resolved(code(lines)[k], table)
            &&& forall|k: int, symbols: Map<Seq<char>, int>, machine: Machine|
                0 <= k < binary.len() ==> #[trigger] binary[k].step(symbols, machine)
                    == code(lines)[k].step(program.symbols, machine)
        }),
{
    let start = Gathered { symbols: predefined(), instructions: Seq::<Operation>::empty() };
    let gathered = gathered_lines(lines, 0, start);
    lemma_reads_listing(bytes, lines, start);
    lemma_gathers_code(lines, 0, start);
    assert(gathered.instructions =~= code(lines));
    lemma_second_pass_succeeds(gathered.instructions, 0, gathered.symbols, LAST_REGISTER);
    lemma_second_pass_table(gathered.instructions, 0, gathered.symbols, LAST_REGISTER);
    let binary = assembled(bytes)->Ok_0;
    let table = symbol_table(lines);
    let program = Program { rom: code(lines), symbols: numbers_of(table) };
    assert(program.holds(lines, 0)) by {
        let read = program_of(gathered);
        assert(read.holds(lines, 0));
        assert forall|i: int| 0 <= i < lines.len() implies (#[trigger] lines[i] matches Line::Label {
            name,
            ..
        } ==> program.symbols[name] == Program::line_address(lines, i, 0)) by {
            if lines[i] is Label {
                lemma_gathers_labels(lines, 0, start, i);
                assert(gathered.symbols.contains_key(lines[i]->name));
                assert(read.symbols[lines[i]->name] == Program::line_address(lines, i, 0));
            }
        }
    }
    assert forall|k: int| 0 <= k < binary.len() implies #[trigger] binary[k] == resolved(
        code(lines)[k],
        table,
    ) by {
        assert(binary[k - 0] == resolved(gathered.instructions[k], table));
    }
    assert forall|k: int, symbols: Map<Seq<char>, int>, machine: Machine|
        0 <= k < binary.len() implies #[trigger] binary[k].step(symbols, machine) == code(
        lines,
    )[k].step(program.symbols, machine) by {
        assert(binary[k] == resolved(code(lines)[k], table));
        match code(lines)[k] {
            Operation::Load(Address::Symbol(name)) => {
                lemma_settles(gathered.instructions, 0, gathered.symbols, LAST_REGISTER, k);
            },
            _ => {},
        }
    }
}

/// Once the second pass has gone over it, the symbol of a load is known.
proof fn lemma_settles(
    instructions: Seq<Operation>,
    from: int,
    symbols: Map<Seq<char>, usize>,
    last: usize,
    at: int,
)
    requires
        0 <= from <= at < instructions.len(),
        second_pass(instructions, from, symbols, last) is Ok,
        instructions[at] matches Operation::Load(Address::Symbol(_)),
    ensures
        settled_symbols(instructions, from, symbols, last).contains_key(
            instructions[at]->Load_0->Symbol_0,
        ),
    decreases instructions.len() - from,
{
    let one = settled(instructions[from], symbols, last)->Ok_0;
    if from < at {
        lemma_settles(instructions, from + 1, one.symbols, one.last, at);
    } else {
        lemma_second_pass_table(instructions, from + 1, one.symbols, one.last);
        assert(one.symbols.contains_key(instructions[at]->Load_0->Symbol_0));
    }
}

} // verus!
