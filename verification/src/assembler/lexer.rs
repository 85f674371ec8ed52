//! The lexer of assembly text: a state machine over the bytes of a source,
//! which hands out one token at a time.
//!
//! A line is empty, or a comment, or one of three things and then perhaps a
//! comment: `@` and an address, a label in round brackets, or a computation
//! with an optional destination in front and an optional jump behind. The
//! tokens of a computation always come in threes: destination, computation,
//! jump, where a missing destination or jump is a token too.

use crate::instruction::{Address, AddrToken, CompToken, DestToken, JumpToken};
use crate::numeral::{all_decimal_digits, decimal_value, digit_value, is_decimal_digit};
use vstd::prelude::*;
use vstd::string::{StrSliceExecFns, StringSliceAdditionalSpecFns};

verus! {

/// The mathematical content of a [`Token`].
pub ghost enum TokenModel {
    Dest(DestToken),
    Comp(CompToken),
    Jump(JumpToken),
    Addr(Address),
    Label(Seq<char>),
}

/// A token of assembly text.
#[derive(Debug)]
pub enum Token {
    Dest(DestToken),
    Comp(CompToken),
    Jump(JumpToken),
    Addr(AddrToken),
    Label(String),
}

impl View for Token {
    type V = TokenModel;

    open spec fn view(&self) -> TokenModel {
        match self {
            Token::Dest(dest) => TokenModel::Dest(*dest),
            Token::Comp(comp) => TokenModel::Comp(*comp),
            Token::Jump(jump) => TokenModel::Jump(*jump),
            Token::Addr(addr) => TokenModel::Addr(addr@),
            Token::Label(name) => TokenModel::Label(name@),
        }
    }
}

/// Where in a line the lexer stands.
#[derive(Debug, PartialEq, Eq, Clone, Copy, Structural)]
pub enum LexerState {
    /// Before an instruction, a label or a comment.
    InstructionStart,
    /// Inside a comment.
    Comment,
    /// Behind the `@` of an address instruction.
    Address,
    /// Behind the opening bracket of a label.
    Label,
    /// Behind the name of a label.
    LabelEnd,
    /// Before the destination of a computation.
    Dest,
    /// Before the computation itself.
    Comp,
    /// Behind the computation.
    AfterComp,
    /// Behind the `;` of a jump.
    Jump,
    /// Behind an instruction or a label.
    InstructionEnd,
}

/// Why the text is not assembly.
#[derive(Debug, PartialEq, Eq, Clone, Copy, Structural)]
pub enum LexErrorKind {
    /// A label is empty, begins with a character that no label may begin
    /// with, or is not closed by a bracket.
    InvalidLabel,
    /// No computation is spelled here.
    InvalidComputation,
    /// No jump is spelled here.
    InvalidJump,
    /// Something other than a comment follows an instruction on its line.
    UnexpectedCharacter,
}

/// A lexical error: the row and column (both counted from 1) of the byte
/// at which the lexer stood, and that byte as a character, if the text had
/// not ended there.
#[derive(Debug, PartialEq, Eq, Clone, Copy)]
pub struct LexError {
    pub kind: LexErrorKind,
    pub row: usize,
    pub col: usize,
    pub found: Option<char>,
}

/// The error of the given kind at `pos`.
pub open spec fn error_at(bytes: Seq<u8>, kind: LexErrorKind, pos: int) -> LexError {
    LexError {
        kind,
        row: row_at(bytes, pos) as usize,
        col: col_at(bytes, pos) as usize,
        found: match byte_at(bytes, pos) {
            Some(b) => Some(b as char),
            None => None,
        },
    }
}

/// The row, counted from 1, of the byte at index `pos`.
pub open spec fn row_at(bytes: Seq<u8>, pos: int) -> nat
    decreases pos,
{
    if pos <= 0 {
        1
    } else if bytes[pos - 1] == 10 {
        row_at(bytes, pos - 1) + 1
    } else {
        row_at(bytes, pos - 1)
    }
}

/// The column, counted from 1, of the byte at index `pos`.
pub open spec fn col_at(bytes: Seq<u8>, pos: int) -> nat
    decreases pos,
{
    if pos <= 0 || bytes[pos - 1] == 10 {
        1
    } else {
        col_at(bytes, pos - 1) + 1
    }
}

/// Whether the bytes from `pos` on spell `word`.
pub open spec fn spelled_at(bytes: Seq<u8>, pos: int, word: Seq<char>) -> bool {
    &&& 0 <= pos
    &&& pos + word.len() <= bytes.len()
    &&& forall|i: int| 0 <= i < word.len() ==> (#[trigger] bytes[pos + i]) as char == word[i]
}

/// The byte at `pos`, if there is one.
pub open spec fn byte_at(bytes: Seq<u8>, pos: int) -> Option<u8> {
    if 0 <= pos < bytes.len() {
        Some(bytes[pos])
    } else {
        None
    }
}

/// Space, tab, carriage return.
pub open spec fn is_blank(b: u8) -> bool {
    b == 32 || b == 9 || b == 13
}

/// A label begins with a letter, an underscore or a dollar sign.
pub open spec fn is_label_start(b: u8) -> bool {
    (65 <= b <= 90) || (97 <= b <= 122) || b == 95 || b == 36
}

/// A label goes on with letters, digits, underscores, dots, dollar signs
/// and hyphens.
pub open spec fn is_label_byte(b: u8) -> bool {
    is_label_start(b) || (48 <= b <= 57) || b == 46 || b == 45
}

pub open spec fn is_digit_byte(b: u8) -> bool {
    48 <= b <= 57
}

/// The end of the label bytes from `pos` on.
pub open spec fn label_end(bytes: Seq<u8>, pos: int) -> int
    decreases bytes.len() - pos,
{
    if 0 <= pos < bytes.len() && is_label_byte(bytes[pos]) {
        label_end(bytes, pos + 1)
    } else {
        pos
    }
}

/// The end of the digits from `pos` on.
pub open spec fn digits_end(bytes: Seq<u8>, pos: int) -> int
    decreases bytes.len() - pos,
{
    if 0 <= pos < bytes.len() && is_digit_byte(bytes[pos]) {
        digits_end(bytes, pos + 1)
    } else {
        pos
    }
}

/// The bytes of `from..to` as characters.
pub open spec fn chars_of(bytes: Seq<u8>, from: int, to: int) -> Seq<char> {
    Seq::new((to - from) as nat, |i: int| bytes[from + i] as char)
}

/// The label that begins at `pos`, if one does.
pub open spec fn label_at(bytes: Seq<u8>, pos: int) -> Option<Seq<char>> {
    if 0 <= pos < bytes.len() && is_label_start(bytes[pos]) {
        Some(chars_of(bytes, pos, label_end(bytes, pos)))
    } else {
        None
    }
}

/// The number that begins at `pos`, if one does that fits a machine word
/// of the assembler.
pub open spec fn number_at(bytes: Seq<u8>, pos: int) -> Option<nat> {
    let digits = chars_of(bytes, pos, digits_end(bytes, pos));
    if 0 <= pos && digits.len() > 0 && decimal_value(digits) <= usize::MAX {
        Some(decimal_value(digits))
    } else {
        None
    }
}

/// The destination spelled at `pos` with its `=`, and the spelling.
pub open spec fn dest_at(bytes: Seq<u8>, pos: int) -> Option<(DestToken, Seq<char>)> {
    if spelled_at(bytes, pos, "A="@) {
        Some((DestToken::A, "A="@))
    } else if spelled_at(bytes, pos, "AD="@) {
        Some((DestToken::AD, "AD="@))
    } else if spelled_at(bytes, pos, "ADM="@) {
        Some((DestToken::ADM, "ADM="@))
    } else if spelled_at(bytes, pos, "AM="@) {
        Some((DestToken::AM, "AM="@))
    } else if spelled_at(bytes, pos, "D="@) {
        Some((DestToken::D, "D="@))
    } else if spelled_at(bytes, pos, "MD="@) {
        Some((DestToken::MD, "MD="@))
    } else if spelled_at(bytes, pos, "M="@) {
        Some((DestToken::M, "M="@))
    } else {
        None
    }
}

/// The computation spelled at `pos`, and the spelling: the longest that
/// fits.
pub open spec fn comp_at(bytes: Seq<u8>, pos: int) -> Option<(CompToken, Seq<char>)> {
    if spelled_at(bytes, pos, "A+1"@) {
        Some((CompToken::AddA1, "A+1"@))
    } else if spelled_at(bytes, pos, "D+1"@) {
        Some((CompToken::AddD1, "D+1"@))
    } else if spelled_at(bytes, pos, "D+A"@) {
        Some((CompToken::AddDA, "D+A"@))
    } else if spelled_at(bytes, pos, "D+M"@) {
        Some((CompToken::AddDM, "D+M"@))
    } else if spelled_at(bytes, pos, "M+1"@) {
        Some((CompToken::AddM1, "M+1"@))
    } else if spelled_at(bytes, pos, "A-1"@) {
        Some((CompToken::SubA1, "A-1"@))
    } else if spelled_at(bytes, pos, "A-D"@) {
        Some((CompToken::SubAD, "A-D"@))
    } else if spelled_at(bytes, pos, "D-1"@) {
        Some((CompToken::SubD1, "D-1"@))
    } else if spelled_at(bytes, pos, "D-A"@) {
        Some((CompToken::SubDA, "D-A"@))
    } else if spelled_at(bytes, pos, "D-M"@) {
        Some((CompToken::SubDM, "D-M"@))
    } else if spelled_at(bytes, pos, "M-1"@) {
        Some((CompToken::SubM1, "M-1"@))
    } else if spelled_at(bytes, pos, "M-D"@) {
        Some((CompToken::SubMD, "M-D"@))
    } else if spelled_at(bytes, pos, "D&A"@) {
        Some((CompToken::AndDA, "D&A"@))
    } else if spelled_at(bytes, pos, "D&M"@) {
        Some((CompToken::AndDM, "D&M"@))
    } else if spelled_at(bytes, pos, "D|A"@) {
        Some((CompToken::OrDA, "D|A"@))
    } else if spelled_at(bytes, pos, "D|M"@) {
        Some((CompToken::OrDM, "D|M"@))
    } else if spelled_at(bytes, pos, "!A"@) {
        Some((CompToken::InvertA, "!A"@))
    } else if spelled_at(bytes, pos, "!D"@) {
        Some((CompToken::InvertD, "!D"@))
    } else if spelled_at(bytes, pos, "!M"@) {
        Some((CompToken::InvertM, "!M"@))
    } else if spelled_at(bytes, pos, "-1"@) {
        Some((CompToken::Negate1, "-1"@))
    } else if spelled_at(bytes, pos, "-A"@) {
        Some((CompToken::NegateA, "-A"@))
    } else if spelled_at(bytes, pos, "-D"@) {
        Some((CompToken::NegateD, "-D"@))
    } else if spelled_at(bytes, pos, "-M"@) {
        Some((CompToken::NegateM, "-M"@))
    } else if spelled_at(bytes, pos, "0"@) {
        Some((CompToken::Zero, "0"@))
    } else if spelled_at(bytes, pos, "1"@) {
        Some((CompToken::One, "1"@))
    } else if spelled_at(bytes, pos, "A"@) {
        Some((CompToken::A, "A"@))
    } else if spelled_at(bytes, pos, "D"@) {
        Some((CompToken::D, "D"@))
    } else if spelled_at(bytes, pos, "M"@) {
        Some((CompToken::M, "M"@))
    } else {
        None
    }
}

/// The jump spelled at `pos`, and the spelling.
pub open spec fn jump_at(bytes: Seq<u8>, pos: int) -> Option<(JumpToken, Seq<char>)> {
    if spelled_at(bytes, pos, "JGT"@) {
        Some((JumpToken::JGT, "JGT"@))
    } else if spelled_at(bytes, pos, "JEQ"@) {
        Some((JumpToken::JEQ, "JEQ"@))
    } else if spelled_at(bytes, pos, "JGE"@) {
        Some((JumpToken::JGE, "JGE"@))
    } else if spelled_at(bytes, pos, "JLT"@) {
        Some((JumpToken::JLT, "JLT"@))
    } else if spelled_at(bytes, pos, "JNE"@) {
        Some((JumpToken::JNE, "JNE"@))
    } else if spelled_at(bytes, pos, "JLE"@) {
        Some((JumpToken::JLE, "JLE"@))
    } else if spelled_at(bytes, pos, "JMP"@) {
        Some((JumpToken::JMP, "JMP"@))
    } else {
        None
    }
}

/// What one step of the state machine does.
pub ghost enum Step {
    /// It goes on in `state` at `pos`, and has perhaps made a token.
    Next { state: LexerState, pos: int, token: Option<TokenModel> },
    /// The text has ended where it may end.
    End,
    /// The text is not assembly.
    Fail(LexErrorKind),
}

/// Before an instruction: whitespace is passed over; `//` begins a
/// comment, `@` an address, `(` a label; anything else has to be a
/// computation.
pub open spec fn step_instruction_start(bytes: Seq<u8>, pos: int) -> Step {
    match byte_at(bytes, pos) {
        Some(b) => if is_blank(b) || b == 10 {
            Step::Next { state: LexerState::InstructionStart, pos: pos + 1, token: None }
        } else if spelled_at(bytes, pos, "//"@) {
            Step::Next { state: LexerState::Comment, pos: pos + "//"@.len(), token: None }
        } else if spelled_at(bytes, pos, "@"@) {
            Step::Next { state: LexerState::Address, pos: pos + "@"@.len(), token: None }
        } else if spelled_at(bytes, pos, "("@) {
            Step::Next { state: LexerState::Label, pos: pos + "("@.len(), token: None }
        } else {
            Step::Next { state: LexerState::Dest, pos, token: None }
        },
        None => Step::End,
    }
}

/// In a comment: anything is passed over up to the end of the line.
pub open spec fn step_comment(bytes: Seq<u8>, pos: int) -> Step {
    match byte_at(bytes, pos) {
        Some(b) => Step::Next {
            state: if b == 10 {
                LexerState::InstructionStart
            } else {
                LexerState::Comment
            },
            pos: pos + 1,
            token: None,
        },
        None => Step::End,
    }
}

/// Behind `@`: a symbol, or else a number; where there is neither, or the
/// number is too large, no token is made.
pub open spec fn step_address(bytes: Seq<u8>, pos: int) -> Step {
    match label_at(bytes, pos) {
        Some(name) => Step::Next {
            state: LexerState::InstructionEnd,
            pos: label_end(bytes, pos),
            token: Some(TokenModel::Addr(Address::Symbol(name))),
        },
        None => Step::Next {
            state: LexerState::InstructionEnd,
            pos: digits_end(bytes, pos),
            token: match number_at(bytes, pos) {
                Some(n) => Some(TokenModel::Addr(Address::Number(n))),
                None => None,
            },
        },
    }
}

/// Behind `(`: the name of the label.
pub open spec fn step_label(bytes: Seq<u8>, pos: int) -> Step {
    match label_at(bytes, pos) {
        Some(name) => Step::Next {
            state: LexerState::LabelEnd,
            pos: label_end(bytes, pos),
            token: Some(TokenModel::Label(name)),
        },
        None => Step::Fail(LexErrorKind::InvalidLabel),
    }
}

/// Behind the name of a label: the closing bracket.
pub open spec fn step_label_end(bytes: Seq<u8>, pos: int) -> Step {
    if spelled_at(bytes, pos, ")"@) {
        Step::Next { state: LexerState::InstructionEnd, pos: pos + ")"@.len(), token: None }
    } else {
        Step::Fail(LexErrorKind::InvalidLabel)
    }
}

/// Before a computation: its destination, or the token that says there is
/// none.
pub open spec fn step_dest(bytes: Seq<u8>, pos: int) -> Step {
    match dest_at(bytes, pos) {
        Some((dest, word)) => Step::Next {
            state: LexerState::Comp,
            pos: pos + word.len(),
            token: Some(TokenModel::Dest(dest)),
        },
        None => Step::Next {
            state: LexerState::Comp,
            pos,
            token: Some(TokenModel::Dest(DestToken::Empty)),
        },
    }
}

/// The computation.
pub open spec fn step_comp(bytes: Seq<u8>, pos: int) -> Step {
    match comp_at(bytes, pos) {
        Some((comp, word)) => Step::Next {
            state: LexerState::AfterComp,
            pos: pos + word.len(),
            token: Some(TokenModel::Comp(comp)),
        },
        None => Step::Fail(LexErrorKind::InvalidComputation),
    }
}

/// Behind a computation: `;` begins its jump; else there is a token that
/// says there is none.
pub open spec fn step_after_comp(bytes: Seq<u8>, pos: int) -> Step {
    if spelled_at(bytes, pos, ";"@) {
        Step::Next { state: LexerState::Jump, pos: pos + ";"@.len(), token: None }
    } else {
        Step::Next {
            state: LexerState::InstructionEnd,
            pos,
            token: Some(TokenModel::Jump(JumpToken::Empty)),
        }
    }
}

/// The jump.
pub open spec fn step_jump(bytes: Seq<u8>, pos: int) -> Step {
    match jump_at(bytes, pos) {
        Some((jump, word)) => Step::Next {
            state: LexerState::InstructionEnd,
            pos: pos + word.len(),
            token: Some(TokenModel::Jump(jump)),
        },
        None => Step::Fail(LexErrorKind::InvalidJump),
    }
}

/// Behind an instruction: a comment, blanks, the end of the line or of the
/// text, and nothing else.
pub open spec fn step_instruction_end(bytes: Seq<u8>, pos: int) -> Step {
    match byte_at(bytes, pos) {
        Some(b) => if spelled_at(bytes, pos, "//"@) {
            Step::Next { state: LexerState::Comment, pos: pos + "//"@.len(), token: None }
        } else if is_blank(b) {
            Step::Next { state: LexerState::InstructionEnd, pos: pos + 1, token: None }
        } else if b == 10 {
            Step::Next { state: LexerState::InstructionStart, pos: pos + 1, token: None }
        } else {
            Step::Fail(LexErrorKind::UnexpectedCharacter)
        },
        None => Step::End,
    }
}

/// One step of the state machine, from `state` at `pos`.
pub open spec fn step(bytes: Seq<u8>, state: LexerState, pos: int) -> Step {
    match state {
        LexerState::InstructionStart => step_instruction_start(bytes, pos),
        LexerState::Comment => step_comment(bytes, pos),
        LexerState::Address => step_address(bytes, pos),
        LexerState::Label => step_label(bytes, pos),
        LexerState::LabelEnd => step_label_end(bytes, pos),
        LexerState::Dest => step_dest(bytes, pos),
        LexerState::Comp => step_comp(bytes, pos),
        LexerState::AfterComp => step_after_comp(bytes, pos),
        LexerState::Jump => step_jump(bytes, pos),
        LexerState::InstructionEnd => step_instruction_end(bytes, pos),
    }
}

impl LexerState {
    /// How many steps the state can be from one that reads a byte.
    pub open spec fn rank(self) -> nat {
        match self {
            LexerState::InstructionStart => 2,
            LexerState::Dest | LexerState::Address | LexerState::AfterComp => 1,
            _ => 0,
        }
    }
}

/// What a request for the next token comes to.
pub ghost enum Scan {
    /// A token; the lexer is left in `state` at `pos`.
    Token { token: TokenModel, state: LexerState, pos: int },
    /// The end of the text, reached at `pos`.
    End { pos: int },
    /// An error, met at `pos`.
    Fail { kind: LexErrorKind, pos: int },
}

/// The steps from `state` at `pos` up to the first that makes a token,
/// ends the text or fails.
pub open spec fn scan(bytes: Seq<u8>, state: LexerState, pos: int) -> Scan
    decreases bytes.len() - pos, state.rank(),
    via scan_decreases
{
    match step(bytes, state, pos) {
        Step::End => Scan::End { pos },
        Step::Fail(kind) => Scan::Fail { kind, pos },
        Step::Next { state: next, pos: after, token } => match token {
            Some(token) => Scan::Token { token, state: next, pos: after },
            None => scan(bytes, next, after),
        },
    }
}

#[via_fn]
proof fn scan_decreases(bytes: Seq<u8>, state: LexerState, pos: int) {
    lemma_step_progress(bytes, state, pos);
}

/// A run of label bytes or of digits ends at or after its start and within
/// the text.
pub proof fn lemma_run_bounds(bytes: Seq<u8>, pos: int)
    requires
        0 <= pos <= bytes.len(),
    ensures
        pos <= label_end(bytes, pos) <= bytes.len(),
        pos <= digits_end(bytes, pos) <= bytes.len(),
        pos < bytes.len() && is_label_byte(bytes[pos]) ==> pos < label_end(bytes, pos),
    decreases bytes.len() - pos,
{
    if pos < bytes.len() {
        lemma_run_bounds(bytes, pos + 1);
    }
}

/// A step that goes on either reads at least one byte of the text or
/// stays where it is and comes nearer to a state that reads.
pub proof fn lemma_step_progress(bytes: Seq<u8>, state: LexerState, pos: int)
    ensures
        step(bytes, state, pos) matches Step::Next { state: next, pos: after, .. } ==> (0 <= pos
            < after <= bytes.len()) || (pos == after && next.rank() < state.rank()),
{
    if step(bytes, state, pos) is Next {
        match state {
            LexerState::Address | LexerState::Label => {
                if 0 <= pos <= bytes.len() {
                    lemma_run_bounds(bytes, pos);
                }
            },
            LexerState::Comp => {
                lemma_comp_word(bytes, pos);
            },
            LexerState::Jump => {
                reveal_strlit("JGT");
                reveal_strlit("JEQ");
                reveal_strlit("JGE");
                reveal_strlit("JLT");
                reveal_strlit("JNE");
                reveal_strlit("JLE");
                reveal_strlit("JMP");
            },
            LexerState::LabelEnd => {
                reveal_strlit(")");
            },
            LexerState::InstructionEnd => {
                reveal_strlit("//");
            },
            _ => {},
        }
    }
}

/// A scan never goes back and never leaves the text; where it makes a
/// token it has read at least one byte or has come nearer to a state that
/// reads.
pub proof fn lemma_scan_progress(bytes: Seq<u8>, state: LexerState, pos: int)
    ensures
        match scan(bytes, state, pos) {
            Scan::Token { state: next, pos: after, .. } => (0 <= pos < after <= bytes.len()) || (
            pos == after && next.rank() < state.rank()),
            Scan::End { pos: after } => (0 <= pos < after <= bytes.len()) || pos == after,
            Scan::Fail { pos: after, .. } => (0 <= pos < after <= bytes.len()) || pos == after,
        },
    decreases bytes.len() - pos, state.rank(),
{
    lemma_step_progress(bytes, state, pos);
    match step(bytes, state, pos) {
        Step::Next { state: next, pos: after, token: None } => {
            lemma_scan_progress(bytes, next, after);
        },
        _ => {},
    }
}

/// The spelling of a computation is never empty.
pub proof fn lemma_comp_word(bytes: Seq<u8>, pos: int)
    ensures
        comp_at(bytes, pos) matches Some((_, word)) ==> word.len() > 0,
{
    reveal_strlit("A+1");
    reveal_strlit("D+1");
    reveal_strlit("D+A");
    reveal_strlit("D+M");
    reveal_strlit("M+1");
    reveal_strlit("A-1");
    reveal_strlit("A-D");
    reveal_strlit("D-1");
    reveal_strlit("D-A");
    reveal_strlit("D-M");
    reveal_strlit("M-1");
    reveal_strlit("M-D");
    reveal_strlit("D&A");
    reveal_strlit("D&M");
    reveal_strlit("D|A");
    reveal_strlit("D|M");
    reveal_strlit("!A");
    reveal_strlit("!D");
    reveal_strlit("!M");
    reveal_strlit("-1");
    reveal_strlit("-A");
    reveal_strlit("-D");
    reveal_strlit("-M");
    reveal_strlit("0");
    reveal_strlit("1");
    reveal_strlit("A");
    reveal_strlit("D");
    reveal_strlit("M");
}

/// The rows and columns of a text stay below its length plus two.
pub proof fn lemma_row_col_bounds(bytes: Seq<u8>, pos: int)
    ensures
        1 <= row_at(bytes, pos),
        1 <= col_at(bytes, pos),
        pos >= 0 ==> row_at(bytes, pos) <= pos + 1 && col_at(bytes, pos) <= pos + 1,
    decreases pos,
{
    if pos > 0 {
        lemma_row_col_bounds(bytes, pos - 1);
    }
}

/// What a state function hands back: the state to go on in, and the token
/// it has made if it has made one; or nothing at the end of the text.
pub struct Transition {
    pub next: LexerState,
    pub token: Option<Token>,
}

/// A cursor over the bytes of an assembly text, and the state of the
/// machine that reads them.
pub struct Lexer {
    bytes: Vec<u8>,
    position: usize,
    state: LexerState,
    row: usize,
    col: usize,
}

impl Lexer {
    /// The bytes being read.
    pub closed spec fn bytes(&self) -> Seq<u8> {
        self.bytes@
    }

    /// The index of the next byte to read.
    pub closed spec fn position(&self) -> int {
        self.position as int
    }

    /// The state of the machine.
    pub closed spec fn state(&self) -> LexerState {
        self.state
    }

    /// The cursor lies within the text and knows its row and column, and
    /// the text is short enough for every row and column to be counted.
    pub closed spec fn wf(&self) -> bool {
        &&& self.position <= self.bytes.len() < usize::MAX
        &&& self.row == row_at(self.bytes@, self.position as int)
        &&& self.col == col_at(self.bytes@, self.position as int)
    }

    /// A lexer in good order stands within its text, and the text is short
    /// enough for every row and column to be counted.
    pub proof fn lemma_cursor_lies_within(&self)
        requires
            self.wf(),
        ensures
            0 <= self.position() <= self.bytes().len() < usize::MAX,
    {
    }

    /// Whether the result of a state function is what the step of `state`
    /// at the old position says, with the cursor moved as the step moves
    /// it.
    pub open spec fn stepped(
        bytes: Seq<u8>,
        state: LexerState,
        pos: int,
        result: Result<Option<Transition>, LexError>,
        after: int,
    ) -> bool {
        match step(bytes, state, pos) {
            Step::End => result matches Ok(None) && after == pos,
            Step::Fail(kind) => result matches Err(error) && error == error_at(bytes, kind, pos)
                && after == pos,
            Step::Next { state: next, pos: moved, token } => result matches Ok(Some(transition))
                && transition.next == next && after == moved && match token {
                Some(token) => transition.token matches Some(made) && made@ == token,
                None => transition.token is None,
            },
        }
    }

    /// A lexer at the start of `s`.
    pub fn from_str(s: &str) -> (lexer: Lexer)
        requires
            s.spec_bytes().len() < usize::MAX,
        ensures
            lexer.wf(),
            lexer.bytes() == s.spec_bytes(),
            lexer.position() == 0,
            lexer.state() == LexerState::InstructionStart,
    {
        Lexer {
            bytes: s.as_bytes_vec(),
            position: 0,
            state: LexerState::InstructionStart,
            row: 1,
            col: 1,
        }
    }

    fn current_byte(&self) -> (byte: Option<u8>)
        requires
            self.wf(),
        ensures
            byte == byte_at(self.bytes(), self.position()),
    {
        if self.position < self.bytes.len() {
            Some(self.bytes[self.position])
        } else {
            None
        }
    }

    fn current_char(&self) -> (c: Option<char>)
        requires
            self.wf(),
        ensures
            c == match byte_at(self.bytes(), self.position()) {
                Some(b) => Some(b as char),
                None => None,
            },
    {
        match self.current_byte() {
            Some(byte) => Some(byte as char),
            None => None,
        }
    }

    /// The error of the given kind at the cursor.
    fn error(&self, kind: LexErrorKind) -> (error: LexError)
        requires
            self.wf(),
        ensures
            error == error_at(self.bytes(), kind, self.position()),
    {
        LexError { kind, row: self.row, col: self.col, found: self.current_char() }
    }

    /// Moves the cursor `n` bytes on, if there are as many.
    fn advance(&mut self, n: usize) -> (moved: bool)
        requires
            old(self).wf(),
        ensures
            final(self).wf(),
            final(self).bytes() == old(self).bytes(),
            final(self).state() == old(self).state(),
            moved == (old(self).position() + n <= old(self).bytes().len()),
            final(self).position() == if moved {
                old(self).position() + n
            } else {
                old(self).position()
            },
    {
        if n > self.bytes.len() - self.position {
            false
        } else {
            let new_position = self.position + n;
            while self.position < new_position
                invariant
                    self.wf(),
                    self.bytes() == old(self).bytes(),
                    self.state() == old(self).state(),
                    old(self).position() <= self.position() <= new_position <= self.bytes().len(),
                decreases new_position - self.position,
            {
                proof {
                    lemma_row_col_bounds(self.bytes@, self.position as int + 1);
                }
                if self.bytes[self.position] == 10u8 {
                    self.row = self.row + 1;
                    self.col = 1;
                } else {
                    self.col = self.col + 1;
                }
                self.position = self.position + 1;
            }
            true
        }
    }

    /// Steps over `s` if the text goes on with it.
    fn accept_str(&mut self, s: &str) -> (accepted: bool)
        requires
            old(self).wf(),
        ensures
            final(self).wf(),
            final(self).bytes() == old(self).bytes(),
            final(self).state() == old(self).state(),
            accepted == spelled_at(old(self).bytes(), old(self).position(), s@),
            final(self).position() == if accepted {
                old(self).position() + s@.len()
            } else {
                old(self).position()
            },
    {
        let mut n: usize = 0;
        for c in it: s.chars()
            invariant
                it.seq() == s@,
                n == it.index(),
                self.position + n <= self.bytes.len(),
                *self == *old(self),
                self.wf(),
                forall|i: int| 0 <= i < n ==> (#[trigger] self.bytes@[self.position + i]) as char == s@[i],
        {
            if n >= self.bytes.len() - self.position || self.bytes[self.position + n] as char != c {
                proof {
                    if spelled_at(self.bytes@, self.position as int, s@) {
                        assert(self.bytes@[self.position + n] as char == s@[n as int]);
                    }
                }
                return false;
            }
            n = n + 1;
        }
        self.advance(n)
    }

    fn accept_any(&mut self) -> (accepted: bool)
        requires
            old(self).wf(),
        ensures
            final(self).wf(),
            final(self).bytes() == old(self).bytes(),
            final(self).state() == old(self).state(),
            accepted == byte_at(old(self).bytes(), old(self).position()) is Some,
            final(self).position() == if accepted {
                old(self).position() + 1
            } else {
                old(self).position()
            },
    {
        match self.current_byte() {
            Some(_) => self.advance(1),
            None => false,
        }
    }

    fn accept_whitespace(&mut self) -> (accepted: bool)
        requires
            old(self).wf(),
        ensures
            final(self).wf(),
            final(self).bytes() == old(self).bytes(),
            final(self).state() == old(self).state(),
            accepted == (byte_at(old(self).bytes(), old(self).position()) matches Some(b) && (
            is_blank(b) || b == 10)),
            final(self).position() == if accepted {
                old(self).position() + 1
            } else {
                old(self).position()
            },
    {
        match self.current_byte() {
            Some(b) => if b == 32 || b == 9 || b == 13 || b == 10 {
                self.advance(1)
            } else {
                false
            },
            None => false,
        }
    }

    fn accept_non_eol_whitespace(&mut self) -> (accepted: bool)
        requires
            old(self).wf(),
        ensures
            final(self).wf(),
            final(self).bytes() == old(self).bytes(),
            final(self).state() == old(self).state(),
            accepted == (byte_at(old(self).bytes(), old(self).position()) matches Some(b)
                && is_blank(b)),
            final(self).position() == if accepted {
                old(self).position() + 1
            } else {
                old(self).position()
            },
    {
        match self.current_byte() {
            Some(b) => if b == 32 || b == 13 || b == 9 {
                self.advance(1)
            } else {
                false
            },
            None => false,
        }
    }

    fn accept_eol(&mut self) -> (accepted: bool)
        requires
            old(self).wf(),
        ensures
            final(self).wf(),
            final(self).bytes() == old(self).bytes(),
            final(self).state() == old(self).state(),
            accepted == (byte_at(old(self).bytes(), old(self).position()) == Some(10u8)),
            final(self).position() == if accepted {
                old(self).position() + 1
            } else {
                old(self).position()
            },
    {
        match self.current_byte() {
            Some(b) => if b == 10 {
                self.advance(1)
            } else {
                false
            },
            None => false,
        }
    }

    /// Steps over a label, if one begins at the cursor, and hands it back.
    fn accept_label(&mut self) -> (label: Option<String>)
        requires
            old(self).wf(),
        ensures
            final(self).wf(),
            final(self).bytes() == old(self).bytes(),
            final(self).state() == old(self).state(),
            match label {
                Some(name) => label_at(old(self).bytes(), old(self).position()) == Some(name@)
                    && final(self).position() == label_end(
                    old(self).bytes(),
                    old(self).position(),
                ),
                None => label_at(old(self).bytes(), old(self).position()) is None
                    && final(self).position() == old(self).position(),
            },
    {
        let mut label = String::new();
        // labels can start with a letter, underscore, or dollar sign
        match self.current_byte() {
            Some(b) => if !((65 <= b && b <= 90) || (97 <= b && b <= 122) || b == 95 || b == 36) {
                return None;
            },
            None => {
                return None;
            },
        }
        let ghost start = self.position();
        loop
            invariant
                self.wf(),
                self.bytes() == old(self).bytes(),
                self.state() == old(self).state(),
                start == old(self).position(),
                start <= self.position() <= self.bytes().len(),
                label_end(self.bytes(), self.position()) == label_end(self.bytes(), start),
                label@ == chars_of(self.bytes(), start, self.position()),
            ensures
                self.wf(),
                self.bytes() == old(self).bytes(),
                self.state() == old(self).state(),
                self.position() == label_end(self.bytes(), start),
                label@ == chars_of(self.bytes(), start, self.position()),
            decreases self.bytes().len() - self.position(),
        {
            match self.current_byte() {
                Some(b) => {
                    if !((65 <= b && b <= 90) || (97 <= b && b <= 122) || (48 <= b && b <= 57) || b
                        == 95 || b == 46 || b == 36 || b == 45) {
                        break ;
                    }
                    label.push(b as char);
                    assert(label@ == chars_of(self.bytes(), start, self.position() + 1));
                    self.advance(1);
                },
                None => {
                    break ;
                },
            }
        }
        Some(label)
    }

    /// Steps over the digits at the cursor and hands back their number, if
    /// there are any and the number is not too large.
    fn accept_addr(&mut self) -> (addr: Option<usize>)
        requires
            old(self).wf(),
        ensures
            final(self).wf(),
            final(self).bytes() == old(self).bytes(),
            final(self).state() == old(self).state(),
            final(self).position() == digits_end(old(self).bytes(), old(self).position()),
            match addr {
                Some(n) => number_at(old(self).bytes(), old(self).position()) == Some(n as nat),
                None => number_at(old(self).bytes(), old(self).position()) is None,
            },
    {
        let mut number: usize = 0;
        let mut fits = true;
        let begin = self.position;
        let ghost start = self.position();
        let ghost bytes = self.bytes();
        loop
            invariant
                self.wf(),
                self.bytes() == bytes,
                bytes == old(self).bytes(),
                self.state() == old(self).state(),
                start == old(self).position(),
                start <= self.position() <= bytes.len(),
                digits_end(bytes, self.position()) == digits_end(bytes, start),
                all_decimal_digits(chars_of(bytes, start, self.position())),
                fits ==> number == decimal_value(chars_of(bytes, start, self.position())),
                !fits ==> decimal_value(chars_of(bytes, start, self.position())) > usize::MAX,
            ensures
                self.wf(),
                self.bytes() == bytes,
                self.state() == old(self).state(),
                start <= self.position(),
                self.position() == digits_end(bytes, start),
                fits ==> number == decimal_value(chars_of(bytes, start, self.position())),
                !fits ==> decimal_value(chars_of(bytes, start, self.position())) > usize::MAX,
            decreases bytes.len() - self.position(),
        {
            match self.current_byte() {
                Some(b) => {
                    if !(48 <= b && b <= 57) {
                        break ;
                    }
                    let digit = (b - 48) as usize;
                    proof {
                        let before = chars_of(bytes, start, self.position());
                        let after = chars_of(bytes, start, self.position() + 1);
                        assert(after.drop_last() =~= before);
                        assert(after.last() == b as char);
                        assert forall|i: int| 0 <= i < after.len() implies is_decimal_digit(
                            #[trigger] after[i],
                        ) by {
                            if i < before.len() {
                                assert(after[i] == before[i]);
                            }
                        }
                        assert(digit_value(b as char) == digit);
                    }
                    if fits && number <= (usize::MAX - digit) / 10 {
                        number = number * 10 + digit;
                    } else {
                        fits = false;
                    }
                    self.advance(1);
                },
                None => {
                    break ;
                },
            }
        }
        if fits && self.position > begin {
            Some(number)
        } else {
            None
        }
    }
}

impl Lexer {
    fn eof(&self) -> (ended: bool)
        requires
            self.wf(),
        ensures
            ended == byte_at(self.bytes(), self.position()) is None,
    {
        !(self.position < self.bytes.len())
    }

    fn lex_instruction_start(&mut self) -> (result: Result<Option<Transition>, LexError>)
        requires
            old(self).wf(),
        ensures
            final(self).wf(),
            final(self).bytes() == old(self).bytes(),
            final(self).state() == old(self).state(),
            Self::stepped(
                old(self).bytes(),
                LexerState::InstructionStart,
                old(self).position(),
                result,
                final(self).position(),
            ),
    {
        proof {
            reveal_strlit("//");
            reveal_strlit("@");
            reveal_strlit("(");
        }
        if self.accept_whitespace() {
            Ok(Some(Transition { next: LexerState::InstructionStart, token: None }))
        } else if self.accept_str("//") {
            Ok(Some(Transition { next: LexerState::Comment, token: None }))
        } else if self.accept_str("@") {
            Ok(Some(Transition { next: LexerState::Address, token: None }))
        } else if self.accept_str("(") {
            Ok(Some(Transition { next: LexerState::Label, token: None }))
        } else if self.eof() {
            Ok(None)
        } else {
            Ok(Some(Transition { next: LexerState::Dest, token: None }))
        }
    }

    fn lex_comment(&mut self) -> (result: Result<Option<Transition>, LexError>)
        requires
            old(self).wf(),
        ensures
            final(self).wf(),
            final(self).bytes() == old(self).bytes(),
            final(self).state() == old(self).state(),
            Self::stepped(
                old(self).bytes(),
                LexerState::Comment,
                old(self).position(),
                result,
                final(self).position(),
            ),
    {
        if self.accept_eol() {
            Ok(Some(Transition { next: LexerState::InstructionStart, token: None }))
        } else if self.accept_any() {
            Ok(Some(Transition { next: LexerState::Comment, token: None }))
        } else {
            Ok(None)
        }
    }

    fn lex_address(&mut self) -> (result: Result<Option<Transition>, LexError>)
        requires
            old(self).wf(),
        ensures
            final(self).wf(),
            final(self).bytes() == old(self).bytes(),
            final(self).state() == old(self).state(),
            Self::stepped(
                old(self).bytes(),
                LexerState::Address,
                old(self).position(),
                result,
                final(self).position(),
            ),
    {
        let token = if let Some(label) = self.accept_label() {
            Some(Token::Addr(AddrToken::Dynamic(label)))
        } else if let Some(addr) = self.accept_addr() {
            Some(Token::Addr(AddrToken::Static(addr)))
        } else {
            None
        };
        Ok(Some(Transition { next: LexerState::InstructionEnd, token }))
    }

    fn lex_label(&mut self) -> (result: Result<Option<Transition>, LexError>)
        requires
            old(self).wf(),
        ensures
            final(self).wf(),
            final(self).bytes() == old(self).bytes(),
            final(self).state() == old(self).state(),
            Self::stepped(
                old(self).bytes(),
                LexerState::Label,
                old(self).position(),
                result,
                final(self).position(),
            ),
    {
        if let Some(label) = self.accept_label() {
            Ok(Some(Transition { next: LexerState::LabelEnd, token: Some(Token::Label(label)) }))
        } else {
            Err(self.error(LexErrorKind::InvalidLabel))
        }
    }

    fn lex_label_end(&mut self) -> (result: Result<Option<Transition>, LexError>)
        requires
            old(self).wf(),
        ensures
            final(self).wf(),
            final(self).bytes() == old(self).bytes(),
            final(self).state() == old(self).state(),
            Self::stepped(
                old(self).bytes(),
                LexerState::LabelEnd,
                old(self).position(),
                result,
                final(self).position(),
            ),
    {
        if self.accept_str(")") {
            Ok(Some(Transition { next: LexerState::InstructionEnd, token: None }))
        } else {
            Err(self.error(LexErrorKind::InvalidLabel))
        }
    }

    fn lex_dest(&mut self) -> (result: Result<Option<Transition>, LexError>)
        requires
            old(self).wf(),
        ensures
            final(self).wf(),
            final(self).bytes() == old(self).bytes(),
            final(self).state() == old(self).state(),
            Self::stepped(
                old(self).bytes(),
                LexerState::Dest,
                old(self).position(),
                result,
                final(self).position(),
            ),
    {
        let dest = if self.accept_str("A=") {
            DestToken::A
        } else if self.accept_str("AD=") {
            DestToken::AD
        } else if self.accept_str("ADM=") {
            DestToken::ADM
        } else if self.accept_str("AM=") {
            DestToken::AM
        } else if self.accept_str("D=") {
            DestToken::D
        } else if self.accept_str("MD=") {
            DestToken::MD
        } else if self.accept_str("M=") {
            DestToken::M
        } else {
            DestToken::Empty
        };
        Ok(Some(Transition { next: LexerState::Comp, token: Some(Token::Dest(dest)) }))
    }

    /// The computation at the cursor, if one is spelled there.
    fn accept_comp(&mut self) -> (comp: Option<CompToken>)
        requires
            old(self).wf(),
        ensures
            final(self).wf(),
            final(self).bytes() == old(self).bytes(),
            final(self).state() == old(self).state(),
            match comp_at(old(self).bytes(), old(self).position()) {
                Some((token, word)) => comp == Some(token) && final(self).position() == old(
                    self,
                ).position() + word.len(),
                None => comp is None && final(self).position() == old(self).position(),
            },
    {
        if self.accept_str("A+1") {
            Some(CompToken::AddA1)
        } else if self.accept_str("D+1") {
            Some(CompToken::AddD1)
        } else if self.accept_str("D+A") {
            Some(CompToken::AddDA)
        } else if self.accept_str("D+M") {
            Some(CompToken::AddDM)
        } else if self.accept_str("M+1") {
            Some(CompToken::AddM1)
        } else if self.accept_str("A-1") {
            Some(CompToken::SubA1)
        } else if self.accept_str("A-D") {
            Some(CompToken::SubAD)
        } else if self.accept_str("D-1") {
            Some(CompToken::SubD1)
        } else if self.accept_str("D-A") {
            Some(CompToken::SubDA)
        } else if self.accept_str("D-M") {
            Some(CompToken::SubDM)
        } else if self.accept_str("M-1") {
            Some(CompToken::SubM1)
        } else if self.accept_str("M-D") {
            Some(CompToken::SubMD)
        } else if self.accept_str("D&A") {
            Some(CompToken::AndDA)
        } else if self.accept_str("D&M") {
            Some(CompToken::AndDM)
        } else if self.accept_str("D|A") {
            Some(CompToken::OrDA)
        } else if self.accept_str("D|M") {
            Some(CompToken::OrDM)
        } else if self.accept_str("!A") {
            Some(CompToken::InvertA)
        } else if self.accept_str("!D") {
            Some(CompToken::InvertD)
        } else if self.accept_str("!M") {
            Some(CompToken::InvertM)
        } else if self.accept_str("-1") {
            Some(CompToken::Negate1)
        } else if self.accept_str("-A") {
            Some(CompToken::NegateA)
        } else if self.accept_str("-D") {
            Some(CompToken::NegateD)
        } else if self.accept_str("-M") {
            Some(CompToken::NegateM)
        } else if self.accept_str("0") {
            Some(CompToken::Zero)
        } else if self.accept_str("1") {
            Some(CompToken::One)
        } else if self.accept_str("A") {
            Some(CompToken::A)
        } else if self.accept_str("D") {
            Some(CompToken::D)
        } else if self.accept_str("M") {
            Some(CompToken::M)
        } else {
            None
        }
    }

    fn lex_comp(&mut self) -> (result: Result<Option<Transition>, LexError>)
        requires
            old(self).wf(),
        ensures
            final(self).wf(),
            final(self).bytes() == old(self).bytes(),
            final(self).state() == old(self).state(),
            Self::stepped(
                old(self).bytes(),
                LexerState::Comp,
                old(self).position(),
                result,
                final(self).position(),
            ),
    {
        match self.accept_comp() {
            Some(comp) => Ok(
                Some(Transition { next: LexerState::AfterComp, token: Some(Token::Comp(comp)) }),
            ),
            None => Err(self.error(LexErrorKind::InvalidComputation)),
        }
    }

    fn lex_after_comp(&mut self) -> (result: Result<Option<Transition>, LexError>)
        requires
            old(self).wf(),
        ensures
            final(self).wf(),
            final(self).bytes() == old(self).bytes(),
            final(self).state() == old(self).state(),
            Self::stepped(
                old(self).bytes(),
                LexerState::AfterComp,
                old(self).position(),
                result,
                final(self).position(),
            ),
    {
        if self.accept_str(";") {
            Ok(Some(Transition { next: LexerState::Jump, token: None }))
        } else {
            Ok(
                Some(
                    Transition {
                        next: LexerState::InstructionEnd,
                        token: Some(Token::Jump(JumpToken::Empty)),
                    },
                ),
            )
        }
    }

    fn lex_jump(&mut self) -> (result: Result<Option<Transition>, LexError>)
        requires
            old(self).wf(),
        ensures
            final(self).wf(),
            final(self).bytes() == old(self).bytes(),
            final(self).state() == old(self).state(),
            Self::stepped(
                old(self).bytes(),
                LexerState::Jump,
                old(self).position(),
                result,
                final(self).position(),
            ),
    {
        let jump = if self.accept_str("JGT") {
            JumpToken::JGT
        } else if self.accept_str("JEQ") {
            JumpToken::JEQ
        } else if self.accept_str("JGE") {
            JumpToken::JGE
        } else if self.accept_str("JLT") {
            JumpToken::JLT
        } else if self.accept_str("JNE") {
            JumpToken::JNE
        } else if self.accept_str("JLE") {
            JumpToken::JLE
        } else if self.accept_str("JMP") {
            JumpToken::JMP
        } else {
            return Err(self.error(LexErrorKind::InvalidJump));
        };
        Ok(Some(Transition { next: LexerState::InstructionEnd, token: Some(Token::Jump(jump)) }))
    }

    fn lex_instruction_end(&mut self) -> (result: Result<Option<Transition>, LexError>)
        requires
            old(self).wf(),
        ensures
            final(self).wf(),
            final(self).bytes() == old(self).bytes(),
            final(self).state() == old(self).state(),
            Self::stepped(
                old(self).bytes(),
                LexerState::InstructionEnd,
                old(self).position(),
                result,
                final(self).position(),
            ),
    {
        proof {
            reveal_strlit("//");
        }
        if self.accept_str("//") {
            Ok(Some(Transition { next: LexerState::Comment, token: None }))
        } else if self.accept_non_eol_whitespace() {
            Ok(Some(Transition { next: LexerState::InstructionEnd, token: None }))
        } else if self.accept_eol() {
            Ok(Some(Transition { next: LexerState::InstructionStart, token: None }))
        } else if self.eof() {
            Ok(None)
        } else {
            Err(self.error(LexErrorKind::UnexpectedCharacter))
        }
    }

    /// One step of the machine from the given state.
    fn parse(&mut self, state: LexerState) -> (result: Result<Option<Transition>, LexError>)
        requires
            old(self).wf(),
        ensures
            final(self).wf(),
            final(self).bytes() == old(self).bytes(),
            final(self).state() == old(self).state(),
            Self::stepped(
                old(self).bytes(),
                state,
                old(self).position(),
                result,
                final(self).position(),
            ),
    {
        match state {
            LexerState::InstructionStart => self.lex_instruction_start(),
            LexerState::Comment => self.lex_comment(),
            LexerState::Address => self.lex_address(),
            LexerState::Label => self.lex_label(),
            LexerState::LabelEnd => self.lex_label_end(),
            LexerState::Dest => self.lex_dest(),
            LexerState::Comp => self.lex_comp(),
            LexerState::AfterComp => self.lex_after_comp(),
            LexerState::Jump => self.lex_jump(),
            LexerState::InstructionEnd => self.lex_instruction_end(),
        }
    }

    /// Whether `result` is what the request for a token comes to, with the
    /// lexer left in `state` at `pos`.
    pub open spec fn scanned(
        bytes: Seq<u8>,
        scan: Scan,
        result: Result<Option<Token>, LexError>,
        state: LexerState,
        pos: int,
    ) -> bool {
        match scan {
            Scan::Token { token, state: next, pos: after } => result matches Ok(Some(made))
                && made@ == token && state == next && pos == after,
            Scan::End { pos: end } => result matches Ok(None) && state
                == LexerState::InstructionStart && pos == end,
            Scan::Fail { kind, pos: at } => result matches Err(error) && error == error_at(
                bytes,
                kind,
                at,
            ) && state == LexerState::InstructionStart && pos == at,
        }
    }

    /// The next token, or `None` at the end of the text. After the end and
    /// after an error the machine is back in its first state.
    pub fn next_token(&mut self) -> (result: Result<Option<Token>, LexError>)
        requires
            old(self).wf(),
        ensures
            final(self).wf(),
            final(self).bytes() == old(self).bytes(),
            Self::scanned(
                old(self).bytes(),
                scan(old(self).bytes(), old(self).state(), old(self).position()),
                result,
                final(self).state(),
                final(self).position(),
            ),
    {
        let ghost bytes = self.bytes();
        let ghost goal = scan(bytes, self.state(), self.position());
        let mut result: Result<Option<Token>, LexError> = Ok(None);
        loop
            invariant_except_break
                scan(bytes, self.state(), self.position()) == goal,
            invariant
                self.wf(),
                self.bytes() == bytes,
            ensures
                self.wf(),
                self.bytes() == bytes,
                Self::scanned(bytes, goal, result, self.state(), self.position()),
            decreases bytes.len() - self.position(), self.state().rank(),
        {
            proof {
                lemma_step_progress(bytes, self.state(), self.position());
            }
            let state = self.state;
            self.state = LexerState::InstructionStart;
            match self.parse(state) {
                Ok(Some(transition)) => {
                    self.state = transition.next;
                    if let Some(token) = transition.token {
                        result = Ok(Some(token));
                        break ;
                    }
                },
                Ok(None) => {
                    result = Ok(None);
                    break ;
                },
                Err(error) => {
                    result = Err(error);
                    break ;
                },
            }
        }
        result
    }
}


} // verus!
