//! The command dispatcher: it recognises one command per line of tokens,
//! checks its operands, and asks the emission engine for its code.
//!
//! The grammar of a line is a command keyword, its operands if it has any,
//! then comments if any, then the end of the line. The dispatcher has no
//! recovery: the first token that does not fit ends the translation with an
//! error that carries it.

use crate::numeral::{all_decimal_digits, decimal_value, parse_decimal};
use crate::translator::emitter::{
    binary_lines, constant_push_lines, function_lines, goto_lines, ifgoto_lines, label_lines,
    pointer_pop_lines, pointer_push_lines, return_lines, segment_pop_lines, segment_push_lines,
    static_pop_lines, static_push_lines, temp_pop_lines, temp_push_lines, unary_lines, Emitter,
    EmitterModel, ARG, FRAME, LCL, TEMP, THAT, THIS,
};
use crate::translator::lexer::{token_models, tokenize, without_carriage_returns, Lexer};
use crate::translator::tokens::{Token, TokenKind, TokenModel};
use crate::instruction::{CompToken, JumpToken};
use crate::listing::Line;
use vstd::prelude::*;

verus! {

/// One command of the virtual-machine language, with its operands.
pub ghost enum Command {
    Add,
    And,
    Eq,
    Gt,
    Lt,
    Neg,
    Not,
    Or,
    Sub,
    Push { segment: TokenKind, number: nat },
    Pop { segment: TokenKind, number: nat },
    Label { name: Seq<char> },
    Goto { name: Seq<char> },
    IfGoto { name: Seq<char> },
    Function { name: Seq<char>, n_vars: nat },
    Call { name: Seq<char>, n_args: nat },
    Return,
}

/// Why a token was rejected.
#[derive(Debug, PartialEq, Eq, Clone, Copy, Structural)]
pub enum ParseErrorKind {
    /// A command keyword was expected.
    UnsupportedToken,
    /// A segment that the command can work on was expected.
    ExpectedSegment,
    /// A number was expected.
    ExpectedNumber,
    /// A name was expected.
    ExpectedIdentifier,
    /// A comment or the end of the line was expected.
    ExpectedEndOfLine,
    /// The number cannot be read, or is too large to work with.
    InvalidNumber,
    /// The offset into the `pointer` segment is neither 0 nor 1.
    InvalidPointerOffset,
    /// The command needs a new label, and the counter that numbers the
    /// labels of its kind can count no further.
    LabelsExhausted,
}

/// The mathematical content of a [`ParseError`].
pub ghost struct ParseErrorModel {
    pub kind: ParseErrorKind,
    pub token: TokenModel,
}

/// A fatal error of the dispatcher: the token that was rejected, with its
/// text and position, and why.
#[derive(Debug)]
pub struct ParseError {
    pub kind: ParseErrorKind,
    pub token: Token,
}

impl View for ParseError {
    type V = ParseErrorModel;

    open spec fn view(&self) -> ParseErrorModel {
        ParseErrorModel { kind: self.kind, token: self.token@ }
    }
}

/// How a translation ended: what the engine had come to, and the error that
/// stopped it if one did.
pub ghost struct Outcome {
    pub state: EmitterModel,
    pub error: Option<ParseErrorModel>,
}

/// The token at `index`; behind the last token there is `EndOfFile` for
/// ever.
pub open spec fn token_or_end(tokens: Seq<TokenModel>, index: int) -> TokenModel {
    if 0 <= index < tokens.len() {
        tokens[index]
    } else {
        TokenModel::empty(TokenKind::EndOfFile)
    }
}

/// The rejection of the token at `index`.
pub open spec fn rejected(kind: ParseErrorKind, tokens: Seq<TokenModel>, index: int) -> Result<
    Command,
    ParseErrorModel,
> {
    Err(ParseErrorModel { kind, token: token_or_end(tokens, index) })
}

/// The number that a `Number` token denotes, if its text is a numeral that
/// fits the machine word of the translator.
pub open spec fn number_of(token: TokenModel) -> Option<nat> {
    if token.text.len() > 0 && all_decimal_digits(token.text) && decimal_value(token.text)
        <= usize::MAX {
        Some(decimal_value(token.text))
    } else {
        None
    }
}

/// A `push` or `pop` at `pos`: a segment that the command can work on, then
/// an offset; for `pointer` the offset is 0 or 1.
pub open spec fn transfer_at(tokens: Seq<TokenModel>, pos: int, pop: bool) -> Result<
    Command,
    ParseErrorModel,
> {
    let segment = token_or_end(tokens, pos + 1);
    let number = token_or_end(tokens, pos + 2);
    let valid = if pop {
        segment.kind.is_pop_segment()
    } else {
        segment.kind.is_push_segment()
    };
    if !valid {
        rejected(ParseErrorKind::ExpectedSegment, tokens, pos + 1)
    } else if number.kind != TokenKind::Number {
        rejected(ParseErrorKind::ExpectedNumber, tokens, pos + 2)
    } else {
        match number_of(number) {
            None => rejected(ParseErrorKind::InvalidNumber, tokens, pos + 2),
            Some(n) => if segment.kind == TokenKind::Pointer && n > 1 {
                rejected(ParseErrorKind::InvalidPointerOffset, tokens, pos + 2)
            } else if segment.kind == TokenKind::Temp && TEMP + n > usize::MAX {
                rejected(ParseErrorKind::InvalidNumber, tokens, pos + 2)
            } else if pop {
                Ok(Command::Pop { segment: segment.kind, number: n })
            } else {
                Ok(Command::Push { segment: segment.kind, number: n })
            },
        }
    }
}

/// A `function` or `call` at `pos`: a name, then a count.
pub open spec fn routine_at(tokens: Seq<TokenModel>, pos: int, call: bool) -> Result<
    Command,
    ParseErrorModel,
> {
    let name = token_or_end(tokens, pos + 1);
    let count = token_or_end(tokens, pos + 2);
    if name.kind != TokenKind::Identifier {
        rejected(ParseErrorKind::ExpectedIdentifier, tokens, pos + 1)
    } else if count.kind != TokenKind::Number {
        rejected(ParseErrorKind::ExpectedNumber, tokens, pos + 2)
    } else {
        match number_of(count) {
            None => rejected(ParseErrorKind::InvalidNumber, tokens, pos + 2),
            Some(n) => if !call {
                Ok(Command::Function { name: name.text, n_vars: n })
            } else if n + FRAME > usize::MAX {
                rejected(ParseErrorKind::InvalidNumber, tokens, pos + 2)
            } else {
                Ok(Command::Call { name: name.text, n_args: n })
            },
        }
    }
}

/// The name behind a `label`, `goto` or `if-goto` at `pos`.
pub open spec fn target_at(tokens: Seq<TokenModel>, pos: int) -> Option<Seq<char>> {
    let name = token_or_end(tokens, pos + 1);
    if name.kind == TokenKind::Identifier {
        Some(name.text)
    } else {
        None
    }
}

/// The command that begins at `pos`, or the rejection of the first token
/// that fits none.
pub open spec fn command_at(tokens: Seq<TokenModel>, pos: int) -> Result<Command, ParseErrorModel> {
    match token_or_end(tokens, pos).kind {
        TokenKind::Add => Ok(Command::Add),
        TokenKind::And => Ok(Command::And),
        TokenKind::Eq => Ok(Command::Eq),
        TokenKind::Gt => Ok(Command::Gt),
        TokenKind::Lt => Ok(Command::Lt),
        TokenKind::Neg => Ok(Command::Neg),
        TokenKind::Not => Ok(Command::Not),
        TokenKind::Or => Ok(Command::Or),
        TokenKind::Sub => Ok(Command::Sub),
        TokenKind::Return => Ok(Command::Return),
        TokenKind::Push => transfer_at(tokens, pos, false),
        TokenKind::Pop => transfer_at(tokens, pos, true),
        TokenKind::Function => routine_at(tokens, pos, false),
        TokenKind::Call => routine_at(tokens, pos, true),
        TokenKind::Label => match target_at(tokens, pos) {
            Some(name) => Ok(Command::Label { name }),
            None => rejected(ParseErrorKind::ExpectedIdentifier, tokens, pos + 1),
        },
        TokenKind::Goto => match target_at(tokens, pos) {
            Some(name) => Ok(Command::Goto { name }),
            None => rejected(ParseErrorKind::ExpectedIdentifier, tokens, pos + 1),
        },
        TokenKind::IfGoto => match target_at(tokens, pos) {
            Some(name) => Ok(Command::IfGoto { name }),
            None => rejected(ParseErrorKind::ExpectedIdentifier, tokens, pos + 1),
        },
        _ => rejected(ParseErrorKind::UnsupportedToken, tokens, pos),
    }
}

impl Command {
    /// The number of tokens the command is written in.
    pub open spec fn len(self) -> int {
        match self {
            Command::Push { .. } | Command::Pop { .. } | Command::Function { .. } | Command::Call {
                ..
            } => 3,
            Command::Label { .. } | Command::Goto { .. } | Command::IfGoto { .. } => 2,
            _ => 1,
        }
    }
}

/// The index of the first token at or after `pos` that is no comment.
pub open spec fn skip_comments(tokens: Seq<TokenModel>, pos: int) -> int
    decreases tokens.len() - pos,
{
    if 0 <= pos < tokens.len() && tokens[pos].kind == TokenKind::Comment {
        skip_comments(tokens, pos + 1)
    } else {
        pos
    }
}

/// The index of the first token at or after `pos` that is neither a comment
/// nor the end of a line.
pub open spec fn skip_empty_lines(tokens: Seq<TokenModel>, pos: int) -> int
    decreases tokens.len() - pos,
{
    if 0 <= pos < tokens.len() && (tokens[pos].kind == TokenKind::Comment || tokens[pos].kind
        == TokenKind::EndOfLine) {
        skip_empty_lines(tokens, pos + 1)
    } else {
        pos
    }
}

/// The code of `push <segment> <number>` in the file `file`.
pub open spec fn push_lines(segment: TokenKind, number: nat, file: Seq<char>) -> Seq<Line> {
    match segment {
        TokenKind::Argument => segment_push_lines(number, ARG as nat),
        TokenKind::Local => segment_push_lines(number, LCL as nat),
        TokenKind::This => segment_push_lines(number, THIS as nat),
        TokenKind::That => segment_push_lines(number, THAT as nat),
        TokenKind::Constant => constant_push_lines(number),
        TokenKind::Static => static_push_lines(file, number),
        TokenKind::Temp => temp_push_lines(number),
        TokenKind::Pointer => pointer_push_lines(number, pointer_cell(number)),
        _ => Seq::empty(),
    }
}

/// The code of `pop <segment> <number>` in the file `file`.
pub open spec fn pop_lines(segment: TokenKind, number: nat, file: Seq<char>) -> Seq<Line> {
    match segment {
        TokenKind::Argument => segment_pop_lines(number, ARG as nat),
        TokenKind::Local => segment_pop_lines(number, LCL as nat),
        TokenKind::This => segment_pop_lines(number, THIS as nat),
        TokenKind::That => segment_pop_lines(number, THAT as nat),
        TokenKind::Static => static_pop_lines(file, number),
        TokenKind::Temp => temp_pop_lines(number),
        TokenKind::Pointer => pointer_pop_lines(number, pointer_cell(number)),
        _ => Seq::empty(),
    }
}

/// The cell that an offset into the `pointer` segment stands for: the base
/// pointer of `this` for 0, of `that` for 1.
pub open spec fn pointer_cell(number: nat) -> nat {
    if number == 0 {
        THIS as nat
    } else {
        THAT as nat
    }
}

impl EmitterModel {
    /// Whether the command needs a label that can no longer be numbered.
    pub open spec fn exhausted_by(self, command: Command) -> bool {
        match command {
            Command::Eq | Command::Gt | Command::Lt => self.bool_count >= usize::MAX,
            Command::Call { .. } => self.ret_count >= usize::MAX,
            _ => false,
        }
    }

    /// The state after a `push`.
    pub open spec fn pushed(self, segment: TokenKind, number: nat) -> EmitterModel {
        self.emitted(push_lines(segment, number, self.file_name))
    }

    /// The state after a `pop`.
    pub open spec fn popped(self, segment: TokenKind, number: nat) -> EmitterModel {
        self.emitted(pop_lines(segment, number, self.file_name))
    }

    /// The state after the code of `command` is emitted.
    pub open spec fn executed(self, command: Command) -> EmitterModel {
        match command {
            Command::Add => self.emitted(binary_lines("add"@, CompToken::AddDM)),
            Command::And => self.emitted(binary_lines("and"@, CompToken::AndDM)),
            Command::Or => self.emitted(binary_lines("or"@, CompToken::OrDM)),
            Command::Sub => self.emitted(binary_lines("sub"@, CompToken::SubMD)),
            Command::Neg => self.emitted(unary_lines("neg"@, CompToken::NegateM)),
            Command::Not => self.emitted(unary_lines("not"@, CompToken::InvertM)),
            Command::Eq => self.compared("eq"@, JumpToken::JEQ),
            Command::Gt => self.compared("gt"@, JumpToken::JGT),
            Command::Lt => self.compared("lt"@, JumpToken::JLT),
            Command::Push { segment, number } => self.pushed(segment, number),
            Command::Pop { segment, number } => self.popped(segment, number),
            Command::Label { name } => self.emitted(label_lines(self.label_prefix(), name)),
            Command::Goto { name } => self.emitted(goto_lines(self.label_prefix(), name)),
            Command::IfGoto { name } => self.emitted(ifgoto_lines(self.label_prefix(), name)),
            Command::Function { name, n_vars } => self.emitted(
                function_lines(name, n_vars),
            ).with_function(name),
            Command::Call { name, n_args } => self.called(name, n_args),
            Command::Return => self.emitted(return_lines()),
        }
    }
}

/// What the dispatcher does at one position.
pub ghost enum Step {
    /// It goes on at `pos`, with the engine in `state`.
    Next { pos: int, state: EmitterModel },
    /// It ends.
    Stop(Outcome),
}

/// The step at `pos` with the engine in `state`. The first `EndOfFile` ends
/// the translation. A comment or the end of a line is passed over. Anything
/// else has to begin a command: the command is checked, then emitted, and
/// then has to be followed by the end of its line.
#[verifier::opaque]
pub open spec fn step(tokens: Seq<TokenModel>, pos: int, state: EmitterModel) -> Step {
    let kind = token_or_end(tokens, pos).kind;
    if pos < 0 || kind == TokenKind::EndOfFile {
        Step::Stop(Outcome { state, error: None })
    } else if kind == TokenKind::Comment || kind == TokenKind::EndOfLine {
        Step::Next { pos: pos + 1, state }
    } else {
        match command_at(tokens, pos) {
            Err(error) => Step::Stop(Outcome { state, error: Some(error) }),
            Ok(command) => if state.exhausted_by(command) {
                Step::Stop(
                    Outcome {
                        state,
                        error: Some(
                            ParseErrorModel {
                                kind: ParseErrorKind::LabelsExhausted,
                                token: token_or_end(tokens, pos),
                            },
                        ),
                    },
                )
            } else {
                let end = skip_comments(tokens, pos + command.len());
                if token_or_end(tokens, end).kind == TokenKind::EndOfLine {
                    Step::Next { pos: end + 1, state: state.executed(command) }
                } else {
                    Step::Stop(
                        Outcome {
                            state: state.executed(command),
                            error: Some(
                                ParseErrorModel {
                                    kind: ParseErrorKind::ExpectedEndOfLine,
                                    token: token_or_end(tokens, end),
                                },
                            ),
                        },
                    )
                }
            },
        }
    }
}

/// The translation of the tokens from `pos` on, begun in `state`: step by
/// step until a step ends it.
pub open spec fn translated(tokens: Seq<TokenModel>, pos: int, state: EmitterModel) -> Outcome
    decreases tokens.len() - pos,
    via translated_decreases
{
    match step(tokens, pos, state) {
        Step::Stop(outcome) => outcome,
        Step::Next { pos: next, state: after } => translated(tokens, next, after),
    }
}

#[via_fn]
proof fn translated_decreases(tokens: Seq<TokenModel>, pos: int, state: EmitterModel) {
    lemma_step_advances(tokens, pos, state);
}

/// Where the cursor stands when the step at `pos` ends the translation.
/// At the end of the file, and where a token or an operand is rejected or a
/// label cannot be numbered, it stands where the step began: on the end of
/// the file, or on the first token of the command that was not emitted.
/// Where a command was emitted and its line does not end, it stands on the
/// token that should have been the end of the line.
pub open spec fn stop_position(tokens: Seq<TokenModel>, pos: int, state: EmitterModel) -> int {
    if pos < 0 || token_or_end(tokens, pos).kind == TokenKind::EndOfFile {
        pos
    } else {
        match command_at(tokens, pos) {
            Ok(command) => if state.exhausted_by(command) {
                pos
            } else {
                skip_comments(tokens, pos + command.len())
            },
            Err(_) => pos,
        }
    }
}

/// Where the cursor stands at last when the tokens are translated, starting
/// at `pos` and in `state`.
pub open spec fn stopped_at(tokens: Seq<TokenModel>, pos: int, state: EmitterModel) -> int
    decreases tokens.len() - pos,
    via stopped_at_decreases
{
    match step(tokens, pos, state) {
        Step::Stop(_) => stop_position(tokens, pos, state),
        Step::Next { pos: next, state: after } => stopped_at(tokens, next, after),
    }
}

#[via_fn]
proof fn stopped_at_decreases(tokens: Seq<TokenModel>, pos: int, state: EmitterModel) {
    lemma_step_advances(tokens, pos, state);
}

/// The cursor never goes back: a translation ends at or behind the place
/// where it began, and within the tokens if it began there.
pub proof fn lemma_stopped_behind(tokens: Seq<TokenModel>, pos: int, state: EmitterModel)
    ensures
        pos <= stopped_at(tokens, pos, state),
        0 <= pos <= tokens.len() ==> stopped_at(tokens, pos, state) <= tokens.len(),
    decreases tokens.len() - pos,
{
    lemma_step_advances(tokens, pos, state);
    match step(tokens, pos, state) {
        Step::Stop(_) => {
            if 0 <= pos {
                lemma_command_fits(tokens, pos);
                match command_at(tokens, pos) {
                    Ok(command) => {
                        lemma_skip_comments_bounds(tokens, pos + command.len());
                    },
                    Err(_) => {},
                }
            }
        },
        Step::Next { pos: next, state: after } => {
            lemma_stopped_behind(tokens, next, after);
        },
    }
}

/// A step that goes on has passed over at least one token, and not over
/// more than there are.
pub proof fn lemma_step_advances(tokens: Seq<TokenModel>, pos: int, state: EmitterModel)
    ensures
        step(tokens, pos, state) matches Step::Next { pos: next, .. } ==> 0 <= pos < next
            <= tokens.len(),
{
    reveal(step);
    if step(tokens, pos, state) is Next {
        let kind = token_or_end(tokens, pos).kind;
        if !(kind == TokenKind::Comment || kind == TokenKind::EndOfLine) {
            let command = command_at(tokens, pos)->Ok_0;
            lemma_command_fits(tokens, pos);
            lemma_skip_comments_bounds(tokens, pos + command.len());
        }
    }
}

/// Comments and empty lines in front of a command change nothing.
pub proof fn lemma_empty_lines_change_nothing(
    tokens: Seq<TokenModel>,
    pos: int,
    state: EmitterModel,
)
    requires
        0 <= pos,
    ensures
        translated(tokens, skip_empty_lines(tokens, pos), state) == translated(tokens, pos, state),
        stopped_at(tokens, skip_empty_lines(tokens, pos), state) == stopped_at(tokens, pos, state),
    decreases tokens.len() - pos,
{
    reveal(step);
    if pos < tokens.len() && (tokens[pos].kind == TokenKind::Comment || tokens[pos].kind
        == TokenKind::EndOfLine) {
        lemma_empty_lines_change_nothing(tokens, pos + 1, state);
    }
}

/// `pop constant` is rejected whatever follows: a constant has no cell to
/// pop into.
pub proof fn lemma_pop_constant_is_rejected(tokens: Seq<TokenModel>, pos: int, state: EmitterModel)
    requires
        0 <= pos,
        token_or_end(tokens, pos).kind == TokenKind::Pop,
        token_or_end(tokens, pos + 1).kind == TokenKind::Constant,
    ensures
        translated(tokens, pos, state) == (Outcome {
            state,
            error: Some(
                ParseErrorModel {
                    kind: ParseErrorKind::ExpectedSegment,
                    token: token_or_end(tokens, pos + 1),
                },
            ),
        }),
{
    reveal(step);
}

/// A `push` or `pop` with an offset into `pointer` that is neither 0 nor 1
/// is rejected, and the error carries the offset.
pub proof fn lemma_pointer_offset_is_checked(
    tokens: Seq<TokenModel>,
    pos: int,
    state: EmitterModel,
)
    requires
        0 <= pos,
        token_or_end(tokens, pos).kind == TokenKind::Push || token_or_end(tokens, pos).kind
            == TokenKind::Pop,
        token_or_end(tokens, pos + 1).kind == TokenKind::Pointer,
        token_or_end(tokens, pos + 2).kind == TokenKind::Number,
        number_of(token_or_end(tokens, pos + 2)) matches Some(offset) && offset > 1,
    ensures
        translated(tokens, pos, state) == (Outcome {
            state,
            error: Some(
                ParseErrorModel {
                    kind: ParseErrorKind::InvalidPointerOffset,
                    token: token_or_end(tokens, pos + 2),
                },
            ),
        }),
{
    reveal(step);
}

/// A command that is recognised lies within the tokens.
pub proof fn lemma_command_fits(tokens: Seq<TokenModel>, pos: int)
    requires
        0 <= pos,
    ensures
        command_at(tokens, pos) matches Ok(command) ==> pos + command.len() <= tokens.len(),
{
}

/// The translation of one source file: the engine enters the file, and the
/// tokens of the source are translated, the first one first.
pub open spec fn translated_file(source: Seq<char>, file_name: Seq<char>, state: EmitterModel) -> Outcome {
    translated(tokenize(without_carriage_returns(source)), 0, state.with_file(file_name))
}

/// Skipping comments stays within the tokens.
pub proof fn lemma_skip_comments_bounds(tokens: Seq<TokenModel>, pos: int)
    requires
        0 <= pos,
    ensures
        pos <= skip_comments(tokens, pos),
        pos <= tokens.len() ==> skip_comments(tokens, pos) <= tokens.len(),
        token_or_end(tokens, skip_comments(tokens, pos)).kind != TokenKind::Comment,
    decreases tokens.len() - pos,
{
    if pos < tokens.len() && tokens[pos].kind == TokenKind::Comment {
        lemma_skip_comments_bounds(tokens, pos + 1);
    }
}

/// The error that a function of the dispatcher returned, if it did.
pub open spec fn error_of(result: Result<(), ParseError>) -> Option<ParseErrorModel> {
    match result {
        Ok(_) => None,
        Err(error) => Some(error@),
    }
}

/// Whether a function of the dispatcher did the step at `pos`: it went on
/// to `next` without an error, or returned the error that ends the
/// translation with the cursor at `next`, where the step leaves it, and
/// left the engine as the step leaves it.
#[verifier::opaque]
pub open spec fn did_step(
    tokens: Seq<TokenModel>,
    pos: int,
    state: EmitterModel,
    next: int,
    after: EmitterModel,
    error: Option<ParseErrorModel>,
) -> bool {
    match error {
        None => step(tokens, pos, state) == (Step::Next { pos: next, state: after }),
        Some(error) => step(tokens, pos, state) == Step::Stop(
            Outcome { state: after, error: Some(error) },
        ) && next == stop_position(tokens, pos, state),
    }
}

/// Whether the translation ends at `pos` without an error.
#[verifier::opaque]
pub open spec fn ended(tokens: Seq<TokenModel>, pos: int, state: EmitterModel) -> bool {
    step(tokens, pos, state) == Step::Stop(Outcome { state, error: None })
}

/// Where the translation ends, nothing is left to translate.
pub proof fn lemma_ended(tokens: Seq<TokenModel>, pos: int, state: EmitterModel)
    requires
        ended(tokens, pos, state),
    ensures
        translated(tokens, pos, state) == (Outcome { state, error: None }),
        stopped_at(tokens, pos, state) == pos,
{
    reveal(ended);
    reveal(step);
}

/// A step that was done leaves the rest of the translation to do, or is
/// its end.
pub proof fn lemma_did_step(
    tokens: Seq<TokenModel>,
    pos: int,
    state: EmitterModel,
    next: int,
    after: EmitterModel,
    error: Option<ParseErrorModel>,
)
    requires
        did_step(tokens, pos, state, next, after, error),
    ensures
        match error {
            None => pos < next <= tokens.len() && translated(tokens, pos, state) == translated(
                tokens,
                next,
                after,
            ) && stopped_at(tokens, pos, state) == stopped_at(tokens, next, after),
            Some(error) => translated(tokens, pos, state) == (Outcome {
                state: after,
                error: Some(error),
            }) && stopped_at(tokens, pos, state) == next,
        },
{
    reveal(did_step);
    lemma_step_advances(tokens, pos, state);
}

/// A cursor over the tokens of one source file.
pub struct Parser {
    position: usize,
    tokens: Vec<Token>,
}

impl Parser {
    /// The tokens being read.
    pub closed spec fn tokens(&self) -> Seq<TokenModel> {
        token_models(self.tokens@)
    }

    /// The index of the next token to read.
    pub closed spec fn position(&self) -> int {
        self.position as int
    }

    /// The cursor never stands before the first token.
    pub proof fn lemma_cursor_not_before_start(&self)
        ensures
            0 <= self.position(),
    {
    }

    /// A cursor at the first of `tokens`.
    pub fn new(tokens: Vec<Token>) -> (parser: Parser)
        ensures
            parser.tokens() == token_models(tokens@),
            parser.position() == 0,
    {
        Parser { position: 0, tokens }
    }

    /// A copy of the token `n` places ahead.
    fn look_ahead(&self, n: usize) -> (token: Token)
        ensures
            token@ == token_or_end(self.tokens(), self.position() + n),
    {
        if self.position < self.tokens.len() && n < self.tokens.len() - self.position {
            self.tokens[self.position + n].duplicate()
        } else {
            Token::empty(TokenKind::EndOfFile)
        }
    }

    /// The kind of the token `n` places ahead.
    fn kind_ahead(&self, n: usize) -> (kind: TokenKind)
        ensures
            kind == token_or_end(self.tokens(), self.position() + n).kind,
    {
        if self.position < self.tokens.len() && n < self.tokens.len() - self.position {
            self.tokens[self.position + n].kind
        } else {
            TokenKind::EndOfFile
        }
    }

    fn current_token_kind(&self) -> (kind: TokenKind)
        ensures
            kind == token_or_end(self.tokens(), self.position()).kind,
    {
        self.kind_ahead(0)
    }

    fn consume_token(&mut self)
        requires
            old(self).position() < old(self).tokens().len(),
        ensures
            final(self).tokens() == old(self).tokens(),
            final(self).position() == old(self).position() + 1,
    {
        assert(self.tokens().len() == self.tokens.len());
        self.position = self.position + 1;
    }

    fn consume_comment_tokens(&mut self)
        ensures
            final(self).tokens() == old(self).tokens(),
            final(self).position() == skip_comments(old(self).tokens(), old(self).position()),
    {
        while self.position < self.tokens.len() && self.tokens[self.position].kind
            == TokenKind::Comment
            invariant
                self.tokens() == old(self).tokens(),
                skip_comments(self.tokens(), self.position()) == skip_comments(
                    old(self).tokens(),
                    old(self).position(),
                ),
            decreases self.tokens.len() - self.position,
        {
            self.position = self.position + 1;
        }
    }

    fn consume_eol_and_comment_tokens(&mut self)
        ensures
            final(self).tokens() == old(self).tokens(),
            final(self).position() == skip_empty_lines(old(self).tokens(), old(self).position()),
    {
        while self.position < self.tokens.len() && (self.tokens[self.position].kind
            == TokenKind::Comment || self.tokens[self.position].kind == TokenKind::EndOfLine)
            invariant
                self.tokens() == old(self).tokens(),
                skip_empty_lines(self.tokens(), self.position()) == skip_empty_lines(
                    old(self).tokens(),
                    old(self).position(),
                ),
            decreases self.tokens.len() - self.position,
        {
            self.position = self.position + 1;
        }
    }

    /// A rejection of the token `n` places ahead.
    fn reject(&self, kind: ParseErrorKind, n: usize) -> (error: ParseError)
        ensures
            error@ == (ParseErrorModel {
                kind,
                token: token_or_end(self.tokens(), self.position() + n),
            }),
    {
        ParseError { kind, token: self.look_ahead(n) }
    }

    /// Passes over the comments at the end of a line and over the end of
    /// the line itself, which has to be there.
    fn consume_eol(&mut self) -> (result: Result<(), ParseError>)
        ensures
            final(self).tokens() == old(self).tokens(),
            ({
                let end = skip_comments(old(self).tokens(), old(self).position());
                if token_or_end(old(self).tokens(), end).kind == TokenKind::EndOfLine {
                    result is Ok && final(self).position() == end + 1
                } else {
                    result matches Err(error) && error@ == (ParseErrorModel {
                        kind: ParseErrorKind::ExpectedEndOfLine,
                        token: token_or_end(old(self).tokens(), end),
                    }) && final(self).position() == end
                }
            }),
    {
        // ignore comments at the end of the line
        self.consume_comment_tokens();
        if self.current_token_kind() != TokenKind::EndOfLine {
            return Err(self.reject(ParseErrorKind::ExpectedEndOfLine, 0));
        }
        self.consume_token();
        Ok(())
    }

    /// The number that the token `n` places ahead denotes.
    fn number_ahead(&self, n: usize) -> (number: Option<usize>)
        ensures
            match number {
                Some(value) => number_of(token_or_end(self.tokens(), self.position() + n)) == Some(
                    value as nat,
                ),
                None => number_of(token_or_end(self.tokens(), self.position() + n)) is None,
            },
    {
        if self.position < self.tokens.len() && n < self.tokens.len() - self.position {
            parse_decimal(&self.tokens[self.position + n].text)
        } else {
            let empty: Vec<char> = Vec::new();
            parse_decimal(&empty)
        }
    }

    /// Ends a command of `n` tokens: steps over them, and over the end of
    /// the line.
    fn end_command(&mut self, n: usize) -> (result: Result<(), ParseError>)
        requires
            old(self).position() + n <= old(self).tokens().len(),
        ensures
            final(self).tokens() == old(self).tokens(),
            ({
                let end = skip_comments(old(self).tokens(), old(self).position() + n);
                if token_or_end(old(self).tokens(), end).kind == TokenKind::EndOfLine {
                    result is Ok && final(self).position() == end + 1
                } else {
                    result matches Err(error) && error@ == (ParseErrorModel {
                        kind: ParseErrorKind::ExpectedEndOfLine,
                        token: token_or_end(old(self).tokens(), end),
                    }) && final(self).position() == end
                }
            }),
    {
        assert(self.tokens().len() == self.tokens.len());
        self.position = self.position + n;
        self.consume_eol()
    }

    /// `push pointer` with an offset that is 0 or 1.
    fn generate_pointer_push(&self, emitter: &mut Emitter, number: usize)
        requires
            number <= 1,
        ensures
            final(emitter)@ == old(emitter)@.pushed(TokenKind::Pointer, number as nat),
    {
        if number == 0 {
            emitter.emit_pointer_push(number, THIS);
        } else {
            emitter.emit_pointer_push(number, THAT);
        }
    }

    /// `pop pointer` with an offset that is 0 or 1.
    fn generate_pointer_pop(&self, emitter: &mut Emitter, number: usize)
        requires
            number <= 1,
        ensures
            final(emitter)@ == old(emitter)@.popped(TokenKind::Pointer, number as nat),
    {
        if number == 0 {
            emitter.emit_pointer_pop(number, THIS);
        } else {
            emitter.emit_pointer_pop(number, THAT);
        }
    }

    /// The offset of the `push` or `pop` under the cursor, once its segment
    /// is known to fit the command.
    fn transfer_offset(&self, pop: bool) -> (result: Result<usize, ParseError>)
        requires
            ({
                let segment = token_or_end(self.tokens(), self.position() + 1).kind;
                if pop {
                    segment.is_pop_segment()
                } else {
                    segment.is_push_segment()
                }
            }),
        ensures
            match result {
                Ok(number) => transfer_at(self.tokens(), self.position(), pop) == Ok::<
                    Command,
                    ParseErrorModel,
                >(
                    if pop {
                        Command::Pop {
                            segment: token_or_end(self.tokens(), self.position() + 1).kind,
                            number: number as nat,
                        }
                    } else {
                        Command::Push {
                            segment: token_or_end(self.tokens(), self.position() + 1).kind,
                            number: number as nat,
                        }
                    },
                ),
                Err(error) => transfer_at(self.tokens(), self.position(), pop) == Err::<
                    Command,
                    ParseErrorModel,
                >(error@),
            },
    {
        if self.kind_ahead(2) != TokenKind::Number {
            return Err(self.reject(ParseErrorKind::ExpectedNumber, 2));
        }
        let number = match self.number_ahead(2) {
            Some(number) => number,
            None => {
                return Err(self.reject(ParseErrorKind::InvalidNumber, 2));
            },
        };
        let segment = self.kind_ahead(1);
        if segment == TokenKind::Pointer && number > 1 {
            return Err(self.reject(ParseErrorKind::InvalidPointerOffset, 2));
        }
        if segment == TokenKind::Temp && number > usize::MAX - TEMP {
            return Err(self.reject(ParseErrorKind::InvalidNumber, 2));
        }
        Ok(number)
    }

    /// `push`, a segment, and an offset into it.
    fn generate_push(&mut self, emitter: &mut Emitter) -> (result: Result<(), ParseError>)
        requires
            token_or_end(old(self).tokens(), old(self).position()).kind == TokenKind::Push,
        ensures
            final(self).tokens() == old(self).tokens(),
            did_step(
                old(self).tokens(),
                old(self).position(),
                old(emitter)@,
                final(self).position(),
                final(emitter)@,
                error_of(result),
            ),
    {
        reveal(did_step);
        reveal(step);
        if !self.kind_ahead(1).is_valid_push_segment() {
            return Err(self.reject(ParseErrorKind::ExpectedSegment, 1));
        }
        let number = match self.transfer_offset(false) {
            Ok(number) => number,
            Err(error) => {
                return Err(error);
            },
        };
        match self.kind_ahead(1) {
            TokenKind::Argument => emitter.emit_segment_push(number, ARG),
            TokenKind::Constant => emitter.emit_constant_push(number),
            TokenKind::Local => emitter.emit_segment_push(number, LCL),
            TokenKind::Static => emitter.emit_static_push(number),
            TokenKind::Temp => emitter.emit_temp_push(number),
            TokenKind::That => emitter.emit_segment_push(number, THAT),
            TokenKind::This => emitter.emit_segment_push(number, THIS),
            TokenKind::Pointer => self.generate_pointer_push(emitter, number),
            _ => {},
        }
        proof {
            lemma_command_fits(self.tokens(), self.position());
        }
        self.end_command(3)
    }

    /// `pop`, a segment other than `constant`, and an offset into it.
    fn generate_pop(&mut self, emitter: &mut Emitter) -> (result: Result<(), ParseError>)
        requires
            token_or_end(old(self).tokens(), old(self).position()).kind == TokenKind::Pop,
        ensures
            final(self).tokens() == old(self).tokens(),
            did_step(
                old(self).tokens(),
                old(self).position(),
                old(emitter)@,
                final(self).position(),
                final(emitter)@,
                error_of(result),
            ),
    {
        reveal(did_step);
        reveal(step);
        if !self.kind_ahead(1).is_valid_pop_segment() {
            return Err(self.reject(ParseErrorKind::ExpectedSegment, 1));
        }
        let number = match self.transfer_offset(true) {
            Ok(number) => number,
            Err(error) => {
                return Err(error);
            },
        };
        match self.kind_ahead(1) {
            TokenKind::Argument => emitter.emit_segment_pop(number, ARG),
            TokenKind::Local => emitter.emit_segment_pop(number, LCL),
            TokenKind::Pointer => self.generate_pointer_pop(emitter, number),
            TokenKind::Static => emitter.emit_static_pop(number),
            TokenKind::Temp => emitter.emit_temp_pop(number),
            TokenKind::That => emitter.emit_segment_pop(number, THAT),
            TokenKind::This => emitter.emit_segment_pop(number, THIS),
            _ => {},
        }
        proof {
            lemma_command_fits(self.tokens(), self.position());
        }
        self.end_command(3)
    }

    /// A command of one word that needs no label.
    fn generate_plain(&mut self, emitter: &mut Emitter) -> (result: Result<(), ParseError>)
        requires
            ({
                let kind = token_or_end(old(self).tokens(), old(self).position()).kind;
                kind == TokenKind::Add || kind == TokenKind::And || kind == TokenKind::Neg || kind
                    == TokenKind::Not || kind == TokenKind::Or || kind == TokenKind::Sub || kind
                    == TokenKind::Return
            }),
        ensures
            final(self).tokens() == old(self).tokens(),
            did_step(
                old(self).tokens(),
                old(self).position(),
                old(emitter)@,
                final(self).position(),
                final(emitter)@,
                error_of(result),
            ),
    {
        reveal(did_step);
        reveal(step);
        match self.current_token_kind() {
            TokenKind::Add => emitter.emit_add(),
            TokenKind::And => emitter.emit_and(),
            TokenKind::Neg => emitter.emit_neg(),
            TokenKind::Not => emitter.emit_not(),
            TokenKind::Or => emitter.emit_or(),
            TokenKind::Sub => emitter.emit_sub(),
            _ => emitter.emit_return(),
        }
        self.end_command(1)
    }

    /// A comparison: a command of one word that needs a pair of labels.
    fn generate_comparison(&mut self, emitter: &mut Emitter) -> (result: Result<(), ParseError>)
        requires
            ({
                let kind = token_or_end(old(self).tokens(), old(self).position()).kind;
                kind == TokenKind::Eq || kind == TokenKind::Gt || kind == TokenKind::Lt
            }),
        ensures
            final(self).tokens() == old(self).tokens(),
            did_step(
                old(self).tokens(),
                old(self).position(),
                old(emitter)@,
                final(self).position(),
                final(emitter)@,
                error_of(result),
            ),
    {
        reveal(did_step);
        reveal(step);
        if emitter.bool_count() == usize::MAX {
            return Err(self.reject(ParseErrorKind::LabelsExhausted, 0));
        }
        match self.current_token_kind() {
            TokenKind::Eq => emitter.emit_eq(),
            TokenKind::Gt => emitter.emit_gt(),
            _ => emitter.emit_lt(),
        }
        self.end_command(1)
    }

    /// `label` and a name.
    fn generate_label(&mut self, emitter: &mut Emitter) -> (result: Result<(), ParseError>)
        requires
            token_or_end(old(self).tokens(), old(self).position()).kind == TokenKind::Label,
        ensures
            final(self).tokens() == old(self).tokens(),
            did_step(
                old(self).tokens(),
                old(self).position(),
                old(emitter)@,
                final(self).position(),
                final(emitter)@,
                error_of(result),
            ),
    {
        reveal(did_step);
        reveal(step);
        if self.kind_ahead(1) != TokenKind::Identifier {
            return Err(self.reject(ParseErrorKind::ExpectedIdentifier, 1));
        }
        let label_name = self.look_ahead(1).text_string();
        emitter.emit_label(label_name);
        self.end_command(2)
    }

    /// `goto` and a name.
    fn generate_goto(&mut self, emitter: &mut Emitter) -> (result: Result<(), ParseError>)
        requires
            token_or_end(old(self).tokens(), old(self).position()).kind == TokenKind::Goto,
        ensures
            final(self).tokens() == old(self).tokens(),
            did_step(
                old(self).tokens(),
                old(self).position(),
                old(emitter)@,
                final(self).position(),
                final(emitter)@,
                error_of(result),
            ),
    {
        reveal(did_step);
        reveal(step);
        if self.kind_ahead(1) != TokenKind::Identifier {
            return Err(self.reject(ParseErrorKind::ExpectedIdentifier, 1));
        }
        let label_name = self.look_ahead(1).text_string();
        emitter.emit_goto(label_name);
        self.end_command(2)
    }

    /// `if-goto` and a name.
    fn generate_ifgoto(&mut self, emitter: &mut Emitter) -> (result: Result<(), ParseError>)
        requires
            token_or_end(old(self).tokens(), old(self).position()).kind == TokenKind::IfGoto,
        ensures
            final(self).tokens() == old(self).tokens(),
            did_step(
                old(self).tokens(),
                old(self).position(),
                old(emitter)@,
                final(self).position(),
                final(emitter)@,
                error_of(result),
            ),
    {
        reveal(did_step);
        reveal(step);
        if self.kind_ahead(1) != TokenKind::Identifier {
            return Err(self.reject(ParseErrorKind::ExpectedIdentifier, 1));
        }
        let label_name = self.look_ahead(1).text_string();
        emitter.emit_ifgoto(label_name);
        self.end_command(2)
    }

    /// `function`, a name, and the number of its local variables.
    fn generate_function(&mut self, emitter: &mut Emitter) -> (result: Result<(), ParseError>)
        requires
            token_or_end(old(self).tokens(), old(self).position()).kind == TokenKind::Function,
        ensures
            final(self).tokens() == old(self).tokens(),
            did_step(
                old(self).tokens(),
                old(self).position(),
                old(emitter)@,
                final(self).position(),
                final(emitter)@,
                error_of(result),
            ),
    {
        reveal(did_step);
        reveal(step);
        if self.kind_ahead(1) != TokenKind::Identifier {
            return Err(self.reject(ParseErrorKind::ExpectedIdentifier, 1));
        }
        if self.kind_ahead(2) != TokenKind::Number {
            return Err(self.reject(ParseErrorKind::ExpectedNumber, 2));
        }
        let n_vars = match self.number_ahead(2) {
            Some(number) => number,
            None => {
                return Err(self.reject(ParseErrorKind::InvalidNumber, 2));
            },
        };
        let name = self.look_ahead(1).text_string();
        emitter.emit_function(name, n_vars);
        self.end_command(3)
    }

    /// `call`, a name, and the number of arguments on the stack.
    fn generate_call(&mut self, emitter: &mut Emitter) -> (result: Result<(), ParseError>)
        requires
            token_or_end(old(self).tokens(), old(self).position()).kind == TokenKind::Call,
        ensures
            final(self).tokens() == old(self).tokens(),
            did_step(
                old(self).tokens(),
                old(self).position(),
                old(emitter)@,
                final(self).position(),
                final(emitter)@,
                error_of(result),
            ),
    {
        reveal(did_step);
        reveal(step);
        if self.kind_ahead(1) != TokenKind::Identifier {
            return Err(self.reject(ParseErrorKind::ExpectedIdentifier, 1));
        }
        if self.kind_ahead(2) != TokenKind::Number {
            return Err(self.reject(ParseErrorKind::ExpectedNumber, 2));
        }
        let n_args = match self.number_ahead(2) {
            Some(number) => number,
            None => {
                return Err(self.reject(ParseErrorKind::InvalidNumber, 2));
            },
        };
        if n_args > usize::MAX - FRAME {
            return Err(self.reject(ParseErrorKind::InvalidNumber, 2));
        }
        if emitter.ret_count() == usize::MAX {
            return Err(self.reject(ParseErrorKind::LabelsExhausted, 0));
        }
        let function_name = self.look_ahead(1).text_string();
        emitter.emit_call(function_name, n_args);
        self.end_command(3)
    }

    /// Passes over a comment or the end of a line between commands.
    fn pass_over(&mut self, emitter: &Emitter) -> (result: Result<(), ParseError>)
        requires
            ({
                let kind = token_or_end(old(self).tokens(), old(self).position()).kind;
                kind == TokenKind::Comment || kind == TokenKind::EndOfLine
            }),
        ensures
            final(self).tokens() == old(self).tokens(),
            did_step(
                old(self).tokens(),
                old(self).position(),
                emitter@,
                final(self).position(),
                emitter@,
                error_of(result),
            ),
    {
        reveal(did_step);
        reveal(step);
        self.consume_token();
        Ok(())
    }

    /// Rejects a token that begins no command.
    fn generate_nothing(&self, emitter: &Emitter) -> (result: Result<(), ParseError>)
        requires
            command_at(self.tokens(), self.position()) == rejected(
                ParseErrorKind::UnsupportedToken,
                self.tokens(),
                self.position(),
            ),
            ({
                let kind = token_or_end(self.tokens(), self.position()).kind;
                kind != TokenKind::EndOfFile && kind != TokenKind::Comment && kind
                    != TokenKind::EndOfLine
            }),
        ensures
            did_step(
                self.tokens(),
                self.position(),
                emitter@,
                self.position(),
                emitter@,
                error_of(result),
            ),
    {
        reveal(did_step);
        reveal(step);
        Err(self.reject(ParseErrorKind::UnsupportedToken, 0))
    }

    /// Does the step under the cursor; `Ok(false)` says that it was the
    /// end of the file.
    fn generate_step(&mut self, emitter: &mut Emitter) -> (result: Result<bool, ParseError>)
        ensures
            final(self).tokens() == old(self).tokens(),
            match result {
                Ok(true) => did_step(
                    old(self).tokens(),
                    old(self).position(),
                    old(emitter)@,
                    final(self).position(),
                    final(emitter)@,
                    None,
                ),
                Ok(false) => ended(old(self).tokens(), old(self).position(), old(emitter)@)
                    && final(emitter)@ == old(emitter)@ && final(self).position() == old(
                    self,
                ).position(),
                Err(error) => did_step(
                    old(self).tokens(),
                    old(self).position(),
                    old(emitter)@,
                    final(self).position(),
                    final(emitter)@,
                    Some(error@),
                ),
            },
    {
        let step = match self.current_token_kind() {
            TokenKind::Add | TokenKind::And | TokenKind::Neg | TokenKind::Not | TokenKind::Or
            | TokenKind::Sub | TokenKind::Return => self.generate_plain(emitter),
            TokenKind::Eq | TokenKind::Gt | TokenKind::Lt => self.generate_comparison(emitter),
            TokenKind::Goto => self.generate_goto(emitter),
            TokenKind::IfGoto => self.generate_ifgoto(emitter),
            TokenKind::Label => self.generate_label(emitter),
            TokenKind::Function => self.generate_function(emitter),
            TokenKind::Call => self.generate_call(emitter),
            TokenKind::Pop => self.generate_pop(emitter),
            TokenKind::Push => self.generate_push(emitter),
            TokenKind::Comment | TokenKind::EndOfLine => self.pass_over(emitter),
            TokenKind::EndOfFile => {
                proof {
                    reveal(ended);
                    reveal(step);
                }
                return Ok(false);
            },
            _ => self.generate_nothing(emitter),
        };
        match step {
            Ok(()) => Ok(true),
            Err(error) => Err(error),
        }
    }

    /// Translates the tokens from the cursor on, up to the first
    /// `EndOfFile` or the first token that is rejected, and leaves the
    /// cursor there.
    pub fn generate_assembly(&mut self, emitter: &mut Emitter) -> (result: Result<(), ParseError>)
        ensures
            final(self).tokens() == old(self).tokens(),
            final(self).position() == stopped_at(
                old(self).tokens(),
                old(self).position(),
                old(emitter)@,
            ),
            0 <= old(self).position() <= final(self).position(),
            old(self).position() <= old(self).tokens().len() ==> final(self).position() <= old(
                self,
            ).tokens().len(),
            final(emitter)@ == translated(
                old(self).tokens(),
                old(self).position(),
                old(emitter)@,
            ).state,
            match result {
                Ok(()) => translated(
                    old(self).tokens(),
                    old(self).position(),
                    old(emitter)@,
                ).error is None,
                Err(error) => translated(
                    old(self).tokens(),
                    old(self).position(),
                    old(emitter)@,
                ).error == Some(error@),
            },
    {
        let ghost tokens = self.tokens();
        let ghost goal = translated(tokens, self.position(), emitter@);
        let ghost end = stopped_at(tokens, self.position(), emitter@);
        let mut result: Result<(), ParseError> = Ok(());
        // ignore comments and newlines at the start of the file
        proof {
            lemma_empty_lines_change_nothing(tokens, self.position(), emitter@);
            lemma_stopped_behind(tokens, self.position(), emitter@);
        }
        self.consume_eol_and_comment_tokens();
        loop
            invariant_except_break
                translated(tokens, self.position(), emitter@) == goal,
                stopped_at(tokens, self.position(), emitter@) == end,
                result is Ok,
            invariant
                self.tokens() == tokens,
            ensures
                self.tokens() == tokens,
                self.position() == end,
                emitter@ == goal.state,
                match result {
                    Ok(()) => goal.error is None,
                    Err(error) => goal.error == Some(error@),
                },
            decreases tokens.len() - self.position(),
        {
            let ghost pos = self.position();
            let ghost before = emitter@;
            match self.generate_step(emitter) {
                Ok(more) => {
                    proof {
                        if more {
                            lemma_did_step(tokens, pos, before, self.position(), emitter@, None);
                        } else {
                            lemma_ended(tokens, pos, before);
                        }
                    }
                    if !more {
                        break ;
                    }
                },
                Err(error) => {
                    proof {
                        lemma_did_step(
                            tokens,
                            pos,
                            before,
                            self.position(),
                            emitter@,
                            Some(error@),
                        );
                    }
                    result = Err(error);
                    break ;
                },
            }
        }
        result
    }

    /// Translates one source file: the engine enters the file, the source
    /// is cut into tokens, and the tokens are translated.
    pub fn parse_file(source: &str, file_name: String, emitter: &mut Emitter) -> (result: Result<
        (),
        ParseError,
    >)
        ensures
            final(emitter)@ == translated_file(source@, file_name@, old(emitter)@).state,
            match result {
                Ok(()) => translated_file(source@, file_name@, old(emitter)@).error is None,
                Err(error) => translated_file(source@, file_name@, old(emitter)@).error == Some(
                    error@,
                ),
            },
    {
        let mut lexer = Lexer::new(source);
        let tokens = lexer.list_all_tokens();
        let mut parser = Parser::new(tokens);
        emitter.set_file_name(file_name);
        parser.generate_assembly(emitter)
    }
}

/// The mathematical content of a [`SourceUnit`].
pub ghost struct SourceUnitModel {
    pub name: Seq<char>,
    pub source: Seq<char>,
}

/// One source file: its name without the extension, which is the scope of
/// its static variables, and its text.
#[derive(Debug)]
pub struct SourceUnit {
    pub name: String,
    pub source: String,
}

impl View for SourceUnit {
    type V = SourceUnitModel;

    open spec fn view(&self) -> SourceUnitModel {
        SourceUnitModel { name: self.name@, source: self.source@ }
    }
}

/// The mathematical content of a [`TranslationError`].
pub ghost enum TranslationErrorModel {
    NoSource,
    Rejected { file: Seq<char>, error: ParseErrorModel },
}

/// Why a program cannot be translated.
#[derive(Debug)]
pub enum TranslationError {
    /// There is no source file.
    NoSource,
    /// The source file of this name holds a token that is rejected.
    Rejected { file: String, error: ParseError },
}

impl View for TranslationError {
    type V = TranslationErrorModel;

    open spec fn view(&self) -> TranslationErrorModel {
        match self {
            TranslationError::NoSource => TranslationErrorModel::NoSource,
            TranslationError::Rejected { file, error } => TranslationErrorModel::Rejected {
                file: file@,
                error: error@,
            },
        }
    }
}

/// The models of a sequence of source files.
pub open spec fn unit_models(units: Seq<SourceUnit>) -> Seq<SourceUnitModel> {
    units.map_values(|unit: SourceUnit| unit@)
}

/// The translation of the files from index `from` on, one after the other
/// with one engine, up to the first that holds an error.
pub open spec fn translated_units(
    units: Seq<SourceUnitModel>,
    from: int,
    state: EmitterModel,
) -> Result<EmitterModel, TranslationErrorModel>
    decreases units.len() - from,
{
    if 0 <= from < units.len() {
        let outcome = translated_file(units[from].source, units[from].name, state);
        match outcome.error {
            Some(error) => Err(TranslationErrorModel::Rejected { file: units[from].name, error }),
            None => translated_units(units, from + 1, outcome.state),
        }
    } else {
        Ok(state)
    }
}

/// The assembly text of a program. There has to be a source file. With
/// `bootstrap` the text begins with the bootstrap sequence, once, whatever
/// the number of files. The files follow in their order. An error in a
/// file ends the translation and leaves no text.
pub open spec fn translation(units: Seq<SourceUnitModel>, bootstrap: bool) -> Result<
    Seq<char>,
    TranslationErrorModel,
> {
    if units.len() == 0 {
        Err(TranslationErrorModel::NoSource)
    } else {
        let start = if bootstrap {
            EmitterModel::initial().bootstrapped()
        } else {
            EmitterModel::initial()
        };
        match translated_units(units, 0, start) {
            Ok(state) => Ok(state.out),
            Err(error) => Err(error),
        }
    }
}

/// The extension that the name of a source file ends in.
pub open spec fn source_extension() -> Seq<char> {
    ".vm"@
}

/// The name of the source file without its extension, if the name has the
/// extension and something in front of it.
pub open spec fn name_of_source(file_name: Seq<char>) -> Option<Seq<char>> {
    let stem = file_name.len() - source_extension().len();
    if stem > 0 && file_name.skip(stem) == source_extension() {
        Some(file_name.take(stem))
    } else {
        None
    }
}

impl Parser {
    /// Translates the files one after the other with the one engine.
    fn parse_units(units: &Vec<SourceUnit>, emitter: &mut Emitter) -> (result: Result<
        (),
        TranslationError,
    >)
        ensures
            match result {
                Ok(()) => translated_units(unit_models(units@), 0, old(emitter)@) == Ok::<
                    EmitterModel,
                    TranslationErrorModel,
                >(final(emitter)@),
                Err(error) => translated_units(unit_models(units@), 0, old(emitter)@) == Err::<
                    EmitterModel,
                    TranslationErrorModel,
                >(error@),
            },
    {
        let ghost all = unit_models(units@);
        let ghost goal = translated_units(all, 0, emitter@);
        let mut i: usize = 0;
        while i < units.len()
            invariant
                i <= units.len(),
                all == unit_models(units@),
                goal == translated_units(all, 0, old(emitter)@),
                translated_units(all, i as int, emitter@) == goal,
            decreases units.len() - i,
        {
            let unit = &units[i];
            assert(all[i as int] == unit@);
            match Self::parse_file(unit.source.as_str(), unit.name.clone(), emitter) {
                Ok(()) => {},
                Err(error) => {
                    return Err(TranslationError::Rejected { file: unit.name.clone(), error });
                },
            }
            i = i + 1;
        }
        Ok(())
    }

    /// Translates a program of one or more source files into one assembly
    /// text.
    pub fn parse(units: &Vec<SourceUnit>, bootstrap: bool) -> (result: Result<
        String,
        TranslationError,
    >)
        ensures
            match result {
                Ok(text) => translation(unit_models(units@), bootstrap) == Ok::<
                    Seq<char>,
                    TranslationErrorModel,
                >(text@),
                Err(error) => translation(unit_models(units@), bootstrap) == Err::<
                    Seq<char>,
                    TranslationErrorModel,
                >(error@),
            },
    {
        if units.len() == 0 {
            return Err(TranslationError::NoSource);
        }
        let mut emitter = Emitter::new();
        if bootstrap {
            emitter.emit_bootstrap();
        }
        match Self::parse_units(units, &mut emitter) {
            Ok(()) => Ok(emitter.into_output()),
            Err(error) => Err(error),
        }
    }

    /// The name of the source file without its extension, if it is the
    /// name of a source file.
    pub fn source_name(file_name: &str) -> (name: Option<String>)
        ensures
            match name {
                Some(stem) => name_of_source(file_name@) == Some(stem@),
                None => name_of_source(file_name@) is None,
            },
    {
        let mut chars: Vec<char> = Vec::new();
        for c in it: file_name.chars()
            invariant
                it.seq() == file_name@,
                chars@ == file_name@.take(it.index() as int),
        {
            chars.push(c);
        }
        proof {
            reveal_strlit(".vm");
            assert(file_name@.take(file_name@.len() as int) == file_name@);
        }
        let n = chars.len();
        if n <= 3 || chars[n - 3] != '.' || chars[n - 2] != 'v' || chars[n - 1] != 'm' {
            proof {
                if n > 3 {
                    let tail = file_name@.skip(n - 3);
                    assert(tail[0] == chars@[n - 3]);
                    assert(tail[1] == chars@[n - 2]);
                    assert(tail[2] == chars@[n - 1]);
                }
            }
            return None;
        }
        assert(file_name@.skip(n - 3) =~= ".vm"@);
        let mut stem = String::new();
        let mut i: usize = 0;
        while i < n - 3
            invariant
                i <= n - 3,
                n == chars.len(),
                stem@ == chars@.take(i as int),
            decreases n - 3 - i,
        {
            stem.push(chars[i]);
            i = i + 1;
        }
        assert(chars@.take(n - 3) =~= file_name@.take(n - 3));
        Some(stem)
    }
}

} // verus!
