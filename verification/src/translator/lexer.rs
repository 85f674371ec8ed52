//! The tokenizer: from source text to a flat sequence of tokens.
//!
//! The tokenizer never fails. Text that fits no lexical class comes out as
//! `Illegal` tokens, one per character, and it is the dispatcher that rejects
//! them.

use crate::translator::tokens::{Token, TokenKind, TokenModel};
use vstd::prelude::*;

verus! {

/// The five characters that count as ASCII whitespace: space, tab, line feed,
/// form feed and carriage return.
pub open spec fn is_ascii_whitespace(c: char) -> bool {
    c == ' ' || c == '\t' || c == '\n' || c == '\x0C' || c == '\r'
}

pub open spec fn is_ascii_letter(c: char) -> bool {
    ('a' <= c && c <= 'z') || ('A' <= c && c <= 'Z')
}

pub open spec fn is_ascii_digit(c: char) -> bool {
    '0' <= c && c <= '9'
}

/// The kinds of maximal character runs the tokenizer scans over.
pub enum Run {
    /// Whitespace between tokens on one line.
    Blank,
    /// The rest of a comment: anything up to the end of the line.
    Comment,
    /// The rest of a word: anything up to the next whitespace.
    Word,
    /// The rest of a number.
    Digits,
}

impl Run {
    /// Whether a run of this kind continues over `c`.
    pub open spec fn keeps(self, c: char) -> bool {
        match self {
            Run::Blank => is_ascii_whitespace(c) && c != '\n',
            Run::Comment => c != '\n',
            Run::Word => !is_ascii_whitespace(c),
            Run::Digits => is_ascii_digit(c),
        }
    }
}

/// The end of the longest run of the given kind that starts at `from`: the
/// first index at or after `from` whose character the run does not keep, or
/// the length of `s`.
pub open spec fn run_end(s: Seq<char>, from: int, run: Run) -> int
    decreases s.len() - from,
{
    if 0 <= from < s.len() && run.keeps(s[from]) {
        run_end(s, from + 1, run)
    } else {
        from
    }
}

/// The row, counted from 1, of the character at index `pos`: one more than
/// the number of line feeds before it.
pub open spec fn row_at(s: Seq<char>, pos: int) -> nat
    decreases pos,
{
    if pos <= 0 {
        1
    } else if s[pos - 1] == '\n' {
        row_at(s, pos - 1) + 1
    } else {
        row_at(s, pos - 1)
    }
}

/// The column, counted from 1, of the character at index `pos`: its distance
/// from the start of its line.
pub open spec fn col_at(s: Seq<char>, pos: int) -> nat
    decreases pos,
{
    if pos <= 0 || s[pos - 1] == '\n' {
        1
    } else {
        col_at(s, pos - 1) + 1
    }
}

/// The text without its carriage returns.
pub open spec fn without_carriage_returns(s: Seq<char>) -> Seq<char>
    decreases s.len(),
{
    if s.len() == 0 {
        s
    } else if s.last() == '\r' {
        without_carriage_returns(s.drop_last())
    } else {
        without_carriage_returns(s.drop_last()).push(s.last())
    }
}

/// Whether a comment starts at `start`: two slashes in a row.
pub open spec fn comment_starts(s: Seq<char>, start: int) -> bool {
    0 <= start && start + 1 < s.len() && s[start] == '/' && s[start + 1] == '/'
}

/// The reserved word that `text` spells, or `Identifier` if it spells none.
pub open spec fn word_kind(text: Seq<char>) -> TokenKind {
    if text == "add"@ {
        TokenKind::Add
    } else if text == "and"@ {
        TokenKind::And
    } else if text == "argument"@ {
        TokenKind::Argument
    } else if text == "call"@ {
        TokenKind::Call
    } else if text == "constant"@ {
        TokenKind::Constant
    } else if text == "eq"@ {
        TokenKind::Eq
    } else if text == "function"@ {
        TokenKind::Function
    } else if text == "goto"@ {
        TokenKind::Goto
    } else if text == "gt"@ {
        TokenKind::Gt
    } else if text == "if-goto"@ {
        TokenKind::IfGoto
    } else if text == "label"@ {
        TokenKind::Label
    } else if text == "local"@ {
        TokenKind::Local
    } else if text == "lt"@ {
        TokenKind::Lt
    } else if text == "neg"@ {
        TokenKind::Neg
    } else if text == "not"@ {
        TokenKind::Not
    } else if text == "or"@ {
        TokenKind::Or
    } else if text == "pointer"@ {
        TokenKind::Pointer
    } else if text == "pop"@ {
        TokenKind::Pop
    } else if text == "push"@ {
        TokenKind::Push
    } else if text == "return"@ {
        TokenKind::Return
    } else if text == "static"@ {
        TokenKind::Static
    } else if text == "sub"@ {
        TokenKind::Sub
    } else if text == "temp"@ {
        TokenKind::Temp
    } else if text == "that"@ {
        TokenKind::That
    } else if text == "this"@ {
        TokenKind::This
    } else {
        TokenKind::Identifier
    }
}

/// Where the token that begins at `start` ends: the index one past its last
/// character. `start` is the index of a character of `s`.
pub open spec fn token_stop(s: Seq<char>, start: int) -> int {
    if comment_starts(s, start) {
        run_end(s, start + 1, Run::Comment)
    } else if is_ascii_letter(s[start]) {
        run_end(s, start + 1, Run::Word)
    } else if is_ascii_digit(s[start]) {
        run_end(s, start + 1, Run::Digits)
    } else {
        start + 1
    }
}

/// The kind of the token that covers `s[start..stop]`.
pub open spec fn token_kind(s: Seq<char>, start: int, stop: int) -> TokenKind {
    if s[start] == '\n' {
        TokenKind::EndOfLine
    } else if comment_starts(s, start) {
        TokenKind::Comment
    } else if is_ascii_letter(s[start]) {
        word_kind(s.subrange(start, stop))
    } else if is_ascii_digit(s[start]) {
        TokenKind::Number
    } else {
        TokenKind::Illegal
    }
}

/// The token that covers `s[start..stop]`, with the position of its first and
/// of its last character.
pub open spec fn token_between(s: Seq<char>, start: int, stop: int) -> TokenModel {
    TokenModel {
        kind: token_kind(s, start, stop),
        text: s.subrange(start, stop),
        beg_row: row_at(s, start),
        beg_col: col_at(s, start),
        end_row: row_at(s, stop - 1),
        end_col: col_at(s, stop - 1),
    }
}

/// The next token at or after `pos`: blanks are skipped first, and where
/// nothing is left the token is an empty `EndOfFile`.
pub open spec fn token_at(s: Seq<char>, pos: int) -> TokenModel {
    let start = run_end(s, pos, Run::Blank);
    if start < s.len() {
        token_between(s, start, token_stop(s, start))
    } else {
        TokenModel::empty(TokenKind::EndOfFile)
    }
}

/// The index at which scanning goes on after the token at or after `pos`.
pub open spec fn position_after(s: Seq<char>, pos: int) -> int {
    let start = run_end(s, pos, Run::Blank);
    if start < s.len() {
        token_stop(s, start)
    } else {
        start
    }
}

/// All tokens from `pos` on, up to and including the first `EndOfFile`.
pub open spec fn tokens_from(s: Seq<char>, pos: int) -> Seq<TokenModel>
    decreases s.len() - pos,
    via tokens_from_decreases
{
    if 0 <= pos && run_end(s, pos, Run::Blank) < s.len() {
        seq![token_at(s, pos)] + tokens_from(s, position_after(s, pos))
    } else {
        seq![TokenModel::empty(TokenKind::EndOfFile)]
    }
}

#[via_fn]
proof fn tokens_from_decreases(s: Seq<char>, pos: int) {
    if 0 <= pos && run_end(s, pos, Run::Blank) < s.len() {
        lemma_scan_advances(s, pos);
    }
}

/// The token sequence of a whole source text.
pub open spec fn tokenize(s: Seq<char>) -> Seq<TokenModel> {
    tokens_from(s, 0)
}

/// The models of a sequence of tokens.
pub open spec fn token_models(tokens: Seq<Token>) -> Seq<TokenModel> {
    tokens.map_values(|t: Token| t@)
}

/// A run ends at or after its start and within the text.
pub proof fn lemma_run_end_bounds(s: Seq<char>, from: int, run: Run)
    requires
        0 <= from <= s.len(),
    ensures
        from <= run_end(s, from, run) <= s.len(),
        run_end(s, from, run) < s.len() ==> !run.keeps(s[run_end(s, from, run)]),
    decreases s.len() - from,
{
    if from < s.len() && run.keeps(s[from]) {
        lemma_run_end_bounds(s, from + 1, run);
    }
}

/// Scanning one token moves the position forward and stays within the text.
pub proof fn lemma_scan_advances(s: Seq<char>, pos: int)
    requires
        0 <= pos,
        run_end(s, pos, Run::Blank) < s.len(),
    ensures
        pos < position_after(s, pos) <= s.len(),
{
    lemma_run_end_bounds(s, pos, Run::Blank);
    let start = run_end(s, pos, Run::Blank);
    lemma_run_end_bounds(s, start + 1, Run::Comment);
    lemma_run_end_bounds(s, start + 1, Run::Word);
    lemma_run_end_bounds(s, start + 1, Run::Digits);
}

/// Rows and columns are at least 1 and no greater than the index plus one.
pub proof fn lemma_row_col_bounds(s: Seq<char>, pos: int)
    ensures
        1 <= row_at(s, pos),
        1 <= col_at(s, pos),
        pos >= 0 ==> row_at(s, pos) <= pos + 1 && col_at(s, pos) <= pos + 1,
    decreases pos,
{
    if pos > 0 {
        lemma_row_col_bounds(s, pos - 1);
    }
}

/// The token stream never ends early and never goes on after the end: it
/// holds exactly one `EndOfFile`, in the last place.
pub proof fn lemma_tokens_end_with_eof(s: Seq<char>, pos: int)
    requires
        0 <= pos,
    ensures
        tokens_from(s, pos).len() >= 1,
        tokens_from(s, pos).last() == TokenModel::empty(TokenKind::EndOfFile),
        forall|i: int|
            0 <= i < tokens_from(s, pos).len() - 1 ==> (#[trigger] tokens_from(s, pos)[i]).kind
                != TokenKind::EndOfFile,
    decreases s.len() - pos,
{
    if run_end(s, pos, Run::Blank) < s.len() {
        lemma_scan_advances(s, pos);
        let next = position_after(s, pos);
        lemma_tokens_end_with_eof(s, next);
        let rest = tokens_from(s, next);
        let all = tokens_from(s, pos);
        assert(all == seq![token_at(s, pos)] + rest);
        assert(token_at(s, pos).kind != TokenKind::EndOfFile) by {
            lemma_word_kind_is_no_marker(s.subrange(run_end(s, pos, Run::Blank), next));
        }
        assert forall|i: int| 0 <= i < all.len() - 1 implies (#[trigger] all[i]).kind
            != TokenKind::EndOfFile by {
            if i > 0 {
                assert(all[i] == rest[i - 1]);
            }
        }
    }
}

/// A word is a keyword or an identifier, never one of the marker kinds.
pub proof fn lemma_word_kind_is_no_marker(text: Seq<char>)
    ensures
        word_kind(text) != TokenKind::EndOfFile,
        word_kind(text) != TokenKind::EndOfLine,
        word_kind(text) != TokenKind::Comment,
        word_kind(text) != TokenKind::Number,
        word_kind(text) != TokenKind::Illegal,
{
}

fn is_whitespace(c: char) -> (b: bool)
    ensures
        b == is_ascii_whitespace(c),
{
    c == ' ' || c == '\t' || c == '\n' || c == '\x0C' || c == '\r'
}

fn is_letter(c: char) -> (b: bool)
    ensures
        b == is_ascii_letter(c),
{
    ('a' <= c && c <= 'z') || ('A' <= c && c <= 'Z')
}

fn is_digit(c: char) -> (b: bool)
    ensures
        b == is_ascii_digit(c),
{
    '0' <= c && c <= '9'
}

/// Whether `text` spells exactly `word`.
fn spells(text: &Vec<char>, word: &str) -> (same: bool)
    ensures
        same == (text@ == word@),
{
    let mut i: usize = 0;
    for c in it: word.chars()
        invariant
            i == it.index(),
            i <= text.len(),
            it.seq() == word@,
            text@.take(i as int) == word@.take(i as int),
    {
        if i >= text.len() || text[i] != c {
            proof {
                if text@ == word@ {
                    assert(text@[i as int] == word@[i as int]);
                }
            }
            return false;
        }
        assert(text@.take(i + 1) == text@.take(i as int).push(text@[i as int]));
        assert(word@.take(i + 1) == word@.take(i as int).push(word@[i as int]));
        i += 1;
    }
    proof {
        assert(word@.take(i as int) == word@);
        if i == text.len() {
            assert(text@.take(i as int) == text@);
        }
    }
    i == text.len()
}

/// A cursor over the characters of one source text.
pub struct Lexer {
    chars: Vec<char>,
    pos: usize,
    row: usize,
    col: usize,
}

impl Lexer {
    /// The characters being scanned.
    pub closed spec fn chars(&self) -> Seq<char> {
        self.chars@
    }

    /// The index of the next character to scan.
    pub closed spec fn position(&self) -> int {
        self.pos as int
    }

    /// The cursor lies within the text, and while it stands on a character
    /// it knows that character's row and column.
    pub closed spec fn wf(&self) -> bool {
        &&& self.pos <= self.chars.len()
        &&& self.pos < self.chars.len() ==> self.row == row_at(self.chars@, self.pos as int)
            && self.col == col_at(self.chars@, self.pos as int)
    }

    /// A cursor in good order lies within its text.
    pub proof fn lemma_cursor_lies_within(&self)
        requires
            self.wf(),
        ensures
            0 <= self.position() <= self.chars().len(),
    {
    }

    /// A cursor at the start of `source`. Carriage returns are dropped here,
    /// so that they count neither as characters nor as columns.
    pub fn new(source: &str) -> (lexer: Lexer)
        ensures
            lexer.wf(),
            lexer.chars() == without_carriage_returns(source@),
            lexer.position() == 0,
    {
        let mut chars: Vec<char> = Vec::new();
        for c in it: source.chars()
            invariant
                it.seq() == source@,
                chars@ == without_carriage_returns(source@.take(it.index())),
        {
            proof {
                let i = it.index();
                assert(source@.take(i + 1).drop_last() == source@.take(i));
            }
            if c != '\r' {
                chars.push(c);
            }
        }
        proof {
            assert(source@.take(source@.len() as int) == source@);
        }
        Lexer { chars, pos: 0, row: 1, col: 1 }
    }

    fn char(&self) -> (c: Option<char>)
        requires
            self.wf(),
        ensures
            c == if self.position() < self.chars().len() {
                Some(self.chars()[self.position()])
            } else {
                None
            },
    {
        self.look_ahead(0)
    }

    fn look_ahead(&self, n: usize) -> (c: Option<char>)
        requires
            self.wf(),
            n <= 1,
        ensures
            c == if self.position() + n < self.chars().len() {
                Some(self.chars()[self.position() + n])
            } else {
                None
            },
    {
        if n < self.chars.len() - self.pos {
            Some(self.chars[self.pos + n])
        } else {
            None
        }
    }

    /// Steps over the character under the cursor.
    fn consume_char(&mut self)
        requires
            old(self).wf(),
            old(self).position() < old(self).chars().len(),
        ensures
            final(self).wf(),
            final(self).chars() == old(self).chars(),
            final(self).position() == old(self).position() + 1,
    {
        proof {
            lemma_row_col_bounds(self.chars@, self.pos as int + 1);
        }
        if self.pos + 1 < self.chars.len() {
            if self.chars[self.pos] == '\n' {
                self.row = self.row + 1;
                self.col = 1;
            } else {
                self.col = self.col + 1;
            }
        }
        self.pos = self.pos + 1;
    }

    /// Skips the blanks in front of the next token.
    fn consume_whitespace(&mut self)
        requires
            old(self).wf(),
        ensures
            final(self).wf(),
            final(self).chars() == old(self).chars(),
            final(self).position() == run_end(old(self).chars(), old(self).position(), Run::Blank),
    {
        while self.pos < self.chars.len() && is_whitespace(self.chars[self.pos])
            && self.chars[self.pos] != '\n'
            invariant
                self.wf(),
                self.chars() == old(self).chars(),
                old(self).position() <= self.position(),
                run_end(self.chars(), self.position(), Run::Blank) == run_end(
                    old(self).chars(),
                    old(self).position(),
                    Run::Blank,
                ),
            decreases self.chars.len() - self.pos,
        {
            self.consume_char();
        }
    }

    /// A copy of the characters in `from..to`.
    fn copy_text(&self, from: usize, to: usize) -> (text: Vec<char>)
        requires
            from <= to <= self.chars().len(),
        ensures
            text@ == self.chars().subrange(from as int, to as int),
    {
        let mut text: Vec<char> = Vec::new();
        let mut i: usize = from;
        while i < to
            invariant
                from <= i <= to <= self.chars.len(),
                text@ == self.chars@.subrange(from as int, i as int),
            decreases to - i,
        {
            text.push(self.chars[i]);
            i = i + 1;
        }
        text
    }

    /// The one-character token under the cursor.
    fn new_char_token(&self, kind: TokenKind) -> (token: Token)
        requires
            self.wf(),
            self.position() < self.chars().len(),
        ensures
            token@ == (TokenModel {
                kind,
                text: self.chars().subrange(self.position(), self.position() + 1),
                beg_row: row_at(self.chars(), self.position()),
                beg_col: col_at(self.chars(), self.position()),
                end_row: row_at(self.chars(), self.position()),
                end_col: col_at(self.chars(), self.position()),
            }),
    {
        Token {
            kind,
            text: self.copy_text(self.pos, self.pos + 1),
            beg_row: self.row,
            beg_col: self.col,
            end_row: self.row,
            end_col: self.col,
        }
    }

    /// The token that began at `beg_pos` and ends under the cursor.
    fn new_string_token(&self, kind: TokenKind, beg_pos: usize, beg_row: usize, beg_col: usize) -> (token:
        Token)
        requires
            self.wf(),
            beg_pos <= self.position() < self.chars().len(),
        ensures
            token@ == (TokenModel {
                kind,
                text: self.chars().subrange(beg_pos as int, self.position() + 1),
                beg_row: beg_row as nat,
                beg_col: beg_col as nat,
                end_row: row_at(self.chars(), self.position()),
                end_col: col_at(self.chars(), self.position()),
            }),
    {
        Token {
            kind,
            text: self.copy_text(beg_pos, self.pos + 1),
            beg_row,
            beg_col,
            end_row: self.row,
            end_col: self.col,
        }
    }

    /// The word that began at `beg_pos` and ends under the cursor, as the
    /// keyword it spells or else as an identifier.
    fn new_identifier_token(&self, beg_pos: usize, beg_row: usize, beg_col: usize) -> (token: Token)
        requires
            self.wf(),
            beg_pos <= self.position() < self.chars().len(),
        ensures
            token@ == (TokenModel {
                kind: word_kind(self.chars().subrange(beg_pos as int, self.position() + 1)),
                text: self.chars().subrange(beg_pos as int, self.position() + 1),
                beg_row: beg_row as nat,
                beg_col: beg_col as nat,
                end_row: row_at(self.chars(), self.position()),
                end_col: col_at(self.chars(), self.position()),
            }),
    {
        let text = self.copy_text(beg_pos, self.pos + 1);
        let kind = if spells(&text, "add") {
            TokenKind::Add
        } else if spells(&text, "and") {
            TokenKind::And
        } else if spells(&text, "argument") {
            TokenKind::Argument
        } else if spells(&text, "call") {
            TokenKind::Call
        } else if spells(&text, "constant") {
            TokenKind::Constant
        } else if spells(&text, "eq") {
            TokenKind::Eq
        } else if spells(&text, "function") {
            TokenKind::Function
        } else if spells(&text, "goto") {
            TokenKind::Goto
        } else if spells(&text, "gt") {
            TokenKind::Gt
        } else if spells(&text, "if-goto") {
            TokenKind::IfGoto
        } else if spells(&text, "label") {
            TokenKind::Label
        } else if spells(&text, "local") {
            TokenKind::Local
        } else if spells(&text, "lt") {
            TokenKind::Lt
        } else if spells(&text, "neg") {
            TokenKind::Neg
        } else if spells(&text, "not") {
            TokenKind::Not
        } else if spells(&text, "or") {
            TokenKind::Or
        } else if spells(&text, "pointer") {
            TokenKind::Pointer
        } else if spells(&text, "pop") {
            TokenKind::Pop
        } else if spells(&text, "push") {
            TokenKind::Push
        } else if spells(&text, "return") {
            TokenKind::Return
        } else if spells(&text, "static") {
            TokenKind::Static
        } else if spells(&text, "sub") {
            TokenKind::Sub
        } else if spells(&text, "temp") {
            TokenKind::Temp
        } else if spells(&text, "that") {
            TokenKind::That
        } else if spells(&text, "this") {
            TokenKind::This
        } else {
            TokenKind::Identifier
        };
        Token { kind, text, beg_row, beg_col, end_row: self.row, end_col: self.col }
    }

    /// Moves the cursor onto the last character of the run that starts
    /// right after it.
    fn consume_run(&mut self, run: Run)
        requires
            old(self).wf(),
            old(self).position() < old(self).chars().len(),
        ensures
            final(self).wf(),
            final(self).chars() == old(self).chars(),
            final(self).position() + 1 == run_end(
                old(self).chars(),
                old(self).position() + 1,
                run,
            ),
            old(self).position() <= final(self).position() < final(self).chars().len(),
    {
        loop
            invariant
                self.wf(),
                self.chars() == old(self).chars(),
                old(self).position() <= self.position() < self.chars().len(),
                run_end(self.chars(), self.position() + 1, run) == run_end(
                    old(self).chars(),
                    old(self).position() + 1,
                    run,
                ),
            ensures
                self.wf(),
                self.chars() == old(self).chars(),
                old(self).position() <= self.position() < self.chars().len(),
                self.position() + 1 == run_end(old(self).chars(), old(self).position() + 1, run),
            decreases self.chars.len() - self.pos,
        {
            match self.look_ahead(1) {
                Some(peek) => {
                    let keeps = match run {
                        Run::Blank => is_whitespace(peek) && peek != '\n',
                        Run::Comment => peek != '\n',
                        Run::Word => !is_whitespace(peek),
                        Run::Digits => is_digit(peek),
                    };
                    if !keeps {
                        break ;
                    }
                    self.consume_char();
                },
                None => {
                    break ;
                },
            }
        }
    }

    fn consume_eol(&mut self) -> (token: Token)
        requires
            old(self).wf(),
            old(self).position() < old(self).chars().len(),
        ensures
            final(self).wf(),
            final(self).chars() == old(self).chars(),
            final(self).position() == old(self).position() + 1,
            token@ == (TokenModel {
                kind: TokenKind::EndOfLine,
                ..token_between(
                    old(self).chars(),
                    old(self).position(),
                    old(self).position() + 1,
                )
            }),
    {
        let token = self.new_char_token(TokenKind::EndOfLine);
        self.consume_char();
        token
    }

    fn consume_illegal(&mut self) -> (token: Token)
        requires
            old(self).wf(),
            old(self).position() < old(self).chars().len(),
        ensures
            final(self).wf(),
            final(self).chars() == old(self).chars(),
            final(self).position() == old(self).position() + 1,
            token@ == (TokenModel {
                kind: TokenKind::Illegal,
                ..token_between(
                    old(self).chars(),
                    old(self).position(),
                    old(self).position() + 1,
                )
            }),
    {
        let token = self.new_char_token(TokenKind::Illegal);
        self.consume_char();
        token
    }

    /// A slash starts a comment if another slash follows, and is illegal
    /// otherwise.
    fn consume_slash(&mut self) -> (token: Token)
        requires
            old(self).wf(),
            old(self).position() < old(self).chars().len(),
            old(self).chars()[old(self).position()] == '/',
        ensures
            final(self).wf(),
            final(self).chars() == old(self).chars(),
            final(self).position() == token_stop(old(self).chars(), old(self).position()),
            token@ == token_between(
                old(self).chars(),
                old(self).position(),
                final(self).position(),
            ),
    {
        if let Some(c) = self.look_ahead(1) {
            if c == '/' {
                return self.consume_comment();
            }
        }
        self.consume_illegal()
    }

    fn consume_comment(&mut self) -> (token: Token)
        requires
            old(self).wf(),
            comment_starts(old(self).chars(), old(self).position()),
        ensures
            final(self).wf(),
            final(self).chars() == old(self).chars(),
            final(self).position() == token_stop(old(self).chars(), old(self).position()),
            token@ == token_between(
                old(self).chars(),
                old(self).position(),
                final(self).position(),
            ),
    {
        let beg_pos = self.pos;
        let beg_row = self.row;
        let beg_col = self.col;
        self.consume_run(Run::Comment);
        let token = self.new_string_token(TokenKind::Comment, beg_pos, beg_row, beg_col);
        self.consume_char();
        token
    }

    fn consume_number(&mut self) -> (token: Token)
        requires
            old(self).wf(),
            old(self).position() < old(self).chars().len(),
            is_ascii_digit(old(self).chars()[old(self).position()]),
        ensures
            final(self).wf(),
            final(self).chars() == old(self).chars(),
            final(self).position() == token_stop(old(self).chars(), old(self).position()),
            token@ == token_between(
                old(self).chars(),
                old(self).position(),
                final(self).position(),
            ),
    {
        let beg_pos = self.pos;
        let beg_row = self.row;
        let beg_col = self.col;
        self.consume_run(Run::Digits);
        let token = self.new_string_token(TokenKind::Number, beg_pos, beg_row, beg_col);
        self.consume_char();
        token
    }

    fn consume_identifier(&mut self) -> (token: Token)
        requires
            old(self).wf(),
            old(self).position() < old(self).chars().len(),
            is_ascii_letter(old(self).chars()[old(self).position()]),
        ensures
            final(self).wf(),
            final(self).chars() == old(self).chars(),
            final(self).position() == token_stop(old(self).chars(), old(self).position()),
            token@ == token_between(
                old(self).chars(),
                old(self).position(),
                final(self).position(),
            ),
    {
        let beg_pos = self.pos;
        let beg_row = self.row;
        let beg_col = self.col;
        self.consume_run(Run::Word);
        let token = self.new_identifier_token(beg_pos, beg_row, beg_col);
        self.consume_char();
        token
    }

    /// Scans the next token and moves past it. At the end of the text the
    /// token is an empty `EndOfFile`, again and again.
    pub fn next_token(&mut self) -> (token: Token)
        requires
            old(self).wf(),
        ensures
            final(self).wf(),
            final(self).chars() == old(self).chars(),
            token@ == token_at(old(self).chars(), old(self).position()),
            final(self).position() == position_after(old(self).chars(), old(self).position()),
            0 <= old(self).position() <= final(self).position() <= old(self).chars().len(),
    {
        proof {
            lemma_run_end_bounds(self.chars@, self.pos as int, Run::Blank);
            if run_end(self.chars@, self.pos as int, Run::Blank) < self.chars.len() {
                lemma_scan_advances(self.chars@, self.pos as int);
            }
        }
        self.consume_whitespace();
        match self.char() {
            Some(c) => {
                if c == '\n' {
                    self.consume_eol()
                } else if c == '/' {
                    self.consume_slash()
                } else if is_letter(c) {
                    self.consume_identifier()
                } else if is_digit(c) {
                    self.consume_number()
                } else {
                    self.consume_illegal()
                }
            },
            None => Token::empty(TokenKind::EndOfFile),
        }
    }

    /// Scans all that is left, up to and including the `EndOfFile` token.
    pub fn list_all_tokens(&mut self) -> (tokens: Vec<Token>)
        requires
            old(self).wf(),
        ensures
            final(self).wf(),
            final(self).chars() == old(self).chars(),
            final(self).position() == old(self).chars().len(),
            token_models(tokens@) == tokens_from(old(self).chars(), old(self).position()),
    {
        let mut tokens: Vec<Token> = Vec::new();
        let ghost s = self.chars();
        let ghost start = self.position();
        loop
            invariant_except_break
                token_models(tokens@) + tokens_from(s, self.position()) == tokens_from(s, start),
            invariant
                self.wf(),
                self.chars() == s,
                s == old(self).chars(),
                start == old(self).position(),
                0 <= self.position(),
            ensures
                self.wf(),
                self.chars() == s,
                self.position() == s.len(),
                token_models(tokens@) == tokens_from(s, start),
            decreases s.len() - self.position(),
        {
            let ghost pos = self.position();
            let ghost before = token_models(tokens@);
            let token = self.next_token();
            let done = token.kind == TokenKind::EndOfFile;
            proof {
                lemma_run_end_bounds(s, pos, Run::Blank);
                if run_end(s, pos, Run::Blank) < s.len() {
                    lemma_scan_advances(s, pos);
                    lemma_word_kind_is_no_marker(
                        s.subrange(run_end(s, pos, Run::Blank), position_after(s, pos)),
                    );
                }
                assert(token_models(tokens@.push(token)) == before.push(token@));
            }
            tokens.push(token);
            if done {
                break ;
            }
        }
        tokens
    }
}

} // verus!
