//! Lexical tokens of the virtual-machine language.

use vstd::prelude::*;

verus! {

/// What a token is: a command keyword, a segment keyword, or one of the
/// other lexical classes.
#[derive(Debug, PartialEq, Eq, Clone, Copy, Structural)]
pub enum TokenKind {
    // push / pop commands
    Push,
    Pop,
    // segments
    Local,
    Argument,
    Static,
    Constant,
    This,
    That,
    Pointer,
    Temp,
    // arithmetic / logical commands
    Add,
    Sub,
    Neg,
    Eq,
    Gt,
    Lt,
    And,
    Or,
    Not,
    // branching commands
    Label,
    Goto,
    IfGoto,
    // function commands
    Function,
    Call,
    Return,
    // other
    Number,
    Comment,
    EndOfFile,
    EndOfLine,
    Identifier,
    Illegal,
}

impl TokenKind {
    /// The segments a `push` may read from: all eight.
    pub open spec fn is_push_segment(self) -> bool {
        self is Local || self is Argument || self is Static || self is Constant || self is This
            || self is That || self is Pointer || self is Temp
    }

    /// The segments a `pop` may write to: all but `constant`, which has no
    /// backing storage.
    pub open spec fn is_pop_segment(self) -> bool {
        self.is_push_segment() && !(self is Constant)
    }

    /// Whether a `push` may read from this segment.
    pub fn is_valid_push_segment(&self) -> (valid: bool)
        ensures
            valid == self.is_push_segment(),
    {
        matches!(
            self,
            TokenKind::Local
                | TokenKind::Argument
                | TokenKind::Static
                | TokenKind::Constant
                | TokenKind::This
                | TokenKind::That
                | TokenKind::Pointer
                | TokenKind::Temp
        )
    }

    /// Whether a `pop` may write to this segment.
    pub fn is_valid_pop_segment(&self) -> (valid: bool)
        ensures
            valid == self.is_pop_segment(),
    {
        matches!(
            self,
            TokenKind::Local
                | TokenKind::Argument
                | TokenKind::Static
                | TokenKind::This
                | TokenKind::That
                | TokenKind::Pointer
                | TokenKind::Temp
        )
    }
}

/// The mathematical content of a [`Token`].
pub ghost struct TokenModel {
    pub kind: TokenKind,
    pub text: Seq<char>,
    pub beg_row: nat,
    pub beg_col: nat,
    pub end_row: nat,
    pub end_col: nat,
}

/// A lexical token: its kind, the exact source characters it covers, and the
/// row and column (both counted from 1) of its first and last character.
#[derive(Debug)]
pub struct Token {
    pub kind: TokenKind,
    pub text: Vec<char>,
    pub beg_row: usize,
    pub beg_col: usize,
    pub end_row: usize,
    pub end_col: usize,
}

impl View for Token {
    type V = TokenModel;

    open spec fn view(&self) -> TokenModel {
        TokenModel {
            kind: self.kind,
            text: self.text@,
            beg_row: self.beg_row as nat,
            beg_col: self.beg_col as nat,
            end_row: self.end_row as nat,
            end_col: self.end_col as nat,
        }
    }
}

impl TokenModel {
    /// A token of the given kind that covers no text and has no position.
    pub open spec fn empty(kind: TokenKind) -> TokenModel {
        TokenModel { kind, text: Seq::empty(), beg_row: 0, beg_col: 0, end_row: 0, end_col: 0 }
    }
}

impl Token {
    /// A token of the given kind that covers no text and has no position.
    pub fn empty(kind: TokenKind) -> (token: Token)
        ensures
            token@ == TokenModel::empty(kind),
    {
        Token { kind, text: Vec::new(), beg_row: 0, beg_col: 0, end_row: 0, end_col: 0 }
    }

    /// A second token with the same content.
    pub fn duplicate(&self) -> (token: Token)
        ensures
            token@ == self@,
    {
        let mut text: Vec<char> = Vec::new();
        let mut i: usize = 0;
        while i < self.text.len()
            invariant
                i <= self.text.len(),
                text@ == self.text@.take(i as int),
            decreases self.text.len() - i,
        {
            text.push(self.text[i]);
            i = i + 1;
        }
        assert(self.text@.take(i as int) == self.text@);
        Token {
            kind: self.kind,
            text,
            beg_row: self.beg_row,
            beg_col: self.beg_col,
            end_row: self.end_row,
            end_col: self.end_col,
        }
    }

    /// The text of the token as a string.
    pub fn text_string(&self) -> (text: String)
        ensures
            text@ == self@.text,
    {
        let mut text = String::new();
        let mut i: usize = 0;
        while i < self.text.len()
            invariant
                i <= self.text.len(),
                text@ == self.text@.take(i as int),
            decreases self.text.len() - i,
        {
            text.push(self.text[i]);
            i = i + 1;
        }
        assert(self.text@.take(i as int) == self.text@);
        text
    }
}

} // verus!
