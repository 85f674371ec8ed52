//! Assembly listings: the lines of an assembly text as data, how they are
//! spelled, and a writer that spells them.

use crate::instruction::{Address, CompToken, DestToken, JumpToken, Operation};
use crate::numeral::{decimal, push_decimal};
use vstd::prelude::*;
use vstd::string::StringExecFns;

verus! {

/// One line of an assembly listing.
pub ghost enum Line {
    /// An empty line.
    Blank,
    /// A line that holds a comment only.
    Comment(Seq<char>),
    /// The definition of a label, and what follows it on the line.
    Label { name: Seq<char>, note: Seq<char> },
    /// An instruction, and what follows it on the line.
    Code { op: Operation, note: Seq<char> },
}

impl Address {
    /// How the operand of a load is spelled: a number in decimal, a symbol
    /// by its name.
    pub open spec fn text(self) -> Seq<char> {
        match self {
            Address::Number(n) => decimal(n),
            Address::Symbol(name) => name,
        }
    }
}

impl Operation {
    /// How the instruction is spelled: `@` and the operand for a load;
    /// for a computation the destination and `=` unless there is none, the
    /// computation, and `;` and the jump unless there is none.
    pub open spec fn text(self) -> Seq<char> {
        match self {
            Operation::Load(addr) => "@"@ + addr.text(),
            Operation::Compute(dest, comp, jump) => {
                let stored = if dest is Empty {
                    ""@
                } else {
                    dest.mnemonic() + "="@
                };
                let jumped = if jump is Empty {
                    ""@
                } else {
                    ";"@ + jump.mnemonic()
                };
                stored + comp.mnemonic() + jumped
            },
        }
    }
}

impl Line {
    /// The characters of the line, with the line feed that ends it.
    pub open spec fn text(self) -> Seq<char> {
        match self {
            Line::Blank => "\n"@,
            Line::Comment(text) => "// "@ + text + "\n"@,
            Line::Label { name, note } => "("@ + name + ")"@ + note + "\n"@,
            Line::Code { op, note } => op.text() + note + "\n"@,
        }
    }
}

/// The text of a listing: its lines one after the other.
pub open spec fn render(lines: Seq<Line>) -> Seq<char>
    decreases lines.len(),
{
    if lines.len() == 0 {
        Seq::empty()
    } else {
        render(lines.drop_last()) + lines.last().text()
    }
}

/// A load of a number.
pub open spec fn at(n: nat) -> Line {
    Line::Code { op: Operation::Load(Address::Number(n)), note: ""@ }
}

/// A load of a number, with a note behind it.
pub open spec fn at_noted(n: nat, note: Seq<char>) -> Line {
    Line::Code { op: Operation::Load(Address::Number(n)), note }
}

/// A load of a symbol.
pub open spec fn at_symbol(name: Seq<char>) -> Line {
    Line::Code { op: Operation::Load(Address::Symbol(name)), note: ""@ }
}

/// A load of a symbol, with a note behind it.
pub open spec fn at_symbol_noted(name: Seq<char>, note: Seq<char>) -> Line {
    Line::Code { op: Operation::Load(Address::Symbol(name)), note }
}

/// A computation that stores its result and does not jump.
pub open spec fn store(dest: DestToken, comp: CompToken) -> Line {
    Line::Code { op: Operation::Compute(dest, comp, JumpToken::Empty), note: ""@ }
}

/// A computation.
pub open spec fn compute(dest: DestToken, comp: CompToken, jump: JumpToken) -> Line {
    Line::Code { op: Operation::Compute(dest, comp, jump), note: ""@ }
}

/// A computation, with a note behind it.
pub open spec fn compute_noted(
    dest: DestToken,
    comp: CompToken,
    jump: JumpToken,
    note: Seq<char>,
) -> Line {
    Line::Code { op: Operation::Compute(dest, comp, jump), note }
}

/// A label definition.
pub open spec fn label(name: Seq<char>) -> Line {
    Line::Label { name, note: ""@ }
}

/// Rendering goes line by line.
pub proof fn lemma_render_push(lines: Seq<Line>, line: Line)
    ensures
        render(lines.push(line)) == render(lines) + line.text(),
{
    assert(lines.push(line).drop_last() =~= lines);
}

/// The text of two listings in a row is the text of the one and then the
/// text of the other.
pub proof fn lemma_render_concat(first: Seq<Line>, second: Seq<Line>)
    ensures
        render(first + second) == render(first) + render(second),
    decreases second.len(),
{
    if second.len() == 0 {
        assert(first + second =~= first);
    } else {
        lemma_render_concat(first, second.drop_last());
        assert((first + second).drop_last() =~= first + second.drop_last());
        assert((first + second).last() == second.last());
    }
}

/// A writer of listings: it spells each line as it is added and keeps
/// account of the lines written.
pub struct Block {
    text: String,
    lines: Ghost<Seq<Line>>,
}

impl Block {
    /// The lines written so far.
    pub closed spec fn lines(&self) -> Seq<Line> {
        self.lines@
    }

    /// The text is the text of the lines.
    pub closed spec fn wf(&self) -> bool {
        self.text@ == render(self.lines@)
    }

    /// A writer that has written nothing.
    pub fn new() -> (block: Block)
        ensures
            block.wf(),
            block.lines() == Seq::<Line>::empty(),
    {
        Block { text: String::new(), lines: Ghost(Seq::empty()) }
    }

    /// Writes an empty line.
    pub fn blank(&mut self)
        requires
            old(self).wf(),
        ensures
            final(self).wf(),
            final(self).lines() == old(self).lines().push(Line::Blank),
    {
        proof {
            lemma_render_push(self.lines@, Line::Blank);
        }
        self.text.append("\n");
        assert(self.text@ =~= old(self).text@ + Line::Blank.text());
        self.lines = Ghost(self.lines@.push(Line::Blank));
    }

    /// Writes a line that holds a comment only.
    pub fn comment(&mut self, text: &str)
        requires
            old(self).wf(),
        ensures
            final(self).wf(),
            final(self).lines() == old(self).lines().push(Line::Comment(text@)),
    {
        proof {
            lemma_render_push(self.lines@, Line::Comment(text@));
        }
        self.text.append("// ");
        self.text.append(text);
        self.text.append("\n");
        assert(self.text@ =~= old(self).text@ + Line::Comment(text@).text());
        self.lines = Ghost(self.lines@.push(Line::Comment(text@)));
    }

    /// Writes the definition of a label, and `note` behind it.
    pub fn label(&mut self, name: &str, note: &str)
        requires
            old(self).wf(),
        ensures
            final(self).wf(),
            final(self).lines() == old(self).lines().push(Line::Label { name: name@, note: note@ }),
    {
        proof {
            lemma_render_push(self.lines@, Line::Label { name: name@, note: note@ });
        }
        self.text.append("(");
        self.text.append(name);
        self.text.append(")");
        self.text.append(note);
        self.text.append("\n");
        assert(self.text@ =~= old(self).text@ + (Line::Label { name: name@, note: note@ }).text());
        self.lines = Ghost(self.lines@.push(Line::Label { name: name@, note: note@ }));
    }

    /// Writes a load of a number, and `note` behind it.
    pub fn at_number(&mut self, n: usize, note: &str)
        requires
            old(self).wf(),
        ensures
            final(self).wf(),
            final(self).lines() == old(self).lines().push(at_noted(n as nat, note@)),
    {
        proof {
            lemma_render_push(self.lines@, at_noted(n as nat, note@));
        }
        self.text.append("@");
        push_decimal(&mut self.text, n);
        self.text.append(note);
        self.text.append("\n");
        assert(self.text@ =~= old(self).text@ + at_noted(n as nat, note@).text());
        self.lines = Ghost(self.lines@.push(at_noted(n as nat, note@)));
    }

    /// Writes a load of a symbol, and `note` behind it.
    pub fn at_symbol(&mut self, name: &str, note: &str)
        requires
            old(self).wf(),
        ensures
            final(self).wf(),
            final(self).lines() == old(self).lines().push(at_symbol_noted(name@, note@)),
    {
        proof {
            lemma_render_push(self.lines@, at_symbol_noted(name@, note@));
        }
        self.text.append("@");
        self.text.append(name);
        self.text.append(note);
        self.text.append("\n");
        assert(self.text@ =~= old(self).text@ + at_symbol_noted(name@, note@).text());
        self.lines = Ghost(self.lines@.push(at_symbol_noted(name@, note@)));
    }

    /// Writes a computation, and `note` behind it.
    pub fn compute(&mut self, dest: DestToken, comp: CompToken, jump: JumpToken, note: &str)
        requires
            old(self).wf(),
        ensures
            final(self).wf(),
            final(self).lines() == old(self).lines().push(
                compute_noted(dest, comp, jump, note@),
            ),
    {
        proof {
            lemma_render_push(self.lines@, compute_noted(dest, comp, jump, note@));
        }
        let ghost before = self.text@;
        match dest {
            DestToken::Empty => {
                self.text.append("");
            },
            _ => {
                self.text.append(dest.text());
                self.text.append("=");
            },
        }
        self.text.append(comp.text());
        match jump {
            JumpToken::Empty => {
                self.text.append("");
            },
            _ => {
                self.text.append(";");
                self.text.append(jump.text());
            },
        }
        assert(self.text@ == before + Operation::Compute(dest, comp, jump).text());
        self.text.append(note);
        self.text.append("\n");
        assert(self.text@ =~= old(self).text@ + compute_noted(dest, comp, jump, note@).text());
        self.lines = Ghost(self.lines@.push(compute_noted(dest, comp, jump, note@)));
    }

    /// A computation that stores its result and does not jump.
    pub fn store(&mut self, dest: DestToken, comp: CompToken)
        requires
            old(self).wf(),
        ensures
            final(self).wf(),
            final(self).lines() == old(self).lines().push(store(dest, comp)),
    {
        self.compute(dest, comp, JumpToken::Empty, "");
    }

    /// The text of the lines written.
    pub fn into_text(self) -> (text: String)
        requires
            self.wf(),
        ensures
            text@ == render(self.lines()),
    {
        self.text
    }
}

} // verus!
