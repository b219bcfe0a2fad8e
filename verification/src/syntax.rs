//! The syntax tree: operands, assignments, conditions, statements and
//! fragments, each with the mathematical value that contracts speak of.
//!
//! The executable types hold machine integers and `String`s; their views hold
//! unbounded integers and `Seq<char>`. A view forgets nothing.

use vstd::prelude::*;

verus! {

/// Counts the line feeds consumed before a point of the input.
pub type LineNumber = usize;

/// A source operand that the machine knows without any symbol table.
#[derive(Debug, Clone, Copy, PartialEq, Eq)]
pub enum Src {
    /// One of the sixteen general-purpose registers, by index.
    Register(usize),
    /// An immediate value, as written.
    Const(isize),
    /// A request for a random value.
    Random,
}

/// A destination operand that the machine knows without any symbol table.
#[derive(Debug, Clone, Copy, PartialEq, Eq)]
pub enum Dest {
    /// One of the sixteen general-purpose registers, by index.
    Register(usize),
    /// The index register.
    I,
}

/// A source operand: a machine operand or a name to be resolved later.
#[derive(Debug, PartialEq, Eq)]
pub enum OctoSrc {
    Chip8(Src),
    Symbol(String),
}

/// A destination operand: a machine operand or a name to be resolved later.
#[derive(Debug, PartialEq, Eq)]
pub enum OctoDest {
    Chip8(Dest),
    Symbol(String),
}

/// An assignment, named after its operator.
#[derive(Debug, PartialEq, Eq)]
pub enum OctoAssignment {
    Store(OctoDest, OctoSrc),
    StoreRandom(OctoDest, usize),
    StoreHex(OctoDest, OctoSrc),
    Add(OctoDest, OctoSrc),
    Sub(OctoDest, OctoSrc),
    Or(OctoDest, OctoSrc),
    And(OctoDest, OctoSrc),
    Xor(OctoDest, OctoSrc),
    Shr(OctoDest, OctoSrc),
    Shl(OctoDest, OctoSrc),
}

/// The test of an `if`.
#[derive(Debug, PartialEq, Eq)]
pub enum OctoConditionalExpr {
    CondEq(OctoSrc, OctoSrc),
    CondNotEq(OctoSrc, OctoSrc),
    CondKey(OctoSrc),
    CondNotKey(OctoSrc),
}

/// A statement. An `If` is a guard only: what it guards follows as later
/// fragments.
#[derive(Debug, PartialEq, Eq)]
pub enum OctoStatement {
    Sprite(OctoSrc, OctoSrc, OctoSrc),
    Loop,
    Again,
    Return,
    If(OctoConditionalExpr),
    Assignment(OctoAssignment),
}

/// One top-level unit of the source, tagged with its line number.
#[derive(Debug, PartialEq, Eq)]
pub enum OctoFragment {
    /// The text after `#`, up to the end of the line.
    Comment(LineNumber, String),
    /// A register index and the name given to it.
    Alias(LineNumber, usize, String),
    /// A value and the name given to it.
    Const(LineNumber, isize, String),
    Label(LineNumber, String),
    /// A bare numeral, as in a table of data.
    Literal(LineNumber, isize),
    Statement(LineNumber, OctoStatement),
    /// A bare name: the routine of that name is invoked.
    Call(LineNumber, OctoDest),
}

/// The value of a [`Src`].
pub enum SrcView {
    Register(int),
    Const(int),
    Random,
}

/// The value of a [`Dest`].
pub enum DestView {
    Register(int),
    I,
}

/// The value of an [`OctoSrc`].
pub enum OctoSrcView {
    Chip8(SrcView),
    Symbol(Seq<char>),
}

/// The value of an [`OctoDest`].
pub enum OctoDestView {
    Chip8(DestView),
    Symbol(Seq<char>),
}

/// The value of an [`OctoAssignment`].
pub enum AssignmentView {
    Store(OctoDestView, OctoSrcView),
    StoreRandom(OctoDestView, int),
    StoreHex(OctoDestView, OctoSrcView),
    Add(OctoDestView, OctoSrcView),
    Sub(OctoDestView, OctoSrcView),
    Or(OctoDestView, OctoSrcView),
    And(OctoDestView, OctoSrcView),
    Xor(OctoDestView, OctoSrcView),
    Shr(OctoDestView, OctoSrcView),
    Shl(OctoDestView, OctoSrcView),
}

/// The value of an [`OctoConditionalExpr`].
pub enum ConditionView {
    CondEq(OctoSrcView, OctoSrcView),
    CondNotEq(OctoSrcView, OctoSrcView),
    CondKey(OctoSrcView),
    CondNotKey(OctoSrcView),
}

/// The value of an [`OctoStatement`].
pub enum StatementView {
    Sprite(OctoSrcView, OctoSrcView, OctoSrcView),
    Loop,
    Again,
    Return,
    If(ConditionView),
    Assignment(AssignmentView),
}

/// The value of an [`OctoFragment`].
pub enum FragmentView {
    Comment(int, Seq<char>),
    Alias(int, int, Seq<char>),
    Const(int, int, Seq<char>),
    Label(int, Seq<char>),
    Literal(int, int),
    Statement(int, StatementView),
    Call(int, OctoDestView),
}

impl View for Src {
    type V = SrcView;

    open spec fn view(&self) -> SrcView {
        match *self {
            Src::Register(r) => SrcView::Register(r as int),
            Src::Const(v) => SrcView::Const(v as int),
            Src::Random => SrcView::Random,
        }
    }
}

impl View for Dest {
    type V = DestView;

    open spec fn view(&self) -> DestView {
        match *self {
            Dest::Register(r) => DestView::Register(r as int),
            Dest::I => DestView::I,
        }
    }
}

impl View for OctoSrc {
    type V = OctoSrcView;

    open spec fn view(&self) -> OctoSrcView {
        match *self {
            OctoSrc::Chip8(s) => OctoSrcView::Chip8(s@),
            OctoSrc::Symbol(name) => OctoSrcView::Symbol(name@),
        }
    }
}

impl View for OctoDest {
    type V = OctoDestView;

    open spec fn view(&self) -> OctoDestView {
        match *self {
            OctoDest::Chip8(d) => OctoDestView::Chip8(d@),
            OctoDest::Symbol(name) => OctoDestView::Symbol(name@),
        }
    }
}

impl View for OctoAssignment {
    type V = AssignmentView;

    open spec fn view(&self) -> AssignmentView {
        match *self {
            OctoAssignment::Store(d, s) => AssignmentView::Store(d@, s@),
            OctoAssignment::StoreRandom(d, mask) => AssignmentView::StoreRandom(d@, mask as int),
            OctoAssignment::StoreHex(d, s) => AssignmentView::StoreHex(d@, s@),
            OctoAssignment::Add(d, s) => AssignmentView::Add(d@, s@),
            OctoAssignment::Sub(d, s) => AssignmentView::Sub(d@, s@),
            OctoAssignment::Or(d, s) => AssignmentView::Or(d@, s@),
            OctoAssignment::And(d, s) => AssignmentView::And(d@, s@),
            OctoAssignment::Xor(d, s) => AssignmentView::Xor(d@, s@),
            OctoAssignment::Shr(d, s) => AssignmentView::Shr(d@, s@),
            OctoAssignment::Shl(d, s) => AssignmentView::Shl(d@, s@),
        }
    }
}

impl View for OctoConditionalExpr {
    type V = ConditionView;

    open spec fn view(&self) -> ConditionView {
        match *self {
            OctoConditionalExpr::CondEq(a, b) => ConditionView::CondEq(a@, b@),
            OctoConditionalExpr::CondNotEq(a, b) => ConditionView::CondNotEq(a@, b@),
            OctoConditionalExpr::CondKey(a) => ConditionView::CondKey(a@),
            OctoConditionalExpr::CondNotKey(a) => ConditionView::CondNotKey(a@),
        }
    }
}

impl View for OctoStatement {
    type V = StatementView;

    open spec fn view(&self) -> StatementView {
        match *self {
            OctoStatement::Sprite(x, y, n) => StatementView::Sprite(x@, y@, n@),
            OctoStatement::Loop => StatementView::Loop,
            OctoStatement::Again => StatementView::Again,
            OctoStatement::Return => StatementView::Return,
            OctoStatement::If(c) => StatementView::If(c@),
            OctoStatement::Assignment(a) => StatementView::Assignment(a@),
        }
    }
}

impl View for OctoFragment {
    type V = FragmentView;

    open spec fn view(&self) -> FragmentView {
        match *self {
            OctoFragment::Comment(line, text) => FragmentView::Comment(line as int, text@),
            OctoFragment::Alias(line, reg, name) => FragmentView::Alias(
                line as int,
                reg as int,
                name@,
            ),
            OctoFragment::Const(line, value, name) => FragmentView::Const(
                line as int,
                value as int,
                name@,
            ),
            OctoFragment::Label(line, name) => FragmentView::Label(line as int, name@),
            OctoFragment::Literal(line, value) => FragmentView::Literal(line as int, value as int),
            OctoFragment::Statement(line, st) => FragmentView::Statement(line as int, st@),
            OctoFragment::Call(line, dest) => FragmentView::Call(line as int, dest@),
        }
    }
}

impl FragmentView {
    /// The line number that the fragment carries.
    pub open spec fn line(self) -> int {
        match self {
            FragmentView::Comment(line, _) => line,
            FragmentView::Alias(line, _, _) => line,
            FragmentView::Const(line, _, _) => line,
            FragmentView::Label(line, _) => line,
            FragmentView::Literal(line, _) => line,
            FragmentView::Statement(line, _) => line,
            FragmentView::Call(line, _) => line,
        }
    }
}

impl OctoFragment {
    /// The line number that the fragment carries.
    pub fn line(&self) -> (line: LineNumber)
        ensures
            line as int == self@.line(),
    {
        match self {
            OctoFragment::Comment(line, _) => *line,
            OctoFragment::Alias(line, _, _) => *line,
            OctoFragment::Const(line, _, _) => *line,
            OctoFragment::Label(line, _) => *line,
            OctoFragment::Literal(line, _) => *line,
            OctoFragment::Statement(line, _) => *line,
            OctoFragment::Call(line, _) => *line,
        }
    }
}

} // verus!
