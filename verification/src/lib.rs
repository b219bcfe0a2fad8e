//! A parser for Octo, a line-oriented assembly language for the CHIP-8
//! virtual machine.
//!
//! Source text is turned into a flat, ordered sequence of fragments, each
//! tagged with the number of line feeds consumed when it was recognised.
//! Loops, guards and labels are not nested here, and no name is resolved:
//! both are left to a later pass over the fragments.
//!
//! # How the parser is described
//!
//! The grammar is an ordered choice between forms, tried from one position
//! of the input. Each form has a mathematical description over `Seq<char>`
//! (the functions named `spec_…` and `after_…`) and an executable
//! recogniser that is proved to compute exactly that. A recogniser reports a
//! [`Step`]: a match with its value and the position after it, no match, or
//! a numeral whose value does not fit the integer range. The last ends the
//! parse; it is never taken for a mere mismatch.
//!
//! Recognisers change nothing. [`OctoParser::fragment`] commits what one of
//! them has read: it moves the line counter and enters aliases and labels
//! in their tables. [`OctoParser::program`] repeats that over a whole text,
//! and [`parse`] does so with a parser of its own.
//!
//! # Modules
//!
//! - [`chars`]: character classes, runs, fixed tokens, counting line feeds
//! - [`lexical`]: blanks, line feeds, trivia and names
//! - [`numeral`]: the four forms of a numeral
//! - [`operand`]: registers, the index register, values and names
//! - [`statement`]: assignments, conditions and structured statements
//! - [`fragment`]: comments, definitions and the choice between all forms
//! - [`parser`]: the parser's state, errors and the loop over a program
//! - [`symbols`]: the tables that definitions are entered in
//! - [`syntax`]: the syntax tree and its mathematical values
//! - [`source`], [`step`]: the decoded input and a recogniser's outcome

pub mod chars;
pub mod fragment;
pub mod lexical;
pub mod numeral;
pub mod operand;
pub mod parser;
pub mod source;
pub mod statement;
pub mod step;
pub mod symbols;
pub mod syntax;

pub use parser::{parse, Context, ErrorView, Located, OctoError, OctoParser, Outcome};
pub use source::Source;
pub use step::{SpecStep, Step};
pub use symbols::SymbolTable;
pub use syntax::{
    AssignmentView, ConditionView, Dest, DestView, FragmentView, LineNumber, OctoAssignment,
    OctoConditionalExpr, OctoDest, OctoDestView, OctoFragment, OctoSrc, OctoSrcView,
    OctoStatement, Src, SrcView, StatementView,
};
