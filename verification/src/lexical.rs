//! Blanks, line feeds, the trivia between fragments, and names.
//!
//! A recogniser that carries no value gives the position after what it
//! matched, or `None`.

use crate::chars::{
    lemma_run_end_bounds, lemma_run_end_maximal, lemma_run_end_resumes, run_end, scan, CharClass,
};
use crate::source::Source;
use crate::step::{SpecStep, Step};
use vstd::prelude::*;

verus! {

/// A position of the executable code as the unbounded position that
/// contracts speak of.
pub open spec fn position(r: Option<usize>) -> Option<int> {
    match r {
        Some(p) => Some(p as int),
        None => None,
    }
}

/// The position after one or more characters of `class`.
pub open spec fn after_run(s: Seq<char>, pos: int, class: CharClass) -> Option<int> {
    if run_end(s, pos, class) > pos {
        Some(run_end(s, pos, class))
    } else {
        None
    }
}

/// The position after one or more blanks. A line feed is no blank.
pub open spec fn after_whitespace(s: Seq<char>, pos: int) -> Option<int> {
    after_run(s, pos, CharClass::Blank)
}

/// The position after one line feed.
pub open spec fn after_newline(s: Seq<char>, pos: int) -> Option<int> {
    if 0 <= pos < s.len() && s[pos] == '\n' {
        Some(pos + 1)
    } else {
        None
    }
}

/// The position after a stretch of blanks, or else after one line feed.
pub open spec fn after_whitespace_or_newline(s: Seq<char>, pos: int) -> Option<int> {
    if after_whitespace(s, pos) is Some {
        after_whitespace(s, pos)
    } else {
        after_newline(s, pos)
    }
}

/// Where the blanks and line feeds that start at `pos` end. Trivia may be
/// empty, so this never fails.
pub open spec fn trivia_end(s: Seq<char>, pos: int) -> int {
    run_end(s, pos, CharClass::Trivia)
}

/// Where repeating "a stretch of blanks, or else one line feed" from `pos`
/// on, as often as it matches, comes to an end.
pub open spec fn after_repeated_whitespace_or_newline(s: Seq<char>, pos: int) -> int
    decreases s.len() - pos,
{
    match after_whitespace_or_newline(s, pos) {
        Some(next) => {
            proof {
                lemma_run_end_bounds(s, pos, CharClass::Blank);
            }
            after_repeated_whitespace_or_newline(s, next)
        },
        None => pos,
    }
}

/// Trivia is zero or more repetitions of blanks or a line feed.
///
/// The run of blanks and line feeds at `pos` ends where the repetition of
/// "a stretch of blanks, or else one line feed" ends.
pub proof fn lemma_trivia_is_repetition(s: Seq<char>, pos: int)
    ensures
        trivia_end(s, pos) == after_repeated_whitespace_or_newline(s, pos),
    decreases s.len() - pos,
{
    lemma_run_end_bounds(s, pos, CharClass::Blank);
    lemma_run_end_bounds(s, pos, CharClass::Trivia);
    lemma_run_end_bounds(s, pos + 1, CharClass::Blank);
    lemma_run_end_bounds(s, pos + 1, CharClass::Trivia);
    match after_whitespace_or_newline(s, pos) {
        Some(next) => {
            if after_whitespace(s, pos) is Some {
                lemma_run_end_maximal(s, pos, CharClass::Blank);
                assert forall|i: int| pos <= i < next implies CharClass::Trivia.contains(
                    #[trigger] s[i],
                ) by {
                    assert(CharClass::Blank.contains(s[i]));
                }
                lemma_run_end_resumes(s, pos, next, CharClass::Trivia);
            }
            lemma_trivia_is_repetition(s, next);
        },
        None => {},
    }
}

/// A name: one or more letters, `_` or `-`. Its value is the name itself.
pub open spec fn spec_symbol(s: Seq<char>, pos: int) -> SpecStep<Seq<char>> {
    let end = run_end(s, pos, CharClass::Symbol);
    if end > pos {
        SpecStep::Match { value: s.subrange(pos, end), next: end }
    } else {
        SpecStep::NoMatch
    }
}

/// Recognises one or more characters of `class` at `pos`.
pub fn run(src: &Source, pos: usize, class: CharClass) -> (r: Option<usize>)
    ensures
        position(r) == after_run(src@, pos as int, class),
{
    let end: usize = scan(src, pos, class);
    if end > pos {
        Some(end)
    } else {
        None
    }
}

/// Recognises one or more blanks at `pos`.
pub fn whitespace(src: &Source, pos: usize) -> (r: Option<usize>)
    ensures
        position(r) == after_whitespace(src@, pos as int),
{
    run(src, pos, CharClass::Blank)
}

/// Recognises one line feed at `pos`.
pub fn newline(src: &Source, pos: usize) -> (r: Option<usize>)
    ensures
        position(r) == after_newline(src@, pos as int),
{
    if pos < src.len() && src.char_at(pos) == '\n' {
        Some(pos + 1)
    } else {
        None
    }
}

/// Recognises a stretch of blanks, or else one line feed, at `pos`.
pub fn whitespace_or_newline(src: &Source, pos: usize) -> (r: Option<usize>)
    ensures
        position(r) == after_whitespace_or_newline(src@, pos as int),
{
    match whitespace(src, pos) {
        Some(next) => Some(next),
        None => newline(src, pos),
    }
}

/// Skips the blanks and line feeds at `pos`.
pub fn trivia(src: &Source, pos: usize) -> (end: usize)
    ensures
        end as int == trivia_end(src@, pos as int),
{
    scan(src, pos, CharClass::Trivia)
}

/// Recognises a name at `pos`.
pub fn symbol(src: &Source, pos: usize) -> (r: Step<String>)
    ensures
        r@ == spec_symbol(src@, pos as int),
{
    let end: usize = scan(src, pos, CharClass::Symbol);
    if end > pos {
        proof {
            lemma_run_end_bounds(src@, pos as int, CharClass::Symbol);
        }
        Step::Match { value: src.slice(pos, end), next: end }
    } else {
        Step::NoMatch
    }
}

} // verus!
