//! Operands: registers, the index register, immediate values, random
//! requests and names.

use crate::chars::{
    after_tag_no_case, is_hex_digit, lemma_run_end_bounds, run_end, tag_no_case, CharClass,
};
use crate::lexical::{after_run, run, spec_symbol, symbol};
use crate::numeral::{digit_value, lemma_val_advances, spec_val, val};
use crate::source::Source;
use crate::step::{SpecStep, Step};
use crate::syntax::{Dest, DestView, OctoDest, OctoDestView, OctoSrc, OctoSrcView, Src, SrcView};
use vstd::prelude::*;

verus! {

/// `v` or `V`, then exactly one hexadecimal digit: the register's index.
pub open spec fn spec_reg_num(s: Seq<char>, pos: int) -> SpecStep<usize> {
    match after_tag_no_case(s, pos, "v"@) {
        Some(digit) => if digit < s.len() && is_hex_digit(s[digit]) {
            SpecStep::Match { value: digit_value(s[digit]) as usize, next: digit + 1 }
        } else {
            SpecStep::NoMatch
        },
        None => SpecStep::NoMatch,
    }
}

/// A register as a destination.
pub open spec fn spec_dest_reg(s: Seq<char>, pos: int) -> SpecStep<OctoDestView> {
    spec_reg_num(s, pos).map(|r: usize| OctoDestView::Chip8(DestView::Register(r as int)))
}

/// A register as a source.
pub open spec fn spec_src_reg(s: Seq<char>, pos: int) -> SpecStep<OctoSrcView> {
    spec_reg_num(s, pos).map(|r: usize| OctoSrcView::Chip8(SrcView::Register(r as int)))
}

/// `i` or `I`: the index register.
pub open spec fn spec_dest_i(s: Seq<char>, pos: int) -> SpecStep<OctoDestView> {
    match after_tag_no_case(s, pos, "i"@) {
        Some(next) => SpecStep::Match { value: OctoDestView::Chip8(DestView::I), next },
        None => SpecStep::NoMatch,
    }
}

/// A name as a destination.
pub open spec fn spec_dest_symbol(s: Seq<char>, pos: int) -> SpecStep<OctoDestView> {
    spec_symbol(s, pos).map(|name: Seq<char>| OctoDestView::Symbol(name))
}

/// A name as a source.
pub open spec fn spec_src_symbol(s: Seq<char>, pos: int) -> SpecStep<OctoSrcView> {
    spec_symbol(s, pos).map(|name: Seq<char>| OctoSrcView::Symbol(name))
}

/// A numeral as a source.
pub open spec fn spec_src_val(s: Seq<char>, pos: int) -> SpecStep<OctoSrcView> {
    spec_val(s, pos).map(|v: isize| OctoSrcView::Chip8(SrcView::Const(v as int)))
}

/// `random` in either case, one or more blanks or line feeds, then a
/// numeral, the mask. The operand does not carry the mask.
pub open spec fn spec_src_random(s: Seq<char>, pos: int) -> SpecStep<OctoSrcView> {
    match after_tag_no_case(s, pos, "random"@) {
        Some(gap) => match after_run(s, gap, CharClass::Trivia) {
            Some(mask) => spec_val(s, mask).map(|v: isize| OctoSrcView::Chip8(SrcView::Random)),
            None => SpecStep::NoMatch,
        },
        None => SpecStep::NoMatch,
    }
}

/// A destination: a register, else the index register, else a name.
pub open spec fn spec_lhs(s: Seq<char>, pos: int) -> SpecStep<OctoDestView> {
    spec_dest_reg(s, pos).or(spec_dest_i(s, pos)).or(spec_dest_symbol(s, pos))
}

/// A source: a register, else a numeral, else a random request, else a name.
pub open spec fn spec_rhs(s: Seq<char>, pos: int) -> SpecStep<OctoSrcView> {
    spec_src_reg(s, pos).or(spec_src_val(s, pos)).or(spec_src_random(s, pos)).or(
        spec_src_symbol(s, pos),
    )
}

/// A register or else a name: the operand of a `sprite` position and of
/// the left of a condition.
pub open spec fn spec_reg_or_symbol(s: Seq<char>, pos: int) -> SpecStep<OctoSrcView> {
    spec_src_reg(s, pos).or(spec_src_symbol(s, pos))
}

/// A numeral or else a name: the operand on the right of a comparison.
pub open spec fn spec_val_or_symbol(s: Seq<char>, pos: int) -> SpecStep<OctoSrcView> {
    spec_src_val(s, pos).or(spec_src_symbol(s, pos))
}

/// A register index is one of the sixteen, 0 to 15.
pub proof fn lemma_register_index_in_range(s: Seq<char>, pos: int)
    ensures
        spec_reg_num(s, pos) matches SpecStep::Match { value, .. } ==> value < 16,
{
}

/// A destination holds at least one character and ends inside the input.
pub proof fn lemma_lhs_advances(s: Seq<char>, pos: int)
    requires
        0 <= pos,
    ensures
        spec_lhs(s, pos).advances(s, pos),
        !(spec_lhs(s, pos) is Overflow),
{
    reveal_strlit("v");
    reveal_strlit("i");
    lemma_run_end_bounds(s, pos, CharClass::Symbol);
}

/// A register or a name holds at least one character and ends inside the
/// input.
pub proof fn lemma_reg_or_symbol_advances(s: Seq<char>, pos: int)
    requires
        0 <= pos,
    ensures
        spec_reg_or_symbol(s, pos).advances(s, pos),
        !(spec_reg_or_symbol(s, pos) is Overflow),
{
    reveal_strlit("v");
    lemma_run_end_bounds(s, pos, CharClass::Symbol);
}

/// A numeral or a name holds at least one character and ends inside the
/// input.
pub proof fn lemma_val_or_symbol_advances(s: Seq<char>, pos: int)
    requires
        0 <= pos,
    ensures
        spec_val_or_symbol(s, pos).advances(s, pos),
{
    lemma_val_advances(s, pos);
    lemma_run_end_bounds(s, pos, CharClass::Symbol);
}

/// A numeral as a source holds at least one character and ends inside the
/// input.
pub proof fn lemma_src_val_advances(s: Seq<char>, pos: int)
    requires
        0 <= pos,
    ensures
        spec_src_val(s, pos).advances(s, pos),
{
    lemma_val_advances(s, pos);
}

/// A random request holds at least one character and ends inside the
/// input.
pub proof fn lemma_src_random_advances(s: Seq<char>, pos: int)
    requires
        0 <= pos,
    ensures
        spec_src_random(s, pos).advances(s, pos),
{
    reveal_strlit("random");
    let gap = pos + 6;
    lemma_run_end_bounds(s, gap, CharClass::Trivia);
    if after_tag_no_case(s, pos, "random"@) is Some && after_run(s, gap, CharClass::Trivia)
        is Some {
        lemma_val_advances(s, run_end(s, gap, CharClass::Trivia));
    }
}

/// A source holds at least one character and ends inside the input.
pub proof fn lemma_rhs_advances(s: Seq<char>, pos: int)
    requires
        0 <= pos,
    ensures
        spec_rhs(s, pos).advances(s, pos),
{
    lemma_reg_or_symbol_advances(s, pos);
    lemma_src_val_advances(s, pos);
    lemma_src_random_advances(s, pos);
}

/// The worth of the hexadecimal digit `c` as a register index.
fn register_index(c: char) -> (r: usize)
    requires
        is_hex_digit(c),
    ensures
        r == digit_value(c) as usize,
        r < 16,
{
    let code: u32 = c as u32;
    if '0' <= c && c <= '9' {
        (code - 48) as usize
    } else if 'a' <= c && c <= 'f' {
        (code - 87) as usize
    } else {
        (code - 55) as usize
    }
}

/// Recognises a register at `pos` and gives its index.
pub fn reg_num(src: &Source, pos: usize) -> (r: Step<usize>)
    ensures
        r@ == spec_reg_num(src@, pos as int),
        r matches Step::Match { value, .. } ==> value < 16,
{
    match tag_no_case(src, pos, "v") {
        Some(digit) => {
            if digit < src.len() && CharClass::Hex.has(src.char_at(digit)) {
                Step::Match { value: register_index(src.char_at(digit)), next: digit + 1 }
            } else {
                Step::NoMatch
            }
        },
        None => Step::NoMatch,
    }
}

/// Recognises a register at `pos` as a destination.
pub fn dest_reg(src: &Source, pos: usize) -> (r: Step<OctoDest>)
    ensures
        r@ == spec_dest_reg(src@, pos as int),
{
    match reg_num(src, pos) {
        Step::Match { value, next } => Step::Match {
            value: OctoDest::Chip8(Dest::Register(value)),
            next,
        },
        Step::NoMatch => Step::NoMatch,
        Step::Overflow { at } => Step::Overflow { at },
    }
}

/// Recognises a register at `pos` as a source.
pub fn src_reg(src: &Source, pos: usize) -> (r: Step<OctoSrc>)
    ensures
        r@ == spec_src_reg(src@, pos as int),
{
    match reg_num(src, pos) {
        Step::Match { value, next } => Step::Match {
            value: OctoSrc::Chip8(Src::Register(value)),
            next,
        },
        Step::NoMatch => Step::NoMatch,
        Step::Overflow { at } => Step::Overflow { at },
    }
}

/// Recognises the index register at `pos`.
pub fn dest_i(src: &Source, pos: usize) -> (r: Step<OctoDest>)
    ensures
        r@ == spec_dest_i(src@, pos as int),
{
    match tag_no_case(src, pos, "i") {
        Some(next) => Step::Match { value: OctoDest::Chip8(Dest::I), next },
        None => Step::NoMatch,
    }
}

/// Recognises a name at `pos` as a destination.
pub fn dest_symbol(src: &Source, pos: usize) -> (r: Step<OctoDest>)
    ensures
        r@ == spec_dest_symbol(src@, pos as int),
{
    match symbol(src, pos) {
        Step::Match { value, next } => Step::Match { value: OctoDest::Symbol(value), next },
        Step::NoMatch => Step::NoMatch,
        Step::Overflow { at } => Step::Overflow { at },
    }
}

/// Recognises a name at `pos` as a source.
pub fn src_symbol(src: &Source, pos: usize) -> (r: Step<OctoSrc>)
    ensures
        r@ == spec_src_symbol(src@, pos as int),
{
    match symbol(src, pos) {
        Step::Match { value, next } => Step::Match { value: OctoSrc::Symbol(value), next },
        Step::NoMatch => Step::NoMatch,
        Step::Overflow { at } => Step::Overflow { at },
    }
}

/// Recognises a numeral at `pos` as a source.
pub fn src_val(src: &Source, pos: usize) -> (r: Step<OctoSrc>)
    ensures
        r@ == spec_src_val(src@, pos as int),
{
    match val(src, pos) {
        Step::Match { value, next } => Step::Match {
            value: OctoSrc::Chip8(Src::Const(value)),
            next,
        },
        Step::NoMatch => Step::NoMatch,
        Step::Overflow { at } => Step::Overflow { at },
    }
}

/// Recognises a random request at `pos`.
pub fn src_random(src: &Source, pos: usize) -> (r: Step<OctoSrc>)
    ensures
        r@ == spec_src_random(src@, pos as int),
{
    let gap: usize = match tag_no_case(src, pos, "random") {
        Some(gap) => gap,
        None => {
            return Step::NoMatch;
        },
    };
    let mask: usize = match run(src, gap, CharClass::Trivia) {
        Some(mask) => mask,
        None => {
            return Step::NoMatch;
        },
    };
    match val(src, mask) {
        Step::Match { value: _, next } => Step::Match { value: OctoSrc::Chip8(Src::Random), next },
        Step::NoMatch => Step::NoMatch,
        Step::Overflow { at } => Step::Overflow { at },
    }
}

/// Recognises a destination at `pos`.
pub fn lhs(src: &Source, pos: usize) -> (r: Step<OctoDest>)
    ensures
        r@ == spec_lhs(src@, pos as int),
{
    match dest_reg(src, pos) {
        Step::NoMatch => {},
        r => {
            return r;
        },
    }
    match dest_i(src, pos) {
        Step::NoMatch => {},
        r => {
            return r;
        },
    }
    dest_symbol(src, pos)
}

/// Recognises a source at `pos`.
pub fn rhs(src: &Source, pos: usize) -> (r: Step<OctoSrc>)
    ensures
        r@ == spec_rhs(src@, pos as int),
{
    match src_reg(src, pos) {
        Step::NoMatch => {},
        r => {
            return r;
        },
    }
    match src_val(src, pos) {
        Step::NoMatch => {},
        r => {
            return r;
        },
    }
    match src_random(src, pos) {
        Step::NoMatch => {},
        r => {
            return r;
        },
    }
    src_symbol(src, pos)
}

/// Recognises a register or else a name at `pos`.
pub fn reg_or_symbol(src: &Source, pos: usize) -> (r: Step<OctoSrc>)
    ensures
        r@ == spec_reg_or_symbol(src@, pos as int),
{
    match src_reg(src, pos) {
        Step::NoMatch => src_symbol(src, pos),
        r => r,
    }
}

/// Recognises a numeral or else a name at `pos`.
pub fn val_or_symbol(src: &Source, pos: usize) -> (r: Step<OctoSrc>)
    ensures
        r@ == spec_val_or_symbol(src@, pos as int),
{
    match src_val(src, pos) {
        Step::NoMatch => src_symbol(src, pos),
        r => r,
    }
}

} // verus!
