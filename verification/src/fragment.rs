//! Fragments: comments, alias and label definitions, assignments,
//! statements, bare numerals and bare names.

use crate::chars::{
    after_tag, after_tag_no_case, count_newlines, has_tag, has_tag_no_case, is_blank,
    is_hex_digit, lemma_count_newlines_bounds, lemma_count_newlines_none, lemma_run_end_bounds,
    lemma_run_end_is, newlines_between, run_end, same_ignoring_case, scan, tag, tag_no_case,
    CharClass,
};
use crate::lexical::{after_whitespace, spec_symbol, symbol, whitespace};
use crate::numeral::{digit_value, lemma_val_advances, spec_val, val};
use crate::operand::{reg_num, spec_reg_num};
use crate::source::Source;
use crate::statement::{
    assignment, lemma_assignment_advances, lemma_statement_advances, spec_assignment,
    spec_statement, statement,
};
use crate::step::{SpecStep, Step};
use crate::syntax::{
    AssignmentView, FragmentView, LineNumber, OctoDest, OctoDestView, OctoFragment,
    OctoStatement, StatementView,
};
use vstd::prelude::*;

verus! {

/// `#`, then one or more characters up to the end of the line: the text
/// of the comment.
pub open spec fn spec_comment(s: Seq<char>, pos: int) -> SpecStep<Seq<char>> {
    match after_tag(s, pos, "#"@) {
        Some(text) => {
            let end = run_end(s, text, CharClass::CommentText);
            if end > text {
                SpecStep::Match { value: s.subrange(text, end), next: end }
            } else {
                SpecStep::NoMatch
            }
        },
        None => SpecStep::NoMatch,
    }
}

/// `#` with a line feed right after it: a comment without text. The line
/// feed is looked at and left where it is.
pub open spec fn spec_empty_comment(s: Seq<char>, pos: int) -> SpecStep<Seq<char>> {
    match after_tag(s, pos, "#"@) {
        Some(next) => if after_tag(s, next, "\n"@) is Some {
            SpecStep::Match { value: Seq::empty(), next }
        } else {
            SpecStep::NoMatch
        },
        None => SpecStep::NoMatch,
    }
}

/// `:alias` in either case, blanks, a name, blanks, a register: the
/// register's index and the name.
#[verifier::opaque]
pub open spec fn spec_alias(s: Seq<char>, pos: int) -> SpecStep<(usize, Seq<char>)> {
    match after_tag_no_case(s, pos, ":alias"@) {
        Some(at1) => match after_whitespace(s, at1) {
            Some(at2) => match spec_symbol(s, at2) {
                SpecStep::Match { value: name, next: at3 } => match after_whitespace(s, at3) {
                    Some(at4) => spec_reg_num(s, at4).map(|reg: usize| (reg, name)),
                    None => SpecStep::NoMatch,
                },
                SpecStep::NoMatch => SpecStep::NoMatch,
                SpecStep::Overflow { at } => SpecStep::Overflow { at },
            },
            None => SpecStep::NoMatch,
        },
        None => SpecStep::NoMatch,
    }
}

/// `:`, blanks, a name: the name of the label.
pub open spec fn spec_label(s: Seq<char>, pos: int) -> SpecStep<Seq<char>> {
    match after_tag(s, pos, ":"@) {
        Some(at1) => match after_whitespace(s, at1) {
            Some(at2) => spec_symbol(s, at2),
            None => SpecStep::NoMatch,
        },
        None => SpecStep::NoMatch,
    }
}

/// A bare numeral.
pub open spec fn spec_literal(s: Seq<char>, pos: int) -> SpecStep<isize> {
    spec_val(s, pos)
}

/// A bare name, as the destination of a call.
pub open spec fn spec_call(s: Seq<char>, pos: int) -> SpecStep<OctoDestView> {
    spec_symbol(s, pos).map(|name: Seq<char>| OctoDestView::Symbol(name))
}

/// What is recognised at `pos`, before it is given a line number. The
/// alternatives are tried in this order, the forms that a keyword or a
/// mark announces before the bare numeral and the bare name.
pub enum Unit {
    Comment(Seq<char>),
    Alias(usize, Seq<char>),
    Label(Seq<char>),
    Assignment(AssignmentView),
    Statement(StatementView),
    Literal(isize),
    Call(OctoDestView),
}

impl Unit {
    /// The fragment made of this unit and a line number.
    pub open spec fn on_line(self, line: int) -> FragmentView {
        match self {
            Unit::Comment(text) => FragmentView::Comment(line, text),
            Unit::Alias(reg, name) => FragmentView::Alias(line, reg as int, name),
            Unit::Label(name) => FragmentView::Label(line, name),
            Unit::Assignment(a) => FragmentView::Statement(line, StatementView::Assignment(a)),
            Unit::Statement(st) => FragmentView::Statement(line, st),
            Unit::Literal(value) => FragmentView::Literal(line, value as int),
            Unit::Call(dest) => FragmentView::Call(line, dest),
        }
    }
}

/// A fragment without its line number: a comment, else a comment without
/// text, else an alias, else a label, else an assignment, else a
/// structured statement, else a bare numeral, else a bare name.
pub open spec fn spec_unit(s: Seq<char>, pos: int) -> SpecStep<Unit> {
    spec_comment(s, pos).map(|text: Seq<char>| Unit::Comment(text)).or(
        spec_empty_comment(s, pos).map(|text: Seq<char>| Unit::Comment(text)),
    ).or(spec_alias(s, pos).map(|a: (usize, Seq<char>)| Unit::Alias(a.0, a.1))).or(
        spec_label(s, pos).map(|name: Seq<char>| Unit::Label(name)),
    ).or(spec_assignment(s, pos).map(|a: AssignmentView| Unit::Assignment(a))).or(
        spec_statement(s, pos).map(|st: StatementView| Unit::Statement(st)),
    ).or(spec_literal(s, pos).map(|value: isize| Unit::Literal(value))).or(
        spec_call(s, pos).map(|dest: OctoDestView| Unit::Call(dest)),
    )
}

/// The fragment at `pos`, where `line` line feeds were consumed before
/// `pos`. The fragment carries the number of line feeds consumed up to
/// its own end.
pub open spec fn spec_fragment(s: Seq<char>, pos: int, line: int) -> SpecStep<FragmentView> {
    match spec_unit(s, pos) {
        SpecStep::Match { value, next } => SpecStep::Match {
            value: value.on_line(line + count_newlines(s, pos, next)),
            next,
        },
        SpecStep::NoMatch => SpecStep::NoMatch,
        SpecStep::Overflow { at } => SpecStep::Overflow { at },
    }
}

/// A fragment holds at least one character and ends inside the input; a
/// numeral out of range starts inside the input, at or after `pos`.
pub proof fn lemma_unit_advances(s: Seq<char>, pos: int)
    requires
        0 <= pos,
    ensures
        spec_unit(s, pos).advances(s, pos),
{
    reveal(spec_alias);
    reveal_strlit("#");
    reveal_strlit(":");
    reveal_strlit(":alias");
    lemma_run_end_bounds(s, pos + 1, CharClass::CommentText);
    lemma_run_end_bounds(s, pos + 1, CharClass::Blank);
    lemma_run_end_bounds(s, pos + 6, CharClass::Blank);
    match after_whitespace(s, pos + 1) {
        Some(name) => {
            lemma_run_end_bounds(s, name, CharClass::Symbol);
        },
        None => {},
    }
    match after_whitespace(s, pos + 6) {
        Some(name) => {
            lemma_run_end_bounds(s, name, CharClass::Symbol);
            lemma_run_end_bounds(s, run_end(s, name, CharClass::Symbol), CharClass::Blank);
        },
        None => {},
    }
    lemma_assignment_advances(s, pos);
    lemma_statement_advances(s, pos);
    lemma_val_advances(s, pos);
    lemma_run_end_bounds(s, pos, CharClass::Symbol);
}

/// See [`lemma_unit_advances`]; a line number changes nothing in it.
pub proof fn lemma_fragment_advances(s: Seq<char>, pos: int, line: int)
    requires
        0 <= pos,
    ensures
        spec_fragment(s, pos, line).advances(s, pos),
{
    lemma_unit_advances(s, pos);
}

/// The parts of an alias definition put together.
pub open spec fn alias_directive(
    keyword: Seq<char>,
    gap1: Seq<char>,
    name: Seq<char>,
    gap2: Seq<char>,
    v: char,
    d: char,
) -> Seq<char> {
    keyword + gap1 + name + gap2 + seq![v, d]
}

/// Whether the parts are those of an alias definition: `:alias` in either
/// case, blanks, a name, blanks, and a register written `v` or `V` and a
/// hexadecimal digit.
pub open spec fn alias_parts(
    keyword: Seq<char>,
    gap1: Seq<char>,
    name: Seq<char>,
    gap2: Seq<char>,
    v: char,
    d: char,
) -> bool {
    &&& keyword.len() == 6
    &&& has_tag_no_case(keyword, 0, ":alias"@)
    &&& gap1.len() >= 1
    &&& forall|i: int| 0 <= i < gap1.len() ==> is_blank(#[trigger] gap1[i])
    &&& name.len() >= 1
    &&& forall|i: int| 0 <= i < name.len() ==> CharClass::Symbol.contains(#[trigger] name[i])
    &&& gap2.len() >= 1
    &&& forall|i: int| 0 <= i < gap2.len() ==> is_blank(#[trigger] gap2[i])
    &&& (v == 'v' || v == 'V')
    &&& is_hex_digit(d)
}

/// Where the characters of an alias definition stand in an input that
/// holds it at `pos`.
proof fn lemma_alias_layout(
    s: Seq<char>,
    pos: int,
    keyword: Seq<char>,
    gap1: Seq<char>,
    name: Seq<char>,
    gap2: Seq<char>,
    v: char,
    d: char,
)
    requires
        alias_parts(keyword, gap1, name, gap2, v, d),
        0 <= pos,
        pos + alias_directive(keyword, gap1, name, gap2, v, d).len() <= s.len(),
        s.subrange(pos, pos + alias_directive(keyword, gap1, name, gap2, v, d).len())
            == alias_directive(keyword, gap1, name, gap2, v, d),
    ensures
        ({
            let at1 = pos + 6;
            let at2 = at1 + gap1.len();
            let at3 = at2 + name.len();
            let at4 = at3 + gap2.len();
            &&& has_tag_no_case(s, pos, ":alias"@)
            &&& s[pos] == ':'
            &&& s[pos + 1] != ' ' && s[pos + 1] != '\t' && s[pos + 1] != '\r'
            &&& run_end(s, at1, CharClass::Blank) == at2
            &&& run_end(s, at2, CharClass::Symbol) == at3
            &&& s.subrange(at2, at3) == name
            &&& run_end(s, at3, CharClass::Blank) == at4
            &&& at4 + 2 <= s.len()
            &&& s[at4] == v
            &&& s[at4 + 1] == d
            &&& count_newlines(s, pos, at4 + 2) == 0
        }),
{
    reveal_strlit(":alias");
    let text = alias_directive(keyword, gap1, name, gap2, v, d);
    let at1 = pos + 6;
    let at2 = at1 + gap1.len();
    let at3 = at2 + name.len();
    let at4 = at3 + gap2.len();
    let at5 = at4 + 2;
    assert(text.len() == at5 - pos);
    assert forall|i: int| pos <= i < at5 implies s[i] == text[i - pos] by {
        assert(s.subrange(pos, at5)[i - pos] == s[i]);
    }
    assert forall|i: int| 0 <= i < 6 implies same_ignoring_case(
        s[pos + i],
        #[trigger] ":alias"@[i],
    ) by {
        assert(text[i] == keyword[i]);
        assert(same_ignoring_case(keyword[0int + i], ":alias"@[i]));
    }
    assert(same_ignoring_case(s[pos + 0], ":alias"@[0]));
    assert(same_ignoring_case(s[pos + 1], ":alias"@[1]));
    assert forall|i: int| at1 <= i < at2 implies CharClass::Blank.contains(#[trigger] s[i]) by {
        assert(text[i - pos] == gap1[i - at1]);
    }
    assert forall|i: int| at2 <= i < at3 implies CharClass::Symbol.contains(#[trigger] s[i]) by {
        assert(text[i - pos] == name[i - at2]);
    }
    assert forall|i: int| at3 <= i < at4 implies CharClass::Blank.contains(#[trigger] s[i]) by {
        assert(text[i - pos] == gap2[i - at3]);
    }
    assert(s[at4] == v && s[at4 + 1] == d) by {
        assert(text[at4 - pos] == v);
        assert(text[at4 + 1 - pos] == d);
    }
    lemma_run_end_is(s, at1, at2, CharClass::Blank);
    lemma_run_end_is(s, at2, at3, CharClass::Symbol);
    lemma_run_end_is(s, at3, at4, CharClass::Blank);
    assert(s.subrange(at2, at3) =~= name);
    assert forall|i: int| pos <= i < at5 && 0 <= i < s.len() implies #[trigger] s[i] != '\n' by {
        if i < at1 {
            assert(same_ignoring_case(s[pos + (i - pos)], ":alias"@[i - pos]));
        } else if i < at2 {
            assert(CharClass::Blank.contains(s[i]));
        } else if i < at3 {
            assert(CharClass::Symbol.contains(s[i]));
        } else if i < at4 {
            assert(CharClass::Blank.contains(s[i]));
        }
    }
    lemma_count_newlines_none(s, pos, at5);
}

/// An alias definition is read by the form of an alias, and by no form
/// that is tried before it; nor is it a label.
proof fn lemma_alias_form(
    s: Seq<char>,
    pos: int,
    keyword: Seq<char>,
    gap1: Seq<char>,
    name: Seq<char>,
    gap2: Seq<char>,
    v: char,
    d: char,
)
    requires
        alias_parts(keyword, gap1, name, gap2, v, d),
        0 <= pos,
        pos + alias_directive(keyword, gap1, name, gap2, v, d).len() <= s.len(),
        s.subrange(pos, pos + alias_directive(keyword, gap1, name, gap2, v, d).len())
            == alias_directive(keyword, gap1, name, gap2, v, d),
    ensures
        spec_comment(s, pos) is NoMatch,
        spec_empty_comment(s, pos) is NoMatch,
        spec_label(s, pos) is NoMatch,
        spec_alias(s, pos) == (SpecStep::Match {
            value: (digit_value(d) as usize, name),
            next: pos + alias_directive(keyword, gap1, name, gap2, v, d).len(),
        }),
{
    reveal(spec_alias);
    reveal_strlit("#");
    reveal_strlit(":");
    reveal_strlit(":alias");
    reveal_strlit("v");
    lemma_alias_layout(s, pos, keyword, gap1, name, gap2, v, d);
    let at1 = pos + 6;
    let at2 = at1 + gap1.len();
    let at3 = at2 + name.len();
    let at4 = at3 + gap2.len();
    assert(alias_directive(keyword, gap1, name, gap2, v, d).len() == at4 + 2 - pos);
    assert(after_tag_no_case(s, pos, ":alias"@) == Some(at1));
    assert(after_whitespace(s, at1) == Some(at2));
    assert(spec_symbol(s, at2) == SpecStep::Match { value: name, next: at3 });
    assert(after_whitespace(s, at3) == Some(at4));
    assert(has_tag_no_case(s, at4, "v"@));
    assert(spec_reg_num(s, at4) == SpecStep::Match {
        value: digit_value(d) as usize,
        next: at4 + 2,
    });
    assert(!has_tag(s, pos, "#"@)) by {
        if has_tag(s, pos, "#"@) {
            assert(s[pos + 0] == "#"@[0]);
        }
    }
    assert(run_end(s, pos + 1, CharClass::Blank) == pos + 1);
}

/// An alias definition is read as an alias definition, wherever it
/// stands.
///
/// Let the parts be those of an alias definition of `name` for the
/// register of digit `d`, as [`alias_parts`] says. Whatever stands before
/// and after the definition, the fragment read where it starts is the
/// alias of that name for that register, on the line reached there, and
/// it ends where the definition ends. It is no label: the form of a label
/// does not match there.
pub proof fn lemma_alias_directive(
    before: Seq<char>,
    keyword: Seq<char>,
    gap1: Seq<char>,
    name: Seq<char>,
    gap2: Seq<char>,
    v: char,
    d: char,
    after: Seq<char>,
    line: int,
)
    requires
        alias_parts(keyword, gap1, name, gap2, v, d),
    ensures
        spec_fragment(
            before + alias_directive(keyword, gap1, name, gap2, v, d) + after,
            before.len() as int,
            line,
        ) == (SpecStep::Match {
            value: FragmentView::Alias(line, digit_value(d), name),
            next: (before.len() + alias_directive(keyword, gap1, name, gap2, v, d).len()) as int,
        }),
        spec_label(
            before + alias_directive(keyword, gap1, name, gap2, v, d) + after,
            before.len() as int,
        ) is NoMatch,
{
    let text = alias_directive(keyword, gap1, name, gap2, v, d);
    let s = before + text + after;
    let pos = before.len() as int;
    assert(s.subrange(pos, pos + text.len()) =~= text);
    lemma_alias_form(s, pos, keyword, gap1, name, gap2, v, d);
    lemma_alias_layout(s, pos, keyword, gap1, name, gap2, v, d);
    lemma_alias_fragment(s, pos, line, digit_value(d) as usize, name, pos + text.len());
}

/// Where the two forms of a comment do not match and the form of an
/// alias does, the fragment is the alias.
proof fn lemma_alias_fragment(
    s: Seq<char>,
    pos: int,
    line: int,
    reg: usize,
    name: Seq<char>,
    next: int,
)
    requires
        spec_comment(s, pos) is NoMatch,
        spec_empty_comment(s, pos) is NoMatch,
        spec_alias(s, pos) == (SpecStep::Match { value: (reg, name), next }),
    ensures
        spec_fragment(s, pos, line) == (SpecStep::Match {
            value: FragmentView::Alias(line + count_newlines(s, pos, next), reg as int, name),
            next,
        }),
{
}

/// Recognises a comment with text at `pos`.
pub fn comment(src: &Source, pos: usize) -> (r: Step<String>)
    ensures
        r@ == spec_comment(src@, pos as int),
{
    match tag(src, pos, "#") {
        Some(text) => {
            let end: usize = scan(src, text, CharClass::CommentText);
            if end > text {
                proof {
                    lemma_run_end_bounds(src@, text as int, CharClass::CommentText);
                }
                Step::Match { value: src.slice(text, end), next: end }
            } else {
                Step::NoMatch
            }
        },
        None => Step::NoMatch,
    }
}

/// Recognises a comment without text at `pos`.
pub fn empty_comment(src: &Source, pos: usize) -> (r: Step<String>)
    ensures
        r@ == spec_empty_comment(src@, pos as int),
{
    match tag(src, pos, "#") {
        Some(next) => {
            if tag(src, next, "\n").is_some() {
                Step::Match { value: String::new(), next }
            } else {
                Step::NoMatch
            }
        },
        None => Step::NoMatch,
    }
}

/// Recognises an alias definition at `pos`.
pub fn alias(src: &Source, pos: usize) -> (r: Step<(usize, String)>)
    ensures
        r@ == spec_alias(src@, pos as int),
{
    reveal(spec_alias);
    let at1: usize = match tag_no_case(src, pos, ":alias") {
        Some(p) => p,
        None => {
            return Step::NoMatch;
        },
    };
    let at2: usize = match whitespace(src, at1) {
        Some(p) => p,
        None => {
            return Step::NoMatch;
        },
    };
    let (name, at3) = match symbol(src, at2) {
        Step::Match { value, next } => (value, next),
        Step::NoMatch => {
            return Step::NoMatch;
        },
        Step::Overflow { at } => {
            return Step::Overflow { at };
        },
    };
    let at4: usize = match whitespace(src, at3) {
        Some(p) => p,
        None => {
            return Step::NoMatch;
        },
    };
    match reg_num(src, at4) {
        Step::Match { value, next } => Step::Match { value: (value, name), next },
        Step::NoMatch => Step::NoMatch,
        Step::Overflow { at } => Step::Overflow { at },
    }
}

/// Recognises a label definition at `pos`.
pub fn label(src: &Source, pos: usize) -> (r: Step<String>)
    ensures
        r@ == spec_label(src@, pos as int),
{
    let at1: usize = match tag(src, pos, ":") {
        Some(p) => p,
        None => {
            return Step::NoMatch;
        },
    };
    let at2: usize = match whitespace(src, at1) {
        Some(p) => p,
        None => {
            return Step::NoMatch;
        },
    };
    symbol(src, at2)
}

/// Recognises a bare numeral at `pos`.
pub fn literal(src: &Source, pos: usize) -> (r: Step<isize>)
    ensures
        r@ == spec_literal(src@, pos as int),
{
    val(src, pos)
}

/// Recognises a bare name at `pos`.
pub fn call(src: &Source, pos: usize) -> (r: Step<OctoDest>)
    ensures
        r@ == spec_call(src@, pos as int),
{
    match symbol(src, pos) {
        Step::Match { value, next } => Step::Match { value: OctoDest::Symbol(value), next },
        Step::NoMatch => Step::NoMatch,
        Step::Overflow { at } => Step::Overflow { at },
    }
}

/// The line number of a fragment that starts at `pos`, after `line` line
/// feeds, and ends at `next`.
fn line_at_end(src: &Source, pos: usize, next: usize, line: LineNumber) -> (tagged: LineNumber)
    requires
        pos <= next <= src@.len(),
        line + (src@.len() - pos) <= usize::MAX,
    ensures
        tagged as int == line + count_newlines(src@, pos as int, next as int),
{
    let inside: usize = newlines_between(src, pos, next);
    proof {
        lemma_count_newlines_bounds(src@, pos as int, next as int);
    }
    line + inside
}

/// Recognises the fragment at `pos`, where `line` line feeds were consumed
/// before `pos`. The line number must have room for the line feeds that
/// may follow.
pub fn fragment(src: &Source, pos: usize, line: LineNumber) -> (r: Step<OctoFragment>)
    requires
        pos <= src@.len() ==> line + (src@.len() - pos) <= usize::MAX,
    ensures
        r@ == spec_fragment(src@, pos as int, line as int),
        r@.advances(src@, pos as int),
{
    proof {
        lemma_fragment_advances(src@, pos as int, line as int);
    }
    match comment(src, pos) {
        Step::Match { value, next } => {
            return Step::Match {
                value: OctoFragment::Comment(line_at_end(src, pos, next, line), value),
                next,
            };
        },
        Step::NoMatch => {},
        Step::Overflow { at } => {
            return Step::Overflow { at };
        },
    }
    match empty_comment(src, pos) {
        Step::Match { value, next } => {
            return Step::Match {
                value: OctoFragment::Comment(line_at_end(src, pos, next, line), value),
                next,
            };
        },
        Step::NoMatch => {},
        Step::Overflow { at } => {
            return Step::Overflow { at };
        },
    }
    match alias(src, pos) {
        Step::Match { value, next } => {
            return Step::Match {
                value: OctoFragment::Alias(line_at_end(src, pos, next, line), value.0, value.1),
                next,
            };
        },
        Step::NoMatch => {},
        Step::Overflow { at } => {
            return Step::Overflow { at };
        },
    }
    match label(src, pos) {
        Step::Match { value, next } => {
            return Step::Match {
                value: OctoFragment::Label(line_at_end(src, pos, next, line), value),
                next,
            };
        },
        Step::NoMatch => {},
        Step::Overflow { at } => {
            return Step::Overflow { at };
        },
    }
    match assignment(src, pos) {
        Step::Match { value, next } => {
            return Step::Match {
                value: OctoFragment::Statement(
                    line_at_end(src, pos, next, line),
                    OctoStatement::Assignment(value),
                ),
                next,
            };
        },
        Step::NoMatch => {},
        Step::Overflow { at } => {
            return Step::Overflow { at };
        },
    }
    match statement(src, pos) {
        Step::Match { value, next } => {
            return Step::Match {
                value: OctoFragment::Statement(line_at_end(src, pos, next, line), value),
                next,
            };
        },
        Step::NoMatch => {},
        Step::Overflow { at } => {
            return Step::Overflow { at };
        },
    }
    match literal(src, pos) {
        Step::Match { value, next } => {
            return Step::Match {
                value: OctoFragment::Literal(line_at_end(src, pos, next, line), value),
                next,
            };
        },
        Step::NoMatch => {},
        Step::Overflow { at } => {
            return Step::Overflow { at };
        },
    }
    match call(src, pos) {
        Step::Match { value, next } => Step::Match {
            value: OctoFragment::Call(line_at_end(src, pos, next, line), value),
            next,
        },
        Step::NoMatch => Step::NoMatch,
        Step::Overflow { at } => Step::Overflow { at },
    }
}

} // verus!
