//! Assignments, conditions and the structured statements.

use crate::chars::{
    after_tag, after_tag_no_case, has_tag, has_tag_no_case, is_blank, is_hex_digit,
    lemma_run_end_bounds, lemma_run_end_is, same_ignoring_case, tag, tag_no_case, CharClass,
};
use crate::lexical::{after_whitespace, whitespace};
use crate::numeral::digit_value;
use crate::operand::{
    lemma_lhs_advances, lemma_reg_or_symbol_advances, lemma_rhs_advances,
    lemma_src_val_advances, lemma_val_or_symbol_advances, lhs, reg_or_symbol, rhs, spec_lhs,
    spec_reg_or_symbol, spec_rhs, spec_src_val, spec_val_or_symbol, src_val, val_or_symbol,
};
use crate::source::Source;
use crate::step::{SpecStep, Step};
use crate::syntax::{
    AssignmentView, ConditionView, OctoAssignment, OctoConditionalExpr, OctoDest, OctoDestView,
    OctoSrc, OctoSrcView, OctoStatement, SrcView, StatementView,
};
use vstd::prelude::*;

verus! {

/// The assignment operators that have a token of their own.
#[derive(Debug, Clone, Copy, PartialEq, Eq)]
pub enum AssignOp {
    /// `:=`
    Store,
    /// `+=`
    Add,
    /// `&=`
    And,
    /// `|=`
    Or,
    /// `-=`
    Sub,
    /// `^=`
    Xor,
    /// `>>=`
    Shr,
    /// `<<=`
    Shl,
}

impl AssignOp {
    /// The operator as it is written.
    pub open spec fn spec_token(self) -> Seq<char> {
        match self {
            AssignOp::Store => ":="@,
            AssignOp::Add => "+="@,
            AssignOp::And => "&="@,
            AssignOp::Or => "|="@,
            AssignOp::Sub => "-="@,
            AssignOp::Xor => "^="@,
            AssignOp::Shr => ">>="@,
            AssignOp::Shl => "<<="@,
        }
    }

    /// The assignment that the operator makes of its two operands.
    pub open spec fn spec_build(self, dest: OctoDestView, src: OctoSrcView) -> AssignmentView {
        match self {
            AssignOp::Store => AssignmentView::Store(dest, src),
            AssignOp::Add => AssignmentView::Add(dest, src),
            AssignOp::And => AssignmentView::And(dest, src),
            AssignOp::Or => AssignmentView::Or(dest, src),
            AssignOp::Sub => AssignmentView::Sub(dest, src),
            AssignOp::Xor => AssignmentView::Xor(dest, src),
            AssignOp::Shr => AssignmentView::Shr(dest, src),
            AssignOp::Shl => AssignmentView::Shl(dest, src),
        }
    }

    /// The operator as it is written.
    pub fn token(self) -> (t: &'static str)
        ensures
            t@ == self.spec_token(),
    {
        match self {
            AssignOp::Store => ":=",
            AssignOp::Add => "+=",
            AssignOp::And => "&=",
            AssignOp::Or => "|=",
            AssignOp::Sub => "-=",
            AssignOp::Xor => "^=",
            AssignOp::Shr => ">>=",
            AssignOp::Shl => "<<=",
        }
    }

    /// Makes the assignment of the operator from its two operands.
    pub fn build(self, dest: OctoDest, src: OctoSrc) -> (a: OctoAssignment)
        ensures
            a@ == self.spec_build(dest@, src@),
    {
        match self {
            AssignOp::Store => OctoAssignment::Store(dest, src),
            AssignOp::Add => OctoAssignment::Add(dest, src),
            AssignOp::And => OctoAssignment::And(dest, src),
            AssignOp::Or => OctoAssignment::Or(dest, src),
            AssignOp::Sub => OctoAssignment::Sub(dest, src),
            AssignOp::Xor => OctoAssignment::Xor(dest, src),
            AssignOp::Shr => OctoAssignment::Shr(dest, src),
            AssignOp::Shl => OctoAssignment::Shl(dest, src),
        }
    }
}

/// A destination, blanks, the token of `op`, blanks, a source.
#[verifier::opaque]
pub open spec fn spec_assignment_with(s: Seq<char>, pos: int, op: AssignOp) -> SpecStep<
    AssignmentView,
> {
    match spec_lhs(s, pos) {
        SpecStep::Match { value: dest, next: at1 } => match after_whitespace(s, at1) {
            Some(at2) => match after_tag(s, at2, op.spec_token()) {
                Some(at3) => match after_whitespace(s, at3) {
                    Some(at4) => spec_rhs(s, at4).map(|src: OctoSrcView| op.spec_build(dest, src)),
                    None => SpecStep::NoMatch,
                },
                None => SpecStep::NoMatch,
            },
            None => SpecStep::NoMatch,
        },
        SpecStep::NoMatch => SpecStep::NoMatch,
        SpecStep::Overflow { at } => SpecStep::Overflow { at },
    }
}

/// An assignment with any of the operators.
pub open spec fn spec_assignment(s: Seq<char>, pos: int) -> SpecStep<AssignmentView> {
    spec_assignment_with(s, pos, AssignOp::Store).or(
        spec_assignment_with(s, pos, AssignOp::Add),
    ).or(spec_assignment_with(s, pos, AssignOp::And)).or(
        spec_assignment_with(s, pos, AssignOp::Or),
    ).or(spec_assignment_with(s, pos, AssignOp::Sub)).or(
        spec_assignment_with(s, pos, AssignOp::Xor),
    ).or(spec_assignment_with(s, pos, AssignOp::Shr)).or(
        spec_assignment_with(s, pos, AssignOp::Shl),
    )
}

/// An operand, blanks, `token`, blanks, an operand: the two sides of a
/// comparison. The left side is a register or a name, the right side a
/// numeral or a name.
#[verifier::opaque]
pub open spec fn spec_comparison(s: Seq<char>, pos: int, token: Seq<char>) -> SpecStep<
    (OctoSrcView, OctoSrcView),
> {
    match spec_reg_or_symbol(s, pos) {
        SpecStep::Match { value: left, next: at1 } => match after_whitespace(s, at1) {
            Some(at2) => match after_tag(s, at2, token) {
                Some(at3) => match after_whitespace(s, at3) {
                    Some(at4) => spec_val_or_symbol(s, at4).map(|right: OctoSrcView| (left, right)),
                    None => SpecStep::NoMatch,
                },
                None => SpecStep::NoMatch,
            },
            None => SpecStep::NoMatch,
        },
        SpecStep::NoMatch => SpecStep::NoMatch,
        SpecStep::Overflow { at } => SpecStep::Overflow { at },
    }
}

/// A register or a name, blanks, then `token` in either case: the operand
/// of a key test.
#[verifier::opaque]
pub open spec fn spec_key_test(s: Seq<char>, pos: int, token: Seq<char>) -> SpecStep<OctoSrcView> {
    match spec_reg_or_symbol(s, pos) {
        SpecStep::Match { value: key, next: at1 } => match after_whitespace(s, at1) {
            Some(at2) => match after_tag_no_case(s, at2, token) {
                Some(at3) => SpecStep::Match { value: key, next: at3 },
                None => SpecStep::NoMatch,
            },
            None => SpecStep::NoMatch,
        },
        SpecStep::NoMatch => SpecStep::NoMatch,
        SpecStep::Overflow { at } => SpecStep::Overflow { at },
    }
}

/// `left == right`.
pub open spec fn spec_cond_eq(s: Seq<char>, pos: int) -> SpecStep<ConditionView> {
    spec_comparison(s, pos, "=="@).map(
        |sides: (OctoSrcView, OctoSrcView)| ConditionView::CondEq(sides.0, sides.1),
    )
}

/// `left != right`.
pub open spec fn spec_cond_noteq(s: Seq<char>, pos: int) -> SpecStep<ConditionView> {
    spec_comparison(s, pos, "!="@).map(
        |sides: (OctoSrcView, OctoSrcView)| ConditionView::CondNotEq(sides.0, sides.1),
    )
}

/// `operand key`: the key named by the operand is pressed.
pub open spec fn spec_cond_key(s: Seq<char>, pos: int) -> SpecStep<ConditionView> {
    spec_key_test(s, pos, "key"@).map(|key: OctoSrcView| ConditionView::CondKey(key))
}

/// `operand -key`: the key named by the operand is not pressed. `-key` is
/// one token; no numeral is looked for in it.
pub open spec fn spec_cond_notkey(s: Seq<char>, pos: int) -> SpecStep<ConditionView> {
    spec_key_test(s, pos, "-key"@).map(|key: OctoSrcView| ConditionView::CondNotKey(key))
}

/// A condition: equal, else not equal, else key pressed, else key not
/// pressed.
pub open spec fn spec_conditional_expr(s: Seq<char>, pos: int) -> SpecStep<ConditionView> {
    spec_cond_eq(s, pos).or(spec_cond_noteq(s, pos)).or(spec_cond_key(s, pos)).or(
        spec_cond_notkey(s, pos),
    )
}

/// `sprite`, blanks, a position operand, blanks, a position operand,
/// blanks, a numeral: the height.
#[verifier::opaque]
pub open spec fn spec_sprite(s: Seq<char>, pos: int) -> SpecStep<StatementView> {
    match after_tag_no_case(s, pos, "sprite"@) {
        Some(at1) => match after_whitespace(s, at1) {
            Some(at2) => match spec_reg_or_symbol(s, at2) {
                SpecStep::Match { value: x, next: at3 } => match after_whitespace(s, at3) {
                    Some(at4) => match spec_reg_or_symbol(s, at4) {
                        SpecStep::Match { value: y, next: at5 } => match after_whitespace(s, at5) {
                            Some(at6) => spec_src_val(s, at6).map(
                                |n: OctoSrcView| StatementView::Sprite(x, y, n),
                            ),
                            None => SpecStep::NoMatch,
                        },
                        SpecStep::NoMatch => SpecStep::NoMatch,
                        SpecStep::Overflow { at } => SpecStep::Overflow { at },
                    },
                    None => SpecStep::NoMatch,
                },
                SpecStep::NoMatch => SpecStep::NoMatch,
                SpecStep::Overflow { at } => SpecStep::Overflow { at },
            },
            None => SpecStep::NoMatch,
        },
        None => SpecStep::NoMatch,
    }
}

/// `loop`.
pub open spec fn spec_loopstmt(s: Seq<char>, pos: int) -> SpecStep<StatementView> {
    match after_tag_no_case(s, pos, "loop"@) {
        Some(next) => SpecStep::Match { value: StatementView::Loop, next },
        None => SpecStep::NoMatch,
    }
}

/// `again`.
pub open spec fn spec_againstmt(s: Seq<char>, pos: int) -> SpecStep<StatementView> {
    match after_tag_no_case(s, pos, "again"@) {
        Some(next) => SpecStep::Match { value: StatementView::Again, next },
        None => SpecStep::NoMatch,
    }
}

/// The end of a routine: `again`, or else `;`.
pub open spec fn spec_returnstmt(s: Seq<char>, pos: int) -> SpecStep<StatementView> {
    match after_tag_no_case(s, pos, "again"@) {
        Some(next) => SpecStep::Match { value: StatementView::Return, next },
        None => match after_tag(s, pos, ";"@) {
            Some(next) => SpecStep::Match { value: StatementView::Return, next },
            None => SpecStep::NoMatch,
        },
    }
}

/// `if`, blanks, a condition, blanks, `then`.
#[verifier::opaque]
pub open spec fn spec_ifstmt(s: Seq<char>, pos: int) -> SpecStep<StatementView> {
    match after_tag_no_case(s, pos, "if"@) {
        Some(at1) => match after_whitespace(s, at1) {
            Some(at2) => match spec_conditional_expr(s, at2) {
                SpecStep::Match { value: cond, next: at3 } => match after_whitespace(s, at3) {
                    Some(at4) => match after_tag_no_case(s, at4, "then"@) {
                        Some(at5) => SpecStep::Match { value: StatementView::If(cond), next: at5 },
                        None => SpecStep::NoMatch,
                    },
                    None => SpecStep::NoMatch,
                },
                SpecStep::NoMatch => SpecStep::NoMatch,
                SpecStep::Overflow { at } => SpecStep::Overflow { at },
            },
            None => SpecStep::NoMatch,
        },
        None => SpecStep::NoMatch,
    }
}

/// A structured statement: `sprite`, else `if`, else `loop`, else `again`,
/// else the end of a routine. As `again` comes first, a routine ends here
/// only with `;`.
pub open spec fn spec_statement(s: Seq<char>, pos: int) -> SpecStep<StatementView> {
    spec_sprite(s, pos).or(spec_ifstmt(s, pos)).or(spec_loopstmt(s, pos)).or(
        spec_againstmt(s, pos),
    ).or(spec_returnstmt(s, pos))
}

/// An assignment with `op` holds at least one character and ends inside
/// the input.
pub proof fn lemma_assignment_with_advances(s: Seq<char>, pos: int, op: AssignOp)
    requires
        0 <= pos,
    ensures
        spec_assignment_with(s, pos, op).advances(s, pos),
{
    reveal(spec_assignment_with);
    lemma_lhs_advances(s, pos);
    match spec_lhs(s, pos) {
        SpecStep::Match { value: _, next: at1 } => {
            lemma_run_end_bounds(s, at1, CharClass::Blank);
            match after_whitespace(s, at1) {
                Some(at2) => match after_tag(s, at2, op.spec_token()) {
                    Some(at3) => {
                        lemma_run_end_bounds(s, at3, CharClass::Blank);
                        match after_whitespace(s, at3) {
                            Some(at4) => {
                                lemma_rhs_advances(s, at4);
                            },
                            None => {},
                        }
                    },
                    None => {},
                },
                None => {},
            }
        },
        _ => {},
    }
}

/// An assignment holds at least one character and ends inside the input.
pub proof fn lemma_assignment_advances(s: Seq<char>, pos: int)
    requires
        0 <= pos,
    ensures
        spec_assignment(s, pos).advances(s, pos),
{
    lemma_assignment_with_advances(s, pos, AssignOp::Store);
    lemma_assignment_with_advances(s, pos, AssignOp::Add);
    lemma_assignment_with_advances(s, pos, AssignOp::And);
    lemma_assignment_with_advances(s, pos, AssignOp::Or);
    lemma_assignment_with_advances(s, pos, AssignOp::Sub);
    lemma_assignment_with_advances(s, pos, AssignOp::Xor);
    lemma_assignment_with_advances(s, pos, AssignOp::Shr);
    lemma_assignment_with_advances(s, pos, AssignOp::Shl);
}

/// The two sides of a comparison hold at least one character and end
/// inside the input.
pub proof fn lemma_comparison_advances(s: Seq<char>, pos: int, token: Seq<char>)
    requires
        0 <= pos,
    ensures
        spec_comparison(s, pos, token).advances(s, pos),
{
    reveal(spec_comparison);
    lemma_reg_or_symbol_advances(s, pos);
    match spec_reg_or_symbol(s, pos) {
        SpecStep::Match { value: _, next: at1 } => {
            lemma_run_end_bounds(s, at1, CharClass::Blank);
            match after_whitespace(s, at1) {
                Some(at2) => match after_tag(s, at2, token) {
                    Some(at3) => {
                        lemma_run_end_bounds(s, at3, CharClass::Blank);
                        match after_whitespace(s, at3) {
                            Some(at4) => {
                                lemma_val_or_symbol_advances(s, at4);
                            },
                            None => {},
                        }
                    },
                    None => {},
                },
                None => {},
            }
        },
        _ => {},
    }
}

/// A key test holds at least one character, ends inside the input, and
/// reads no numeral.
pub proof fn lemma_key_test_advances(s: Seq<char>, pos: int, token: Seq<char>)
    requires
        0 <= pos,
    ensures
        spec_key_test(s, pos, token).advances(s, pos),
        !(spec_key_test(s, pos, token) is Overflow),
{
    reveal(spec_key_test);
    lemma_reg_or_symbol_advances(s, pos);
    match spec_reg_or_symbol(s, pos) {
        SpecStep::Match { value: _, next: at1 } => {
            lemma_run_end_bounds(s, at1, CharClass::Blank);
        },
        _ => {},
    }
}

/// A condition holds at least one character and ends inside the input.
pub proof fn lemma_conditional_expr_advances(s: Seq<char>, pos: int)
    requires
        0 <= pos,
    ensures
        spec_conditional_expr(s, pos).advances(s, pos),
{
    lemma_comparison_advances(s, pos, "=="@);
    lemma_comparison_advances(s, pos, "!="@);
    lemma_key_test_advances(s, pos, "key"@);
    lemma_key_test_advances(s, pos, "-key"@);
}

/// A `sprite` statement holds at least one character and ends inside the
/// input.
pub proof fn lemma_sprite_advances(s: Seq<char>, pos: int)
    requires
        0 <= pos,
    ensures
        spec_sprite(s, pos).advances(s, pos),
{
    reveal(spec_sprite);
    match after_tag_no_case(s, pos, "sprite"@) {
        Some(at1) => {
            lemma_run_end_bounds(s, at1, CharClass::Blank);
            match after_whitespace(s, at1) {
                Some(at2) => {
                    lemma_reg_or_symbol_advances(s, at2);
                    match spec_reg_or_symbol(s, at2) {
                        SpecStep::Match { value: _, next: at3 } => {
                            lemma_run_end_bounds(s, at3, CharClass::Blank);
                            match after_whitespace(s, at3) {
                                Some(at4) => {
                                    lemma_reg_or_symbol_advances(s, at4);
                                    match spec_reg_or_symbol(s, at4) {
                                        SpecStep::Match { value: _, next: at5 } => {
                                            lemma_run_end_bounds(s, at5, CharClass::Blank);
                                            match after_whitespace(s, at5) {
                                                Some(at6) => {
                                                    lemma_src_val_advances(s, at6);
                                                },
                                                None => {},
                                            }
                                        },
                                        _ => {},
                                    }
                                },
                                None => {},
                            }
                        },
                        _ => {},
                    }
                },
                None => {},
            }
        },
        None => {},
    }
}

/// An `if` guard holds at least one character and ends inside the input.
pub proof fn lemma_ifstmt_advances(s: Seq<char>, pos: int)
    requires
        0 <= pos,
    ensures
        spec_ifstmt(s, pos).advances(s, pos),
{
    reveal(spec_ifstmt);
    match after_tag_no_case(s, pos, "if"@) {
        Some(at1) => {
            lemma_run_end_bounds(s, at1, CharClass::Blank);
            match after_whitespace(s, at1) {
                Some(at2) => {
                    lemma_conditional_expr_advances(s, at2);
                    match spec_conditional_expr(s, at2) {
                        SpecStep::Match { value: _, next: at3 } => {
                            lemma_run_end_bounds(s, at3, CharClass::Blank);
                        },
                        _ => {},
                    }
                },
                None => {},
            }
        },
        None => {},
    }
}

/// A structured statement holds at least one character and ends inside
/// the input.
pub proof fn lemma_statement_advances(s: Seq<char>, pos: int)
    requires
        0 <= pos,
    ensures
        spec_statement(s, pos).advances(s, pos),
{
    reveal_strlit("loop");
    reveal_strlit("again");
    reveal_strlit(";");
    lemma_sprite_advances(s, pos);
    lemma_ifstmt_advances(s, pos);
}

/// A register, blanks and `-key` are the test that a key is not pressed.
///
/// Let a register stand at the end of `before`, written `v` or `V` and
/// the hexadecimal digit `d`, then one or more blanks, then `-key` in
/// either case, then anything. The condition read there is "the key of
/// register `d` is not pressed", and it ends with `-key`: the `-` is not
/// taken for the sign of a numeral.
pub proof fn lemma_register_not_key(
    before: Seq<char>,
    v: char,
    d: char,
    gap: Seq<char>,
    word: Seq<char>,
    after: Seq<char>,
)
    requires
        v == 'v' || v == 'V',
        is_hex_digit(d),
        gap.len() >= 1,
        forall|i: int| 0 <= i < gap.len() ==> is_blank(#[trigger] gap[i]),
        word.len() == 4,
        has_tag_no_case(word, 0, "-key"@),
    ensures
        spec_conditional_expr(before + seq![v, d] + gap + word + after, before.len() as int) == (
        SpecStep::Match {
            value: ConditionView::CondNotKey(
                OctoSrcView::Chip8(SrcView::Register(digit_value(d))),
            ),
            next: (before.len() + 2 + gap.len() + 4) as int,
        }),
{
    reveal(spec_comparison);
    reveal(spec_key_test);
    reveal_strlit("v");
    reveal_strlit("==");
    reveal_strlit("!=");
    reveal_strlit("key");
    reveal_strlit("-key");
    let s = before + seq![v, d] + gap + word + after;
    let pos = before.len() as int;
    let at1 = pos + 2;
    let at2 = at1 + gap.len();
    assert(s[pos] == v);
    assert(s[pos + 1] == d);
    assert(has_tag_no_case(s, pos, "v"@));
    assert forall|i: int| at1 <= i < at2 implies CharClass::Blank.contains(#[trigger] s[i]) by {
        assert(s[i] == gap[i - at1]);
    }
    assert forall|i: int| 0 <= i < 4 implies s[at2 + i] == #[trigger] word[i] by {}
    assert(same_ignoring_case(word[0int + 0], "-key"@[0]));
    assert(s[at2] == '-');
    lemma_run_end_is(s, at1, at2, CharClass::Blank);
    assert(!has_tag(s, at2, "=="@)) by {
        if has_tag(s, at2, "=="@) {
            assert(s[at2 + 0] == "=="@[0]);
        }
    }
    assert(!has_tag(s, at2, "!="@)) by {
        if has_tag(s, at2, "!="@) {
            assert(s[at2 + 0] == "!="@[0]);
        }
    }
    assert(!has_tag_no_case(s, at2, "key"@)) by {
        if has_tag_no_case(s, at2, "key"@) {
            assert(same_ignoring_case(s[at2 + 0], "key"@[0]));
        }
    }
    assert(has_tag_no_case(s, at2, "-key"@)) by {
        assert forall|i: int| 0 <= i < 4 implies same_ignoring_case(
            s[at2 + i],
            #[trigger] "-key"@[i],
        ) by {
            assert(s[at2 + i] == word[i]);
            assert(same_ignoring_case(word[0int + i], "-key"@[i]));
        }
    }
}

/// Recognises an assignment with the operator `op` at `pos`.
pub fn assignment_with(src: &Source, pos: usize, op: AssignOp) -> (r: Step<OctoAssignment>)
    ensures
        r@ == spec_assignment_with(src@, pos as int, op),
{
    reveal(spec_assignment_with);
    let (dest, at1) = match lhs(src, pos) {
        Step::Match { value, next } => (value, next),
        Step::NoMatch => {
            return Step::NoMatch;
        },
        Step::Overflow { at } => {
            return Step::Overflow { at };
        },
    };
    let at2: usize = match whitespace(src, at1) {
        Some(p) => p,
        None => {
            return Step::NoMatch;
        },
    };
    let at3: usize = match tag(src, at2, op.token()) {
        Some(p) => p,
        None => {
            return Step::NoMatch;
        },
    };
    let at4: usize = match whitespace(src, at3) {
        Some(p) => p,
        None => {
            return Step::NoMatch;
        },
    };
    match rhs(src, at4) {
        Step::Match { value, next } => Step::Match { value: op.build(dest, value), next },
        Step::NoMatch => Step::NoMatch,
        Step::Overflow { at } => Step::Overflow { at },
    }
}

/// Recognises an assignment at `pos`.
pub fn assignment(src: &Source, pos: usize) -> (r: Step<OctoAssignment>)
    ensures
        r@ == spec_assignment(src@, pos as int),
{
    match assignment_with(src, pos, AssignOp::Store) {
        Step::NoMatch => {},
        r => {
            return r;
        },
    }
    match assignment_with(src, pos, AssignOp::Add) {
        Step::NoMatch => {},
        r => {
            return r;
        },
    }
    match assignment_with(src, pos, AssignOp::And) {
        Step::NoMatch => {},
        r => {
            return r;
        },
    }
    match assignment_with(src, pos, AssignOp::Or) {
        Step::NoMatch => {},
        r => {
            return r;
        },
    }
    match assignment_with(src, pos, AssignOp::Sub) {
        Step::NoMatch => {},
        r => {
            return r;
        },
    }
    match assignment_with(src, pos, AssignOp::Xor) {
        Step::NoMatch => {},
        r => {
            return r;
        },
    }
    match assignment_with(src, pos, AssignOp::Shr) {
        Step::NoMatch => {},
        r => {
            return r;
        },
    }
    assignment_with(src, pos, AssignOp::Shl)
}

/// Recognises the two sides of a comparison written with `token` at `pos`.
pub fn comparison(src: &Source, pos: usize, token: &str) -> (r: Step<(OctoSrc, OctoSrc)>)
    ensures
        r@ == spec_comparison(src@, pos as int, token@),
{
    reveal(spec_comparison);
    let (left, at1) = match reg_or_symbol(src, pos) {
        Step::Match { value, next } => (value, next),
        Step::NoMatch => {
            return Step::NoMatch;
        },
        Step::Overflow { at } => {
            return Step::Overflow { at };
        },
    };
    let at2: usize = match whitespace(src, at1) {
        Some(p) => p,
        None => {
            return Step::NoMatch;
        },
    };
    let at3: usize = match tag(src, at2, token) {
        Some(p) => p,
        None => {
            return Step::NoMatch;
        },
    };
    let at4: usize = match whitespace(src, at3) {
        Some(p) => p,
        None => {
            return Step::NoMatch;
        },
    };
    match val_or_symbol(src, at4) {
        Step::Match { value, next } => Step::Match { value: (left, value), next },
        Step::NoMatch => Step::NoMatch,
        Step::Overflow { at } => Step::Overflow { at },
    }
}

/// Recognises the operand of a key test written with `token` at `pos`.
pub fn key_test(src: &Source, pos: usize, token: &str) -> (r: Step<OctoSrc>)
    ensures
        r@ == spec_key_test(src@, pos as int, token@),
{
    reveal(spec_key_test);
    let (key, at1) = match reg_or_symbol(src, pos) {
        Step::Match { value, next } => (value, next),
        Step::NoMatch => {
            return Step::NoMatch;
        },
        Step::Overflow { at } => {
            return Step::Overflow { at };
        },
    };
    let at2: usize = match whitespace(src, at1) {
        Some(p) => p,
        None => {
            return Step::NoMatch;
        },
    };
    match tag_no_case(src, at2, token) {
        Some(next) => Step::Match { value: key, next },
        None => Step::NoMatch,
    }
}

/// Recognises `left == right` at `pos`.
pub fn cond_eq(src: &Source, pos: usize) -> (r: Step<OctoConditionalExpr>)
    ensures
        r@ == spec_cond_eq(src@, pos as int),
{
    match comparison(src, pos, "==") {
        Step::Match { value, next } => Step::Match {
            value: OctoConditionalExpr::CondEq(value.0, value.1),
            next,
        },
        Step::NoMatch => Step::NoMatch,
        Step::Overflow { at } => Step::Overflow { at },
    }
}

/// Recognises `left != right` at `pos`.
pub fn cond_noteq(src: &Source, pos: usize) -> (r: Step<OctoConditionalExpr>)
    ensures
        r@ == spec_cond_noteq(src@, pos as int),
{
    match comparison(src, pos, "!=") {
        Step::Match { value, next } => Step::Match {
            value: OctoConditionalExpr::CondNotEq(value.0, value.1),
            next,
        },
        Step::NoMatch => Step::NoMatch,
        Step::Overflow { at } => Step::Overflow { at },
    }
}

/// Recognises `operand key` at `pos`.
pub fn cond_key(src: &Source, pos: usize) -> (r: Step<OctoConditionalExpr>)
    ensures
        r@ == spec_cond_key(src@, pos as int),
{
    match key_test(src, pos, "key") {
        Step::Match { value, next } => Step::Match {
            value: OctoConditionalExpr::CondKey(value),
            next,
        },
        Step::NoMatch => Step::NoMatch,
        Step::Overflow { at } => Step::Overflow { at },
    }
}

/// Recognises `operand -key` at `pos`.
pub fn cond_notkey(src: &Source, pos: usize) -> (r: Step<OctoConditionalExpr>)
    ensures
        r@ == spec_cond_notkey(src@, pos as int),
{
    match key_test(src, pos, "-key") {
        Step::Match { value, next } => Step::Match {
            value: OctoConditionalExpr::CondNotKey(value),
            next,
        },
        Step::NoMatch => Step::NoMatch,
        Step::Overflow { at } => Step::Overflow { at },
    }
}

/// Recognises a condition at `pos`.
pub fn conditional_expr(src: &Source, pos: usize) -> (r: Step<OctoConditionalExpr>)
    ensures
        r@ == spec_conditional_expr(src@, pos as int),
{
    match cond_eq(src, pos) {
        Step::NoMatch => {},
        r => {
            return r;
        },
    }
    match cond_noteq(src, pos) {
        Step::NoMatch => {},
        r => {
            return r;
        },
    }
    match cond_key(src, pos) {
        Step::NoMatch => {},
        r => {
            return r;
        },
    }
    cond_notkey(src, pos)
}

/// Recognises a `sprite` statement at `pos`.
pub fn sprite(src: &Source, pos: usize) -> (r: Step<OctoStatement>)
    ensures
        r@ == spec_sprite(src@, pos as int),
{
    reveal(spec_sprite);
    let at1: usize = match tag_no_case(src, pos, "sprite") {
        Some(p) => p,
        None => {
            return Step::NoMatch;
        },
    };
    let at2: usize = match whitespace(src, at1) {
        Some(p) => p,
        None => {
            return Step::NoMatch;
        },
    };
    let (x, at3) = match reg_or_symbol(src, at2) {
        Step::Match { value, next } => (value, next),
        Step::NoMatch => {
            return Step::NoMatch;
        },
        Step::Overflow { at } => {
            return Step::Overflow { at };
        },
    };
    let at4: usize = match whitespace(src, at3) {
        Some(p) => p,
        None => {
            return Step::NoMatch;
        },
    };
    let (y, at5) = match reg_or_symbol(src, at4) {
        Step::Match { value, next } => (value, next),
        Step::NoMatch => {
            return Step::NoMatch;
        },
        Step::Overflow { at } => {
            return Step::Overflow { at };
        },
    };
    let at6: usize = match whitespace(src, at5) {
        Some(p) => p,
        None => {
            return Step::NoMatch;
        },
    };
    match src_val(src, at6) {
        Step::Match { value, next } => Step::Match {
            value: OctoStatement::Sprite(x, y, value),
            next,
        },
        Step::NoMatch => Step::NoMatch,
        Step::Overflow { at } => Step::Overflow { at },
    }
}

/// Recognises `loop` at `pos`.
pub fn loopstmt(src: &Source, pos: usize) -> (r: Step<OctoStatement>)
    ensures
        r@ == spec_loopstmt(src@, pos as int),
{
    match tag_no_case(src, pos, "loop") {
        Some(next) => Step::Match { value: OctoStatement::Loop, next },
        None => Step::NoMatch,
    }
}

/// Recognises `again` at `pos`.
pub fn againstmt(src: &Source, pos: usize) -> (r: Step<OctoStatement>)
    ensures
        r@ == spec_againstmt(src@, pos as int),
{
    match tag_no_case(src, pos, "again") {
        Some(next) => Step::Match { value: OctoStatement::Again, next },
        None => Step::NoMatch,
    }
}

/// Recognises the end of a routine at `pos`.
pub fn returnstmt(src: &Source, pos: usize) -> (r: Step<OctoStatement>)
    ensures
        r@ == spec_returnstmt(src@, pos as int),
{
    match tag_no_case(src, pos, "again") {
        Some(next) => Step::Match { value: OctoStatement::Return, next },
        None => match tag(src, pos, ";") {
            Some(next) => Step::Match { value: OctoStatement::Return, next },
            None => Step::NoMatch,
        },
    }
}

/// Recognises an `if` guard at `pos`.
pub fn ifstmt(src: &Source, pos: usize) -> (r: Step<OctoStatement>)
    ensures
        r@ == spec_ifstmt(src@, pos as int),
{
    reveal(spec_ifstmt);
    let at1: usize = match tag_no_case(src, pos, "if") {
        Some(p) => p,
        None => {
            return Step::NoMatch;
        },
    };
    let at2: usize = match whitespace(src, at1) {
        Some(p) => p,
        None => {
            return Step::NoMatch;
        },
    };
    let (cond, at3) = match conditional_expr(src, at2) {
        Step::Match { value, next } => (value, next),
        Step::NoMatch => {
            return Step::NoMatch;
        },
        Step::Overflow { at } => {
            return Step::Overflow { at };
        },
    };
    let at4: usize = match whitespace(src, at3) {
        Some(p) => p,
        None => {
            return Step::NoMatch;
        },
    };
    match tag_no_case(src, at4, "then") {
        Some(next) => Step::Match { value: OctoStatement::If(cond), next },
        None => Step::NoMatch,
    }
}

/// Recognises a structured statement at `pos`.
pub fn statement(src: &Source, pos: usize) -> (r: Step<OctoStatement>)
    ensures
        r@ == spec_statement(src@, pos as int),
{
    match sprite(src, pos) {
        Step::NoMatch => {},
        r => {
            return r;
        },
    }
    match ifstmt(src, pos) {
        Step::NoMatch => {},
        r => {
            return r;
        },
    }
    match loopstmt(src, pos) {
        Step::NoMatch => {},
        r => {
            return r;
        },
    }
    match againstmt(src, pos) {
        Step::NoMatch => {},
        r => {
            return r;
        },
    }
    returnstmt(src, pos)
}

} // verus!
