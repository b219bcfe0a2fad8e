use octo_parser::statement::{
    againstmt, assignment, assignment_with, comparison, cond_eq, cond_key, cond_noteq,
    cond_notkey, conditional_expr, ifstmt, key_test, loopstmt, returnstmt, sprite, statement,
    AssignOp,
};
use octo_parser::{
    Dest, OctoAssignment, OctoConditionalExpr, OctoDest, OctoSrc, OctoStatement, Source, Src, Step,
};

fn reg(r: usize) -> OctoSrc {
    OctoSrc::Chip8(Src::Register(r))
}

fn num(v: isize) -> OctoSrc {
    OctoSrc::Chip8(Src::Const(v))
}

fn name(s: &str) -> OctoSrc {
    OctoSrc::Symbol(s.to_string())
}

fn dreg(r: usize) -> OctoDest {
    OctoDest::Chip8(Dest::Register(r))
}

#[test]
fn every_operator_makes_its_assignment() {
    let cases: [(&str, OctoAssignment); 8] = [
        ("v1 := v2", OctoAssignment::Store(dreg(1), reg(2))),
        ("v1 += v2", OctoAssignment::Add(dreg(1), reg(2))),
        ("v1 -= v2", OctoAssignment::Sub(dreg(1), reg(2))),
        ("v1 |= v2", OctoAssignment::Or(dreg(1), reg(2))),
        ("v1 &= v2", OctoAssignment::And(dreg(1), reg(2))),
        ("v1 ^= v2", OctoAssignment::Xor(dreg(1), reg(2))),
        ("v1 >>= v2", OctoAssignment::Shr(dreg(1), reg(2))),
        ("v1 <<= v2", OctoAssignment::Shl(dreg(1), reg(2))),
    ];
    for (text, expected) in cases {
        assert_eq!(
            assignment(&Source::new(text), 0),
            Step::Match { value: expected, next: text.len() }
        );
    }
}

#[test]
fn operators_and_their_tokens() {
    let ops = [
        (AssignOp::Store, ":="),
        (AssignOp::Add, "+="),
        (AssignOp::And, "&="),
        (AssignOp::Or, "|="),
        (AssignOp::Sub, "-="),
        (AssignOp::Xor, "^="),
        (AssignOp::Shr, ">>="),
        (AssignOp::Shl, "<<="),
    ];
    for (op, token) in ops {
        assert_eq!(op.token(), token);
        let text = format!("i {} 7", token);
        let got = assignment_with(&Source::new(&text), 0, op);
        assert_eq!(got, Step::Match { value: op.build(OctoDest::Chip8(Dest::I), num(7)), next: text.len() });
        for (other, _) in ops {
            if other != op {
                assert_eq!(assignment_with(&Source::new(&text), 0, other), Step::NoMatch);
            }
        }
    }
    assert_eq!(
        AssignOp::Sub.build(dreg(0), num(1)),
        OctoAssignment::Sub(dreg(0), num(1))
    );
}

#[test]
fn assignments_of_the_demos() {
    assert_eq!(
        assignment(&Source::new("px := random 0b0011111\n"), 0),
        Step::Match {
            value: OctoAssignment::Store(
                OctoDest::Symbol("px".to_string()),
                OctoSrc::Chip8(Src::Random)
            ),
            next: 22
        }
    );
    assert_eq!(
        assignment(&Source::new("i  := person"), 0),
        Step::Match { value: OctoAssignment::Store(OctoDest::Chip8(Dest::I), name("person")), next: 12 }
    );
    assert_eq!(
        assignment(&Source::new("py += -1 # keyboard W"), 0),
        Step::Match {
            value: OctoAssignment::Add(OctoDest::Symbol("py".to_string()), num(-1)),
            next: 8
        }
    );
    assert_eq!(
        assignment(&Source::new("va :=     24 # left x"), 0),
        Step::Match { value: OctoAssignment::Store(dreg(10), num(24)), next: 12 }
    );
    assert_eq!(
        assignment(&Source::new("v9 &= v8"), 0),
        Step::Match { value: OctoAssignment::And(dreg(9), reg(8)), next: 8 }
    );
    assert_eq!(
        assignment(&Source::new("delay := vF"), 0),
        Step::Match {
            value: OctoAssignment::Store(OctoDest::Symbol("delay".to_string()), reg(15)),
            next: 11
        }
    );
}

#[test]
fn what_is_no_assignment() {
    assert_eq!(assignment(&Source::new("v0 :=5"), 0), Step::NoMatch);
    assert_eq!(assignment(&Source::new("v0:= 5"), 0), Step::NoMatch);
    assert_eq!(assignment(&Source::new("v0 := "), 0), Step::NoMatch);
    assert_eq!(assignment(&Source::new("v0 :=\n5"), 0), Step::NoMatch);
    assert_eq!(assignment(&Source::new("v0 = 5"), 0), Step::NoMatch);
    assert_eq!(assignment(&Source::new("v0 =- 5"), 0), Step::NoMatch);
    assert_eq!(assignment(&Source::new("5 := v0"), 0), Step::NoMatch);
    assert_eq!(assignment(&Source::new("sprite v0 v1 4"), 0), Step::NoMatch);
    assert_eq!(assignment(&Source::new("value := 5"), 0), Step::NoMatch);
    assert_eq!(assignment(&Source::new("index := 5"), 0), Step::NoMatch);
    assert_eq!(assignment(&Source::new(""), 0), Step::NoMatch);
}

#[test]
fn an_assigned_numeral_out_of_range_is_reported() {
    assert_eq!(
        assignment(&Source::new("v0 += 99999999999999999999999999"), 0),
        Step::Overflow { at: 6 }
    );
    assert_eq!(
        assignment(&Source::new("v0 ^= random 0xFFFFFFFFFFFFFFFFFFFFFFFFF"), 0),
        Step::Overflow { at: 13 }
    );
}

#[test]
fn comparisons() {
    assert_eq!(
        cond_eq(&Source::new("v0 == 5"), 0),
        Step::Match { value: OctoConditionalExpr::CondEq(reg(0), num(5)), next: 7 }
    );
    assert_eq!(
        cond_noteq(&Source::new("vf != 0 then"), 0),
        Step::Match { value: OctoConditionalExpr::CondNotEq(reg(15), num(0)), next: 7 }
    );
    assert_eq!(
        cond_eq(&Source::new("px  ==\tlimit"), 0),
        Step::Match { value: OctoConditionalExpr::CondEq(name("px"), name("limit")), next: 12 }
    );
    assert_eq!(cond_eq(&Source::new("v0 != 5"), 0), Step::NoMatch);
    assert_eq!(cond_noteq(&Source::new("v0 == 5"), 0), Step::NoMatch);
    assert_eq!(cond_eq(&Source::new("5 == v0"), 0), Step::NoMatch);
    assert_eq!(cond_eq(&Source::new("v0==5"), 0), Step::NoMatch);
    assert_eq!(
        comparison(&Source::new("a < 3"), 0, "<"),
        Step::Match { value: (name("a"), num(3)), next: 5 }
    );
    assert_eq!(
        cond_eq(&Source::new("v0 == 99999999999999999999999999"), 0),
        Step::Overflow { at: 6 }
    );
}

#[test]
fn key_tests() {
    assert_eq!(
        cond_key(&Source::new("v0 key then"), 0),
        Step::Match { value: OctoConditionalExpr::CondKey(reg(0)), next: 6 }
    );
    assert_eq!(
        cond_key(&Source::new("v0 KEY"), 0),
        Step::Match { value: OctoConditionalExpr::CondKey(reg(0)), next: 6 }
    );
    assert_eq!(
        cond_notkey(&Source::new("v0 -key"), 0),
        Step::Match { value: OctoConditionalExpr::CondNotKey(reg(0)), next: 7 }
    );
    assert_eq!(cond_key(&Source::new("v0 -key"), 0), Step::NoMatch);
    assert_eq!(cond_notkey(&Source::new("v0 key"), 0), Step::NoMatch);
    assert_eq!(cond_key(&Source::new("v0key"), 0), Step::NoMatch);
    assert_eq!(key_test(&Source::new("up pressed"), 0, "PRESSED"), Step::Match { value: name("up"), next: 10 });
}

#[test]
fn a_register_and_minus_key_is_key_not_pressed() {
    let digits = "0123456789abcdefABCDEF";
    for d in digits.chars() {
        let index = d.to_digit(16).unwrap() as usize;
        for v in ['v', 'V'] {
            for gap in [" ", "\t", "  \r "] {
                for word in ["-key", "-KEY", "-Key"] {
                    let text = format!("{}{}{}{} then", v, d, gap, word);
                    assert_eq!(
                        conditional_expr(&Source::new(&text), 0),
                        Step::Match {
                            value: OctoConditionalExpr::CondNotKey(reg(index)),
                            next: 2 + gap.len() + 4
                        }
                    );
                }
            }
        }
    }
}

#[test]
fn conditions_in_their_order() {
    assert_eq!(
        conditional_expr(&Source::new("v1 == -1"), 0),
        Step::Match { value: OctoConditionalExpr::CondEq(reg(1), num(-1)), next: 8 }
    );
    assert_eq!(
        conditional_expr(&Source::new("v1 != 0x10"), 0),
        Step::Match { value: OctoConditionalExpr::CondNotEq(reg(1), num(16)), next: 10 }
    );
    assert_eq!(
        conditional_expr(&Source::new("v1 key"), 0),
        Step::Match { value: OctoConditionalExpr::CondKey(reg(1)), next: 6 }
    );
    assert_eq!(
        conditional_expr(&Source::new("fire -key"), 0),
        Step::Match { value: OctoConditionalExpr::CondNotKey(name("fire")), next: 9 }
    );
    assert_eq!(conditional_expr(&Source::new("v1 < 3"), 0), Step::NoMatch);
    assert_eq!(conditional_expr(&Source::new("v1"), 0), Step::NoMatch);
}

#[test]
fn sprites() {
    assert_eq!(
        sprite(&Source::new("sprite v3 v4 8\n"), 0),
        Step::Match { value: OctoStatement::Sprite(reg(3), reg(4), num(8)), next: 14 }
    );
    assert_eq!(
        sprite(&Source::new("SPRITE px py 0xF"), 0),
        Step::Match { value: OctoStatement::Sprite(name("px"), name("py"), num(15)), next: 16 }
    );
    assert_eq!(
        sprite(&Source::new("sprite va vc 15"), 0),
        Step::Match { value: OctoStatement::Sprite(reg(10), reg(12), num(15)), next: 15 }
    );
    assert_eq!(sprite(&Source::new("sprite v3 v4 v5"), 0), Step::NoMatch);
    assert_eq!(sprite(&Source::new("sprite v3 v4"), 0), Step::NoMatch);
    assert_eq!(sprite(&Source::new("sprite 3 4 5"), 0), Step::NoMatch);
    assert_eq!(sprite(&Source::new("spritev3 v4 5"), 0), Step::NoMatch);
    assert_eq!(sprite(&Source::new("sprite v3\nv4 5"), 0), Step::NoMatch);
    assert_eq!(
        sprite(&Source::new("sprite v3 v4 99999999999999999999999999"), 0),
        Step::Overflow { at: 13 }
    );
}

#[test]
fn loop_again_and_the_end_of_a_routine() {
    assert_eq!(
        loopstmt(&Source::new("loop"), 0),
        Step::Match { value: OctoStatement::Loop, next: 4 }
    );
    assert_eq!(
        loopstmt(&Source::new("LoOp\n"), 0),
        Step::Match { value: OctoStatement::Loop, next: 4 }
    );
    assert_eq!(loopstmt(&Source::new("loo"), 0), Step::NoMatch);
    assert_eq!(
        againstmt(&Source::new("again"), 0),
        Step::Match { value: OctoStatement::Again, next: 5 }
    );
    assert_eq!(againstmt(&Source::new("gain"), 0), Step::NoMatch);
    assert_eq!(
        returnstmt(&Source::new(";"), 0),
        Step::Match { value: OctoStatement::Return, next: 1 }
    );
    assert_eq!(
        returnstmt(&Source::new("again"), 0),
        Step::Match { value: OctoStatement::Return, next: 5 }
    );
    assert_eq!(returnstmt(&Source::new("return"), 0), Step::NoMatch);
}

#[test]
fn if_guards() {
    assert_eq!(
        ifstmt(&Source::new("if v0 != 0 then\n"), 0),
        Step::Match {
            value: OctoStatement::If(OctoConditionalExpr::CondNotEq(reg(0), num(0))),
            next: 15
        }
    );
    assert_eq!(
        ifstmt(&Source::new("IF v0 key THEN py += -1"), 0),
        Step::Match { value: OctoStatement::If(OctoConditionalExpr::CondKey(reg(0))), next: 14 }
    );
    assert_eq!(
        ifstmt(&Source::new("if vA -key then"), 0),
        Step::Match {
            value: OctoStatement::If(OctoConditionalExpr::CondNotKey(reg(10))),
            next: 15
        }
    );
    assert_eq!(ifstmt(&Source::new("if v0 != 0"), 0), Step::NoMatch);
    assert_eq!(ifstmt(&Source::new("if v0 != 0 begin"), 0), Step::NoMatch);
    assert_eq!(ifstmt(&Source::new("ifv0 != 0 then"), 0), Step::NoMatch);
    assert_eq!(ifstmt(&Source::new("if v0 then"), 0), Step::NoMatch);
    assert_eq!(
        ifstmt(&Source::new("if v0 == 99999999999999999999999999 then"), 0),
        Step::Overflow { at: 9 }
    );
}

#[test]
fn statements_in_their_order() {
    assert_eq!(
        statement(&Source::new("again"), 0),
        Step::Match { value: OctoStatement::Again, next: 5 }
    );
    assert_eq!(
        statement(&Source::new("; x"), 0),
        Step::Match { value: OctoStatement::Return, next: 1 }
    );
    assert_eq!(
        statement(&Source::new("loop"), 0),
        Step::Match { value: OctoStatement::Loop, next: 4 }
    );
    assert_eq!(
        statement(&Source::new("sprite a b 1"), 0),
        Step::Match { value: OctoStatement::Sprite(name("a"), name("b"), num(1)), next: 12 }
    );
    assert_eq!(
        statement(&Source::new("if a key then"), 0),
        Step::Match { value: OctoStatement::If(OctoConditionalExpr::CondKey(name("a"))), next: 13 }
    );
    assert_eq!(statement(&Source::new("v0 := 1"), 0), Step::NoMatch);
    assert_eq!(statement(&Source::new("foo"), 0), Step::NoMatch);
}
