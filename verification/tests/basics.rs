use octo_parser::numeral::val;
use octo_parser::operand::src_reg;
use octo_parser::{
    parse, Context, Dest, OctoAssignment, OctoConditionalExpr, OctoDest, OctoError, OctoFragment,
    OctoParser, OctoSrc, OctoStatement, Source, Src, Step,
};

#[test]
fn test_register() {
    assert_eq!(
        src_reg(&Source::new("v8"), 0),
        Step::Match { value: OctoSrc::Chip8(Src::Register(8)), next: 2 }
    );
    assert_eq!(
        src_reg(&Source::new("V8"), 0),
        Step::Match { value: OctoSrc::Chip8(Src::Register(8)), next: 2 }
    );
}

#[test]
fn test_value() {
    assert_eq!(val(&Source::new("0x088"), 0), Step::Match { value: 0x88, next: 5 });
    assert_eq!(val(&Source::new("00"), 0), Step::Match { value: 0, next: 2 });
    assert_eq!(val(&Source::new("0"), 0), Step::Match { value: 0, next: 1 });
    assert_eq!(val(&Source::new("-45"), 0), Step::Match { value: -45, next: 3 });
    assert_eq!(val(&Source::new("12345"), 0), Step::Match { value: 12345, next: 5 });
    assert_eq!(val(&Source::new("0b0"), 0), Step::Match { value: 0, next: 3 });
    assert_eq!(val(&Source::new("0b1"), 0), Step::Match { value: 1, next: 3 });
    assert_eq!(val(&Source::new("0b0011"), 0), Step::Match { value: 3, next: 6 });
}

#[test]
fn label_definition() {
    assert_eq!(parse(": main\n"), Ok(vec![OctoFragment::Label(0, "main".to_string())]));
}

#[test]
fn alias_definition_fills_the_table() {
    let mut parser = OctoParser::new();
    let frags = parser.program(":alias px v3\n");
    assert_eq!(frags, Ok(vec![OctoFragment::Alias(0, 3, "px".to_string())]));
    assert_eq!(parser.reg_aliases.get("px"), Some(3));
    assert_eq!(parser.reg_aliases.get("py"), None);
    assert_eq!(parser.addr_symbols.get("alias"), None);
    assert_eq!(parser.line_count(), 1);
}

#[test]
fn store_assignment() {
    assert_eq!(
        parse("v0 := 5\n"),
        Ok(vec![OctoFragment::Statement(
            0,
            OctoStatement::Assignment(OctoAssignment::Store(
                OctoDest::Chip8(Dest::Register(0)),
                OctoSrc::Chip8(Src::Const(5))
            ))
        )])
    );
}

#[test]
fn sprite_statement() {
    assert_eq!(
        parse("sprite v3 v4 8\n"),
        Ok(vec![OctoFragment::Statement(
            0,
            OctoStatement::Sprite(
                OctoSrc::Chip8(Src::Register(3)),
                OctoSrc::Chip8(Src::Register(4)),
                OctoSrc::Chip8(Src::Const(8))
            )
        )])
    );
}

#[test]
fn if_not_equal_guard() {
    assert_eq!(
        parse("if v0 != 0 then\n"),
        Ok(vec![OctoFragment::Statement(
            0,
            OctoStatement::If(OctoConditionalExpr::CondNotEq(
                OctoSrc::Chip8(Src::Register(0)),
                OctoSrc::Chip8(Src::Const(0))
            ))
        )])
    );
}

#[test]
fn two_literals_are_two_fragments() {
    assert_eq!(
        parse("0x70 0x70\n"),
        Ok(vec![OctoFragment::Literal(0, 0x70), OctoFragment::Literal(0, 0x70)])
    );
}

#[test]
fn alias_without_register_is_a_syntax_error() {
    assert_eq!(
        parse(":alias px\n"),
        Err(OctoError::SyntaxError {
            line: 0,
            context: Context::Fragment,
            remaining: ":alias px\n".to_string()
        })
    );
}
