use octo_parser::operand::{
    dest_i, dest_reg, dest_symbol, lhs, reg_num, reg_or_symbol, rhs, src_random, src_symbol,
    src_val, val_or_symbol,
};
use octo_parser::{Dest, OctoDest, OctoSrc, Source, Src, Step};

#[test]
fn registers_are_one_hexadecimal_digit() {
    let digits = "0123456789abcdef";
    for (index, d) in digits.chars().enumerate() {
        let lower = format!("v{}", d);
        let upper = format!("V{}", d.to_ascii_uppercase());
        assert_eq!(reg_num(&Source::new(&lower), 0), Step::Match { value: index, next: 2 });
        assert_eq!(reg_num(&Source::new(&upper), 0), Step::Match { value: index, next: 2 });
    }
    assert_eq!(reg_num(&Source::new("v"), 0), Step::NoMatch);
    assert_eq!(reg_num(&Source::new("vg"), 0), Step::NoMatch);
    assert_eq!(reg_num(&Source::new("x3"), 0), Step::NoMatch);
    assert_eq!(reg_num(&Source::new("v 3"), 0), Step::NoMatch);
    assert_eq!(reg_num(&Source::new("v10"), 0), Step::Match { value: 1, next: 2 });
}

#[test]
fn register_operands() {
    assert_eq!(
        dest_reg(&Source::new("vF := 1"), 0),
        Step::Match { value: OctoDest::Chip8(Dest::Register(15)), next: 2 }
    );
    assert_eq!(dest_reg(&Source::new("px"), 0), Step::NoMatch);
}

#[test]
fn the_index_register() {
    assert_eq!(
        dest_i(&Source::new("i := 3"), 0),
        Step::Match { value: OctoDest::Chip8(Dest::I), next: 1 }
    );
    assert_eq!(
        dest_i(&Source::new("I"), 0),
        Step::Match { value: OctoDest::Chip8(Dest::I), next: 1 }
    );
    assert_eq!(dest_i(&Source::new("j"), 0), Step::NoMatch);
}

#[test]
fn destinations_try_register_then_index_then_name() {
    assert_eq!(
        lhs(&Source::new("v3"), 0),
        Step::Match { value: OctoDest::Chip8(Dest::Register(3)), next: 2 }
    );
    assert_eq!(lhs(&Source::new("i"), 0), Step::Match { value: OctoDest::Chip8(Dest::I), next: 1 });
    assert_eq!(
        lhs(&Source::new("px := 1"), 0),
        Step::Match { value: OctoDest::Symbol("px".to_string()), next: 2 }
    );
    assert_eq!(
        lhs(&Source::new("delay"), 0),
        Step::Match { value: OctoDest::Symbol("delay".to_string()), next: 5 }
    );
    assert_eq!(
        lhs(&Source::new("index"), 0),
        Step::Match { value: OctoDest::Chip8(Dest::I), next: 1 }
    );
    assert_eq!(
        lhs(&Source::new("value"), 0),
        Step::Match { value: OctoDest::Chip8(Dest::Register(10)), next: 2 }
    );
    assert_eq!(
        lhs(&Source::new("vx"), 0),
        Step::Match { value: OctoDest::Symbol("vx".to_string()), next: 2 }
    );
    assert_eq!(lhs(&Source::new("5"), 0), Step::NoMatch);
    assert_eq!(lhs(&Source::new(":="), 0), Step::NoMatch);
    assert_eq!(
        dest_symbol(&Source::new("v3"), 0),
        Step::Match { value: OctoDest::Symbol("v".to_string()), next: 1 }
    );
}

#[test]
fn sources_try_register_then_numeral_then_random_then_name() {
    assert_eq!(
        rhs(&Source::new("v3"), 0),
        Step::Match { value: OctoSrc::Chip8(Src::Register(3)), next: 2 }
    );
    assert_eq!(
        rhs(&Source::new("0x1F"), 0),
        Step::Match { value: OctoSrc::Chip8(Src::Const(31)), next: 4 }
    );
    assert_eq!(
        rhs(&Source::new("-1 # w"), 0),
        Step::Match { value: OctoSrc::Chip8(Src::Const(-1)), next: 2 }
    );
    assert_eq!(
        rhs(&Source::new("random 0b0011111"), 0),
        Step::Match { value: OctoSrc::Chip8(Src::Random), next: 16 }
    );
    assert_eq!(
        rhs(&Source::new("person\n"), 0),
        Step::Match { value: OctoSrc::Symbol("person".to_string()), next: 6 }
    );
    assert_eq!(
        rhs(&Source::new("-key"), 0),
        Step::Match { value: OctoSrc::Symbol("-key".to_string()), next: 4 }
    );
    assert_eq!(rhs(&Source::new(":="), 0), Step::NoMatch);
    assert_eq!(rhs(&Source::new(""), 0), Step::NoMatch);
}

#[test]
fn random_needs_a_gap_and_a_mask() {
    assert_eq!(
        src_random(&Source::new("RANDOM 7"), 0),
        Step::Match { value: OctoSrc::Chip8(Src::Random), next: 8 }
    );
    assert_eq!(
        src_random(&Source::new("random \n\t 0xFF rest"), 0),
        Step::Match { value: OctoSrc::Chip8(Src::Random), next: 14 }
    );
    assert_eq!(src_random(&Source::new("random"), 0), Step::NoMatch);
    assert_eq!(src_random(&Source::new("random7"), 0), Step::NoMatch);
    assert_eq!(src_random(&Source::new("random x"), 0), Step::NoMatch);
    assert_eq!(src_random(&Source::new("rando 7"), 0), Step::NoMatch);
    assert_eq!(
        rhs(&Source::new("random x"), 0),
        Step::Match { value: OctoSrc::Symbol("random".to_string()), next: 6 }
    );
}

#[test]
fn a_mask_out_of_range_is_reported_where_it_starts() {
    assert_eq!(
        src_random(&Source::new("random  99999999999999999999999999"), 0),
        Step::Overflow { at: 8 }
    );
    assert_eq!(
        rhs(&Source::new("random  99999999999999999999999999"), 0),
        Step::Overflow { at: 8 }
    );
    assert_eq!(rhs(&Source::new("99999999999999999999999999"), 0), Step::Overflow { at: 0 });
    assert_eq!(src_val(&Source::new("x 0xFFFFFFFFFFFFFFFFFFFFFFFF"), 2), Step::Overflow { at: 2 });
}

#[test]
fn the_narrower_operands() {
    assert_eq!(
        reg_or_symbol(&Source::new("vA"), 0),
        Step::Match { value: OctoSrc::Chip8(Src::Register(10)), next: 2 }
    );
    assert_eq!(
        reg_or_symbol(&Source::new("px"), 0),
        Step::Match { value: OctoSrc::Symbol("px".to_string()), next: 2 }
    );
    assert_eq!(reg_or_symbol(&Source::new("8"), 0), Step::NoMatch);
    assert_eq!(
        val_or_symbol(&Source::new("8"), 0),
        Step::Match { value: OctoSrc::Chip8(Src::Const(8)), next: 1 }
    );
    assert_eq!(
        val_or_symbol(&Source::new("v1"), 0),
        Step::Match { value: OctoSrc::Symbol("v".to_string()), next: 1 }
    );
    assert_eq!(
        src_symbol(&Source::new("a b"), 2),
        Step::Match { value: OctoSrc::Symbol("b".to_string()), next: 3 }
    );
}
