//! Numerals: hexadecimal, binary, negative decimal and decimal.

use crate::chars::{
    after_tag, after_tag_no_case, has_tag, has_tag_no_case, is_decimal_digit, is_hex_digit,
    lemma_run_end_bounds, lemma_run_end_is, lemma_run_end_maximal, run_end, same_ignoring_case,
    scan, tag, tag_no_case, CharClass,
};
use crate::source::Source;
use crate::step::{SpecStep, Step};
use vstd::arithmetic::div_mod::{lemma_div_decreases, lemma_fundamental_div_mod, lemma_mod_bound};
use vstd::prelude::*;

verus! {

/// What a digit is worth. Letters count from ten, in either case.
pub open spec fn digit_value(c: char) -> int {
    if is_decimal_digit(c) {
        c as u32 - '0' as u32
    } else if 'a' <= c && c <= 'f' {
        c as u32 - 'a' as u32 + 10
    } else if 'A' <= c && c <= 'F' {
        c as u32 - 'A' as u32 + 10
    } else {
        0
    }
}

/// The number that the digits from `from` up to, not including, `to` write
/// in `base`, most significant digit first.
pub open spec fn digits_value(s: Seq<char>, from: int, to: int, base: int) -> int
    decreases to - from,
{
    if 0 <= from < to <= s.len() {
        digits_value(s, from, to - 1, base) * base + digit_value(s[to - 1])
    } else {
        0
    }
}

/// Digits never write a negative number, and more digits never write a
/// smaller one.
pub proof fn lemma_digits_value_grows(s: Seq<char>, from: int, mid: int, to: int, base: int)
    requires
        0 <= from <= mid <= to <= s.len(),
        base >= 1,
    ensures
        0 <= digits_value(s, from, mid, base) <= digits_value(s, from, to, base),
    decreases to - mid,
{
    if mid < to {
        lemma_digits_value_grows(s, from, mid, to - 1, base);
        let shorter = digits_value(s, from, to - 1, base);
        assert(shorter * base >= shorter) by (nonlinear_arith)
            requires
                shorter >= 0,
                base >= 1,
        ;
    } else {
        lemma_digits_value_nonnegative(s, from, mid, base);
    }
}

/// Digits never write a negative number.
proof fn lemma_digits_value_nonnegative(s: Seq<char>, from: int, to: int, base: int)
    requires
        base >= 1,
    ensures
        0 <= digits_value(s, from, to, base),
    decreases to - from,
{
    if 0 <= from < to <= s.len() {
        lemma_digits_value_nonnegative(s, from, to - 1, base);
        let shorter = digits_value(s, from, to - 1, base);
        assert(shorter * base >= 0) by (nonlinear_arith)
            requires
                shorter >= 0,
                base >= 1,
        ;
    }
}

/// `0x` or `0X`, then one or more hexadecimal digits.
pub open spec fn spec_hex_val(s: Seq<char>, pos: int) -> SpecStep<isize> {
    match after_tag_no_case(s, pos, "0x"@) {
        Some(digits) => spec_magnitude(s, pos, digits, CharClass::Hex, 16),
        None => SpecStep::NoMatch,
    }
}

/// `0b` or `0B`, then one or more binary digits.
pub open spec fn spec_bin_val(s: Seq<char>, pos: int) -> SpecStep<isize> {
    match after_tag_no_case(s, pos, "0b"@) {
        Some(digits) => spec_magnitude(s, pos, digits, CharClass::Binary, 2),
        None => SpecStep::NoMatch,
    }
}

/// `-`, then one or more decimal digits: the negated number.
pub open spec fn spec_neg_val(s: Seq<char>, pos: int) -> SpecStep<isize> {
    match after_tag(s, pos, "-"@) {
        Some(digits) => {
            let end = run_end(s, digits, CharClass::Decimal);
            let value = -digits_value(s, digits, end, 10);
            if end <= digits {
                SpecStep::NoMatch
            } else if value < isize::MIN {
                SpecStep::Overflow { at: pos }
            } else {
                SpecStep::Match { value: value as isize, next: end }
            }
        },
        None => SpecStep::NoMatch,
    }
}

/// One or more decimal digits.
pub open spec fn spec_dec_val(s: Seq<char>, pos: int) -> SpecStep<isize> {
    spec_magnitude(s, pos, pos, CharClass::Decimal, 10)
}

/// The run of digits of `class` at `digits`, read in `base`, as a numeral
/// that starts at `start`.
pub open spec fn spec_magnitude(
    s: Seq<char>,
    start: int,
    digits: int,
    class: CharClass,
    base: int,
) -> SpecStep<isize> {
    let end = run_end(s, digits, class);
    let value = digits_value(s, digits, end, base);
    if end <= digits {
        SpecStep::NoMatch
    } else if value > isize::MAX {
        SpecStep::Overflow { at: start }
    } else {
        SpecStep::Match { value: value as isize, next: end }
    }
}

/// A numeral. The prefixed forms come first: taken as decimal, `0x1F` would
/// end after its `0`.
pub open spec fn spec_val(s: Seq<char>, pos: int) -> SpecStep<isize> {
    spec_hex_val(s, pos).or(spec_bin_val(s, pos)).or(spec_neg_val(s, pos)).or(
        spec_dec_val(s, pos),
    )
}

/// A numeral holds at least one character and ends inside the input; one
/// out of range is reported where it starts.
pub proof fn lemma_val_advances(s: Seq<char>, pos: int)
    requires
        0 <= pos,
    ensures
        spec_val(s, pos).advances(s, pos),
        spec_val(s, pos) matches SpecStep::Overflow { at } ==> at == pos,
{
    reveal_strlit("0x");
    reveal_strlit("0b");
    reveal_strlit("-");
    lemma_run_end_bounds(s, pos, CharClass::Decimal);
    lemma_run_end_bounds(s, pos + 1, CharClass::Decimal);
    lemma_run_end_bounds(s, pos + 2, CharClass::Hex);
    lemma_run_end_bounds(s, pos + 2, CharClass::Binary);
}

/// The digit that is worth `d`, in lower case.
pub open spec fn digit_char(d: int) -> char {
    if d < 10 {
        (d + 48) as u8 as char
    } else {
        (d + 87) as u8 as char
    }
}

/// The digits that write `n` in `base`, most significant first, without
/// leading zeros.
pub open spec fn render_digits(n: nat, base: int) -> Seq<char>
    decreases n,
{
    if base < 2 || n < base {
        seq![digit_char(n as int)]
    } else {
        proof {
            lemma_div_decreases(n as int, base);
        }
        render_digits(n / (base as nat), base).push(digit_char(n as int % base))
    }
}

/// `v` as a hexadecimal numeral.
pub open spec fn render_hex(v: nat) -> Seq<char> {
    seq!['0', 'x'] + render_digits(v, 16)
}

/// `v` as a binary numeral.
pub open spec fn render_bin(v: nat) -> Seq<char> {
    seq!['0', 'b'] + render_digits(v, 2)
}

/// `v` as a decimal numeral, with `-` before it where it is negative.
pub open spec fn render_dec(v: int) -> Seq<char> {
    if v < 0 {
        seq!['-'] + render_digits((-v) as nat, 10)
    } else {
        render_digits(v as nat, 10)
    }
}

/// The class of the digits of `base`.
pub open spec fn digits_of_base(base: int) -> CharClass {
    if base == 2 {
        CharClass::Binary
    } else if base == 10 {
        CharClass::Decimal
    } else {
        CharClass::Hex
    }
}

/// What digits write depends on the digits alone, not on where they
/// stand.
proof fn lemma_digits_value_moved(
    a: Seq<char>,
    from_a: int,
    b: Seq<char>,
    from_b: int,
    len: int,
    base: int,
)
    requires
        0 <= from_a,
        0 <= from_b,
        0 <= len,
        from_a + len <= a.len(),
        from_b + len <= b.len(),
        a.subrange(from_a, from_a + len) == b.subrange(from_b, from_b + len),
    ensures
        digits_value(a, from_a, from_a + len, base) == digits_value(b, from_b, from_b + len, base),
    decreases len,
{
    if len > 0 {
        let in_a = a.subrange(from_a, from_a + len);
        let in_b = b.subrange(from_b, from_b + len);
        assert(a.subrange(from_a, from_a + len - 1) =~= in_a.take(len - 1));
        assert(b.subrange(from_b, from_b + len - 1) =~= in_b.take(len - 1));
        lemma_digits_value_moved(a, from_a, b, from_b, len - 1, base);
        assert(a[from_a + len - 1] == in_a[len - 1]);
        assert(b[from_b + len - 1] == in_b[len - 1]);
    }
}

/// The digits rendered for `n` are digits of the base and write `n`.
proof fn lemma_render_digits(n: nat, base: int)
    requires
        base == 2 || base == 10 || base == 16,
    ensures
        render_digits(n, base).len() >= 1,
        forall|i: int|
            0 <= i < render_digits(n, base).len() ==> digits_of_base(base).contains(
                #[trigger] render_digits(n, base)[i],
            ),
        digits_value(render_digits(n, base), 0, render_digits(n, base).len() as int, base)
            == n,
    decreases n,
{
    let digits = render_digits(n, base);
    if n < base {
        assert(digits_value(digits, 0, 0, base) == 0);
        assert(digits_value(digits, 0, 1, base) == digits_value(digits, 0, 0, base) * base
            + digit_value(digits[0]));
    } else {
        let high = n / (base as nat);
        let low = n as int % base;
        lemma_div_decreases(n as int, base);
        lemma_fundamental_div_mod(n as int, base);
        lemma_mod_bound(n as int, base);
        lemma_render_digits(high, base);
        let shorter = render_digits(high, base);
        assert(digits == shorter.push(digit_char(low)));
        assert(digits.subrange(0, shorter.len() as int) =~= shorter.subrange(
            0,
            shorter.len() as int,
        ));
        lemma_digits_value_moved(digits, 0, shorter, 0, shorter.len() as int, base);
        assert(digit_value(digit_char(low)) == low);
        assert(digits_value(digits, 0, digits.len() as int, base) == digits_value(
            digits,
            0,
            digits.len() - 1,
            base,
        ) * base + digit_value(digits[digits.len() - 1]));
        assert(high * base == base * high) by (nonlinear_arith);
        assert forall|i: int| 0 <= i < digits.len() implies digits_of_base(base).contains(
            #[trigger] digits[i],
        ) by {
            if i < shorter.len() {
                assert(digits[i] == shorter[i]);
            }
        }
    }
}

/// Rendered digits that follow `prefix` are read as one run that writes
/// `n`.
proof fn lemma_rendered_run(prefix: Seq<char>, n: nat, base: int)
    requires
        base == 2 || base == 10 || base == 16,
    ensures
        ({
            let s = prefix + render_digits(n, base);
            let from = prefix.len() as int;
            &&& run_end(s, from, digits_of_base(base)) == s.len()
            &&& s.len() > from
            &&& digits_value(s, from, s.len() as int, base) == n
        }),
{
    let digits = render_digits(n, base);
    let s = prefix + digits;
    let from = prefix.len() as int;
    lemma_render_digits(n, base);
    assert forall|i: int| from <= i < s.len() implies digits_of_base(base).contains(
        #[trigger] s[i],
    ) by {
        assert(s[i] == digits[i - from]);
    }
    lemma_run_end_is(s, from, s.len() as int, digits_of_base(base));
    assert(s.subrange(from, from + digits.len()) =~= digits.subrange(0, digits.len() as int));
    lemma_digits_value_moved(s, from, digits, 0, digits.len() as int, base);
}

/// Every value that a hexadecimal numeral can have is read back from its
/// rendering in base sixteen.
pub proof fn lemma_hex_round_trip(v: nat)
    requires
        v <= isize::MAX,
    ensures
        spec_val(render_hex(v), 0) == (SpecStep::Match {
            value: v as isize,
            next: render_hex(v).len() as int,
        }),
{
    reveal_strlit("0x");
    lemma_rendered_run(seq!['0', 'x'], v, 16);
    let s = render_hex(v);
    assert(s[0] == '0' && s[1] == 'x');
    assert(has_tag_no_case(s, 0, "0x"@));
}

/// Every value that a binary numeral can have is read back from its
/// rendering in base two.
pub proof fn lemma_bin_round_trip(v: nat)
    requires
        v <= isize::MAX,
    ensures
        spec_val(render_bin(v), 0) == (SpecStep::Match {
            value: v as isize,
            next: render_bin(v).len() as int,
        }),
{
    reveal_strlit("0x");
    reveal_strlit("0b");
    lemma_rendered_run(seq!['0', 'b'], v, 2);
    let s = render_bin(v);
    assert(s[0] == '0' && s[1] == 'b');
    assert(has_tag_no_case(s, 0, "0b"@));
    assert(!has_tag_no_case(s, 0, "0x"@)) by {
        if has_tag_no_case(s, 0, "0x"@) {
            assert(same_ignoring_case(s[0int + 1], "0x"@[1]));
        }
    }
}

/// Every value that a decimal numeral can have, negative or not, is read
/// back from its rendering in base ten.
pub proof fn lemma_dec_round_trip(v: int)
    requires
        isize::MIN <= v <= isize::MAX,
    ensures
        spec_val(render_dec(v), 0) == (SpecStep::Match {
            value: v as isize,
            next: render_dec(v).len() as int,
        }),
{
    reveal_strlit("0x");
    reveal_strlit("0b");
    reveal_strlit("-");
    let s = render_dec(v);
    if v < 0 {
        lemma_rendered_run(seq!['-'], (-v) as nat, 10);
        assert(s[0] == '-');
        assert(has_tag(s, 0, "-"@));
        assert(!has_tag_no_case(s, 0, "0x"@)) by {
            if has_tag_no_case(s, 0, "0x"@) {
                assert(same_ignoring_case(s[0int + 0], "0x"@[0]));
            }
        }
        assert(!has_tag_no_case(s, 0, "0b"@)) by {
            if has_tag_no_case(s, 0, "0b"@) {
                assert(same_ignoring_case(s[0int + 0], "0b"@[0]));
            }
        }
    } else {
        lemma_rendered_run(Seq::empty(), v as nat, 10);
        assert(Seq::<char>::empty() + render_digits(v as nat, 10) =~= s);
        lemma_render_digits(v as nat, 10);
        assert(!has_tag_no_case(s, 0, "0x"@)) by {
            if has_tag_no_case(s, 0, "0x"@) {
                assert(same_ignoring_case(s[0int + 1], "0x"@[1]));
                assert(CharClass::Decimal.contains(s[1]));
            }
        }
        assert(!has_tag_no_case(s, 0, "0b"@)) by {
            if has_tag_no_case(s, 0, "0b"@) {
                assert(same_ignoring_case(s[0int + 1], "0b"@[1]));
                assert(CharClass::Decimal.contains(s[1]));
            }
        }
        assert(!has_tag(s, 0, "-"@)) by {
            if has_tag(s, 0, "-"@) {
                assert(s[0int + 0] == "-"@[0]);
                assert(CharClass::Decimal.contains(s[0]));
            }
        }
    }
}

/// The rendering of what the numeral at `pos` was read as, in the base in
/// which the numeral is written.
pub open spec fn render_as_written(s: Seq<char>, pos: int) -> Seq<char> {
    match spec_val(s, pos) {
        SpecStep::Match { value, next: _ } => if spec_hex_val(s, pos) is Match {
            render_hex(value as nat)
        } else if spec_bin_val(s, pos) is Match {
            render_bin(value as nat)
        } else {
            render_dec(value as int)
        },
        _ => Seq::empty(),
    }
}

/// Reading a numeral and rendering it again in its own base keeps the
/// value.
///
/// Whatever form the numeral at `pos` has (hexadecimal, binary, negative
/// decimal or decimal), the rendering of its value in that base is a
/// numeral of the same value.
pub proof fn lemma_numeral_round_trip(s: Seq<char>, pos: int)
    requires
        spec_val(s, pos) is Match,
    ensures
        spec_val(render_as_written(s, pos), 0) == (SpecStep::Match {
            value: spec_val(s, pos)->Match_value,
            next: render_as_written(s, pos).len() as int,
        }),
{
    let value = spec_val(s, pos)->Match_value;
    if spec_hex_val(s, pos) is Match {
        reveal_strlit("0x");
        lemma_digits_value_nonnegative(s, pos + 2, spec_val(s, pos)->Match_next, 16);
        lemma_hex_round_trip(value as nat);
    } else if spec_bin_val(s, pos) is Match {
        reveal_strlit("0b");
        lemma_digits_value_nonnegative(s, pos + 2, spec_val(s, pos)->Match_next, 2);
        lemma_bin_round_trip(value as nat);
    } else {
        lemma_dec_round_trip(value as int);
    }
}

/// The worth of one digit.
fn digit_of(c: char) -> (d: isize)
    requires
        is_hex_digit(c),
    ensures
        d as int == digit_value(c),
        0 <= d < 16,
{
    let code: u32 = c as u32;
    if '0' <= c && c <= '9' {
        (code - 48) as isize
    } else if 'a' <= c && c <= 'f' {
        (code - 87) as isize
    } else {
        (code - 55) as isize
    }
}

/// Reads the digits from `from` to `to` in `base`, negated where
/// `negative`; `None` where the number lies outside the range of `isize`.
fn read_digits(src: &Source, from: usize, to: usize, base: isize, negative: bool) -> (r: Option<
    isize,
>)
    requires
        from <= to <= src@.len(),
        forall|i: int| from <= i < to ==> is_hex_digit(#[trigger] src@[i]),
        2 <= base <= 16,
    ensures
        match r {
            Some(v) => v as int == signed(
                negative,
                digits_value(src@, from as int, to as int, base as int),
            ),
            None => {
                let v = signed(negative, digits_value(src@, from as int, to as int, base as int));
                v < isize::MIN || v > isize::MAX
            },
        },
{
    let mut acc: isize = 0;
    let mut i: usize = from;
    while i < to
        invariant
            from <= i <= to <= src@.len(),
            forall|j: int| from <= j < to ==> is_hex_digit(#[trigger] src@[j]),
            2 <= base <= 16,
            acc as int == signed(negative, digits_value(src@, from as int, i as int, base as int)),
        decreases to - i,
    {
        let d: isize = digit_of(src.char_at(i));
        let ghost shorter = digits_value(src@, from as int, i as int, base as int);
        let ghost longer = digits_value(src@, from as int, i + 1, base as int);
        proof {
            lemma_digits_value_grows(src@, from as int, i as int, i + 1, base as int);
            lemma_digits_value_grows(src@, from as int, i + 1, to as int, base as int);
            assert(longer == shorter * base + d);
            assert(acc * base == signed(negative, shorter * base)) by (nonlinear_arith)
                requires
                    acc == signed(negative, shorter),
            ;
        }
        let scaled: isize = match acc.checked_mul(base) {
            Some(x) => x,
            None => {
                return None;
            },
        };
        let step: Option<isize> = if negative {
            scaled.checked_sub(d)
        } else {
            scaled.checked_add(d)
        };
        acc =
        match step {
            Some(x) => x,
            None => {
                return None;
            },
        };
        i += 1;
    }
    Some(acc)
}

/// `v`, or `-v` where `negative`.
pub open spec fn signed(negative: bool, v: int) -> int {
    if negative {
        -v
    } else {
        v
    }
}

/// Reads the run of digits of `class` at `digits` as a numeral that starts
/// at `start`.
fn magnitude(src: &Source, start: usize, digits: usize, class: CharClass, base: isize) -> (r: Step<
    isize,
>)
    requires
        class == CharClass::Hex && base == 16 || class == CharClass::Binary && base == 2 || class
            == CharClass::Decimal && base == 10,
    ensures
        r@ == spec_magnitude(src@, start as int, digits as int, class, base as int),
{
    let end: usize = scan(src, digits, class);
    if end <= digits {
        return Step::NoMatch;
    }
    proof {
        lemma_run_end_bounds(src@, digits as int, class);
        lemma_run_end_maximal(src@, digits as int, class);
    }
    match read_digits(src, digits, end, base, false) {
        Some(value) => Step::Match { value, next: end },
        None => {
            proof {
                lemma_digits_value_grows(
                    src@,
                    digits as int,
                    digits as int,
                    end as int,
                    base as int,
                );
            }
            Step::Overflow { at: start }
        },
    }
}

/// Recognises a hexadecimal numeral at `pos`.
pub fn hex_val(src: &Source, pos: usize) -> (r: Step<isize>)
    ensures
        r@ == spec_hex_val(src@, pos as int),
{
    match tag_no_case(src, pos, "0x") {
        Some(digits) => magnitude(src, pos, digits, CharClass::Hex, 16),
        None => Step::NoMatch,
    }
}

/// Recognises a binary numeral at `pos`.
pub fn bin_val(src: &Source, pos: usize) -> (r: Step<isize>)
    ensures
        r@ == spec_bin_val(src@, pos as int),
{
    match tag_no_case(src, pos, "0b") {
        Some(digits) => magnitude(src, pos, digits, CharClass::Binary, 2),
        None => Step::NoMatch,
    }
}

/// Recognises a negative decimal numeral at `pos`.
pub fn neg_val(src: &Source, pos: usize) -> (r: Step<isize>)
    ensures
        r@ == spec_neg_val(src@, pos as int),
{
    match tag(src, pos, "-") {
        Some(digits) => {
            let end: usize = scan(src, digits, CharClass::Decimal);
            if end <= digits {
                return Step::NoMatch;
            }
            proof {
                lemma_run_end_bounds(src@, digits as int, CharClass::Decimal);
                lemma_run_end_maximal(src@, digits as int, CharClass::Decimal);
            }
            match read_digits(src, digits, end, 10, true) {
                Some(value) => Step::Match { value, next: end },
                None => {
                    proof {
                        lemma_digits_value_grows(
                            src@,
                            digits as int,
                            digits as int,
                            end as int,
                            10,
                        );
                    }
                    Step::Overflow { at: pos }
                },
            }
        },
        None => Step::NoMatch,
    }
}

/// Recognises a decimal numeral at `pos`.
pub fn dec_val(src: &Source, pos: usize) -> (r: Step<isize>)
    ensures
        r@ == spec_dec_val(src@, pos as int),
{
    magnitude(src, pos, pos, CharClass::Decimal, 10)
}

/// Recognises a numeral at `pos`, in any of the four forms.
pub fn val(src: &Source, pos: usize) -> (r: Step<isize>)
    ensures
        r@ == spec_val(src@, pos as int),
{
    match hex_val(src, pos) {
        Step::NoMatch => {},
        r => {
            return r;
        },
    }
    match bin_val(src, pos) {
        Step::NoMatch => {},
        r => {
            return r;
        },
    }
    match neg_val(src, pos) {
        Step::NoMatch => {},
        r => {
            return r;
        },
    }
    dec_val(src, pos)
}

} // verus!
