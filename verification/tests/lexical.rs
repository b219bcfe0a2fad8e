use octo_parser::chars::{eq_ignoring_case, newlines_between, scan, tag, tag_no_case, CharClass};
use octo_parser::lexical::{newline, run, symbol, trivia, whitespace, whitespace_or_newline};
use octo_parser::{Source, Step};

#[test]
fn source_counts_characters_not_bytes() {
    let src = Source::new("a\u{1049}b");
    assert_eq!(src.len(), 3);
    assert_eq!(src.char_at(0), 'a');
    assert_eq!(src.char_at(1), '\u{1049}');
    assert_eq!(src.char_at(2), 'b');
    assert_eq!(src.slice(1, 3), "\u{1049}b".to_string());
    assert_eq!(src.slice(2, 2), "".to_string());
    assert_eq!(Source::new("").len(), 0);
}

#[test]
fn character_classes() {
    for c in [' ', '\t', '\r'] {
        assert!(CharClass::Blank.has(c));
        assert!(CharClass::Trivia.has(c));
    }
    assert!(!CharClass::Blank.has('\n'));
    assert!(CharClass::Trivia.has('\n'));
    assert!(!CharClass::Trivia.has('a'));
    for c in ['a', 'z', 'A', 'Z', '_', '-'] {
        assert!(CharClass::Symbol.has(c));
    }
    for c in ['0', '9', ':', '=', ' ', '\u{e9}', '@', '[', '`', '{'] {
        assert!(!CharClass::Symbol.has(c));
    }
    for c in ['0', '9', 'a', 'f', 'A', 'F'] {
        assert!(CharClass::Hex.has(c));
    }
    for c in ['g', 'G', '/', ':', '@', '`'] {
        assert!(!CharClass::Hex.has(c));
    }
    assert!(CharClass::Decimal.has('0') && CharClass::Decimal.has('9'));
    assert!(!CharClass::Decimal.has('a') && !CharClass::Decimal.has('/'));
    assert!(CharClass::Binary.has('0') && CharClass::Binary.has('1'));
    assert!(!CharClass::Binary.has('2'));
    assert!(CharClass::CommentText.has('#') && CharClass::CommentText.has('\r'));
    assert!(!CharClass::CommentText.has('\n'));
}

#[test]
fn runs_are_as_long_as_they_can_be() {
    let src = Source::new("  \t\r\n x");
    assert_eq!(scan(&src, 0, CharClass::Blank), 4);
    assert_eq!(scan(&src, 0, CharClass::Trivia), 6);
    assert_eq!(scan(&src, 4, CharClass::Blank), 4);
    assert_eq!(scan(&src, 6, CharClass::Symbol), 7);
    assert_eq!(scan(&src, 7, CharClass::Symbol), 7);
    assert_eq!(scan(&src, 50, CharClass::Symbol), 50);
    assert_eq!(run(&src, 0, CharClass::Blank), Some(4));
    assert_eq!(run(&src, 4, CharClass::Blank), None);
}

#[test]
fn whitespace_stops_at_a_line_feed() {
    assert_eq!(whitespace(&Source::new(" \t\r\nx"), 0), Some(3));
    assert_eq!(whitespace(&Source::new("\n "), 0), None);
    assert_eq!(whitespace(&Source::new("x "), 0), None);
    assert_eq!(whitespace(&Source::new(""), 0), None);
    assert_eq!(whitespace(&Source::new("a  b"), 1), Some(3));
}

#[test]
fn newline_is_one_line_feed() {
    assert_eq!(newline(&Source::new("\n\n"), 0), Some(1));
    assert_eq!(newline(&Source::new("\r\n"), 0), None);
    assert_eq!(newline(&Source::new("\r\n"), 1), Some(2));
    assert_eq!(newline(&Source::new(""), 0), None);
    assert_eq!(newline(&Source::new("\n"), 1), None);
}

#[test]
fn whitespace_or_newline_takes_blanks_first() {
    assert_eq!(whitespace_or_newline(&Source::new("  \n"), 0), Some(2));
    assert_eq!(whitespace_or_newline(&Source::new("\n  "), 0), Some(1));
    assert_eq!(whitespace_or_newline(&Source::new("x"), 0), None);
}

#[test]
fn trivia_may_be_empty() {
    assert_eq!(trivia(&Source::new("  \n\t x"), 0), 5);
    assert_eq!(trivia(&Source::new("x"), 0), 0);
    assert_eq!(trivia(&Source::new(""), 0), 0);
    assert_eq!(trivia(&Source::new("\n\n\n"), 1), 3);
    assert_eq!(trivia(&Source::new("a"), 7), 7);
}

#[test]
fn names() {
    assert_eq!(
        symbol(&Source::new("comp-LT 0x3F"), 0),
        Step::Match { value: "comp-LT".to_string(), next: 7 }
    );
    assert_eq!(
        symbol(&Source::new("_a-b9"), 0),
        Step::Match { value: "_a-b".to_string(), next: 4 }
    );
    assert_eq!(symbol(&Source::new("x:=1"), 0), Step::Match { value: "x".to_string(), next: 1 });
    assert_eq!(symbol(&Source::new("Main"), 1), Step::Match { value: "ain".to_string(), next: 4 });
    assert_eq!(symbol(&Source::new("9a"), 0), Step::NoMatch);
    assert_eq!(symbol(&Source::new(""), 0), Step::NoMatch);
    assert_eq!(symbol(&Source::new("\u{e9}t\u{e9}"), 0), Step::NoMatch);
}

#[test]
fn names_keep_their_case() {
    assert_eq!(
        symbol(&Source::new("Draw-Texture"), 0),
        Step::Match { value: "Draw-Texture".to_string(), next: 12 }
    );
    assert_ne!(
        symbol(&Source::new("Draw-Texture"), 0),
        Step::Match { value: "draw-texture".to_string(), next: 12 }
    );
}

#[test]
fn tokens_match_exactly_or_in_either_case() {
    let src = Source::new("Loop :=");
    assert_eq!(tag(&src, 0, "Loop"), Some(4));
    assert_eq!(tag(&src, 0, "loop"), None);
    assert_eq!(tag_no_case(&src, 0, "loop"), Some(4));
    assert_eq!(tag_no_case(&src, 0, "LOOP"), Some(4));
    assert_eq!(tag_no_case(&src, 0, "loops"), None);
    assert_eq!(tag(&src, 5, ":="), Some(7));
    assert_eq!(tag(&src, 6, ":="), None);
    assert_eq!(tag(&src, 6, "="), Some(7));
    assert_eq!(tag(&src, 7, "="), None);
    assert_eq!(tag(&src, 7, ""), Some(7));
    assert_eq!(tag(&src, 8, ""), None);
    assert_eq!(tag_no_case(&src, usize::MAX, "l"), None);
}

#[test]
fn case_is_set_aside_for_ascii_letters_only() {
    assert!(eq_ignoring_case('a', 'A'));
    assert!(eq_ignoring_case('Z', 'z'));
    assert!(eq_ignoring_case('-', '-'));
    assert!(!eq_ignoring_case('a', 'B'));
    assert!(!eq_ignoring_case('@', '`'));
    assert!(!eq_ignoring_case('[', '{'));
    assert!(!eq_ignoring_case('0', 'P'));
    assert!(!eq_ignoring_case('k', '\u{212a}'));
    assert!(!eq_ignoring_case(':', '\u{1a}'));
}

#[test]
fn line_feeds_between_two_positions() {
    let src = Source::new("a\n\nb\r\nc");
    assert_eq!(newlines_between(&src, 0, 7), 3);
    assert_eq!(newlines_between(&src, 0, 2), 1);
    assert_eq!(newlines_between(&src, 2, 3), 1);
    assert_eq!(newlines_between(&src, 3, 5), 0);
    assert_eq!(newlines_between(&src, 4, 4), 0);
    assert_eq!(newlines_between(&src, 5, 2), 0);
    assert_eq!(newlines_between(&src, 0, 8), 0);
}
