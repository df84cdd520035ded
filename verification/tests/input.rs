use num::BigUint;
use primality::input::{entries, parse_candidate, ParseError};
use primality::natural::Natural;

fn parsed(text: &str) -> Result<BigUint, ParseError> {
    parse_candidate(text).map(|number: Natural| BigUint::new(number.digits))
}

#[test]
fn entries_are_the_trimmed_lines_that_are_not_blank() {
    assert_eq!(entries("12\n 13 \n\n\t14\r\n"), vec!["12", "13", "14"]);
}

#[test]
fn an_empty_text_has_no_entries() {
    assert!(entries("").is_empty());
    assert!(entries("\n").is_empty());
    assert!(entries("  \n\t\n \r\n").is_empty());
}

#[test]
fn a_text_without_a_line_break_is_one_entry() {
    assert_eq!(entries("97"), vec!["97"]);
    assert_eq!(entries("  97  "), vec!["97"]);
}

#[test]
fn white_space_inside_an_entry_stays() {
    assert_eq!(entries(" a b \nc\td\n"), vec!["a b", "c\td"]);
}

#[test]
fn unicode_white_space_is_trimmed_too() {
    assert_eq!(entries("\u{2003}97\u{a0}\n\u{3000}\n5"), vec!["97", "5"]);
}

#[test]
fn entries_keep_their_order() {
    assert_eq!(entries("3\n1\n2\n1"), vec!["3", "1", "2", "1"]);
}

#[test]
fn a_numeral_is_read_as_its_number() {
    assert_eq!(parsed("97"), Ok(BigUint::from(97u32)));
    assert_eq!(parsed("0"), Ok(BigUint::from(0u32)));
    assert_eq!(parsed("007"), Ok(BigUint::from(7u32)));
    assert_eq!(
        parsed("340282366920938463463374607431768211456"),
        Ok(BigUint::from(u128::MAX) + BigUint::from(1u32))
    );
}

#[test]
fn an_empty_text_is_rejected_as_empty() {
    assert_eq!(parsed(""), Err(ParseError::Empty));
}

#[test]
fn anything_but_digits_is_rejected() {
    for text in ["9a", "a", " 7", "7 ", "-5", "+5", "1_000", "1.5", "0x10", "\u{663}", "12\n"] {
        assert_eq!(parsed(text), Err(ParseError::InvalidDigit), "{:?}", text);
    }
}
