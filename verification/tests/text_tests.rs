use rlox::decimal::decimal_text;
use rlox::text::{alphanumeric, chars_of, digit, letter, CharClass};

fn chars(s: &str) -> Vec<char> {
    s.chars().collect()
}

#[test]
fn digits_are_zero_to_nine() {
    assert!(digit('0'));
    assert!(digit('5'));
    assert!(digit('9'));
    assert!(!digit('/'));
    assert!(!digit(':'));
    assert!(!digit('a'));
    assert!(!digit('\u{663}'));
}

#[test]
fn letters_are_the_ascii_letters() {
    assert!(letter('a'));
    assert!(letter('z'));
    assert!(letter('A'));
    assert!(letter('Z'));
    assert!(!letter('_'));
    assert!(!letter('`'));
    assert!(!letter('{'));
    assert!(!letter('@'));
    assert!(!letter('['));
    assert!(!letter('1'));
    assert!(!letter('\u{e9}'));
}

#[test]
fn alphanumeric_is_a_letter_or_a_digit() {
    assert!(alphanumeric('q'));
    assert!(alphanumeric('Q'));
    assert!(alphanumeric('7'));
    assert!(!alphanumeric('_'));
    assert!(!alphanumeric(' '));
}

#[test]
fn a_class_contains_its_characters() {
    assert!(CharClass::Digit.contains('3'));
    assert!(!CharClass::Digit.contains('x'));
    assert!(CharClass::Alphanumeric.contains('x'));
    assert!(!CharClass::Alphanumeric.contains('-'));
    assert!(CharClass::NotNewline.contains('x'));
    assert!(!CharClass::NotNewline.contains('\n'));
    assert!(CharClass::NotQuote.contains('\n'));
    assert!(!CharClass::NotQuote.contains('"'));
    assert!(CharClass::NotPoint.contains('1'));
    assert!(!CharClass::NotPoint.contains('.'));
    assert!(CharClass::Zero.contains('0'));
    assert!(!CharClass::Zero.contains('1'));
}

#[test]
fn chars_of_gives_the_characters_in_order() {
    assert_eq!(chars_of("a\u{e9}1"), vec!['a', '\u{e9}', '1']);
    assert_eq!(chars_of(""), Vec::<char>::new());
}

#[test]
fn decimal_text_writes_the_normal_form() {
    assert_eq!(decimal_text(&chars("0012.3400")), "12.34");
    assert_eq!(decimal_text(&chars("5")), "5");
    assert_eq!(decimal_text(&chars("5.")), "5");
    assert_eq!(decimal_text(&chars(".5")), "0.5");
    assert_eq!(decimal_text(&chars("0.0")), "0");
    assert_eq!(decimal_text(&chars("")), "0");
    assert_eq!(decimal_text(&chars("1.20.30")), "1.20.3");
}
