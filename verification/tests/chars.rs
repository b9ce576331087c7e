use math::chars::{chars_of, is_blank, is_digit, is_letter, is_numeral_char};

fn every_char() -> impl Iterator<Item = char> {
    (0..=0x10ffffu32).filter_map(char::from_u32)
}

#[test]
fn digits_are_the_decimal_digits() {
    for c in every_char() {
        assert_eq!(is_digit(c), c.is_digit(10), "{:?}", c);
        assert_eq!(is_numeral_char(c), c.is_digit(10) || c == '.', "{:?}", c);
    }
}

#[test]
fn letters_are_the_alphabetic_characters() {
    for c in every_char() {
        assert_eq!(is_letter(c), c.is_alphabetic(), "{:?}", c);
    }
}

#[test]
fn blanks_are_the_white_space_characters() {
    for c in every_char() {
        assert_eq!(is_blank(c), c.is_whitespace(), "{:?}", c);
    }
}

#[test]
fn character_classes_on_examples() {
    assert!(is_digit('0') && is_digit('9') && !is_digit('a') && !is_digit('\u{663}'));
    assert!(is_letter('a') && is_letter('Z') && is_letter('\u{e9}') && !is_letter('1') && !is_letter('_'));
    assert!(is_blank(' ') && is_blank('\n') && is_blank('\u{2003}') && !is_blank('a') && !is_blank('\u{200b}'));
}

#[test]
fn chars_of_text() {
    assert_eq!(chars_of(""), Vec::<char>::new());
    assert_eq!(chars_of("a\u{e9}\u{1f49d}1"), vec!['a', '\u{e9}', '\u{1f49d}', '1']);
}
