use math::lexer::{tokenize, LexError, Numeral, Token};

fn num(text: &str) -> Token {
    Token::Number(Numeral::new(text).unwrap())
}

fn ident(name: &str) -> Token {
    Token::Identifier(name.to_string())
}

#[test]
fn tokenize_sum_and_product() {
    assert_eq!(
        tokenize("2 + 3 * 3"),
        Ok(vec![num("2"), Token::Plus, num("3"), Token::Asterisk, num("3")])
    );
}

#[test]
fn tokenize_every_punctuation() {
    assert_eq!(
        tokenize("+-*/^()=;"),
        Ok(vec![
            Token::Plus,
            Token::Minus,
            Token::Asterisk,
            Token::Slash,
            Token::Carat,
            Token::LParen,
            Token::RParen,
            Token::Eq,
            Token::SemiColon,
        ])
    );
}

#[test]
fn tokenize_empty_text() {
    assert_eq!(tokenize(""), Ok(vec![]));
    assert_eq!(tokenize(" \t\r\n"), Ok(vec![]));
}

#[test]
fn tokenize_invalid_character() {
    assert_eq!(tokenize("2 & 3"), Err(LexError { character: '&', position: 2 }));
}

#[test]
fn tokenize_position_counts_characters() {
    assert_eq!(tokenize("\u{e9} \u{20ac}"), Err(LexError { character: '\u{20ac}', position: 2 }));
}

#[test]
fn tokenize_numbers() {
    assert_eq!(tokenize("12.5"), Ok(vec![num("12.5")]));
    assert_eq!(tokenize(".5 5."), Ok(vec![num(".5"), num("5.")]));
    assert_eq!(tokenize("007"), Ok(vec![num("007")]));
}

#[test]
fn tokenize_malformed_numbers() {
    assert_eq!(tokenize("1.2.3"), Err(LexError { character: '1', position: 0 }));
    assert_eq!(tokenize("2 + ."), Err(LexError { character: '.', position: 4 }));
    assert_eq!(tokenize(".."), Err(LexError { character: '.', position: 0 }));
}

#[test]
fn tokenize_number_has_no_sign() {
    assert_eq!(tokenize("-1"), Ok(vec![Token::Minus, num("1")]));
}

#[test]
fn tokenize_identifier_is_letter_then_digits() {
    assert_eq!(tokenize("a"), Ok(vec![ident("a")]));
    assert_eq!(tokenize("x12"), Ok(vec![ident("x12")]));
    assert_eq!(tokenize("ab"), Ok(vec![ident("a"), ident("b")]));
    assert_eq!(tokenize("a1b2"), Ok(vec![ident("a1"), ident("b2")]));
    assert_eq!(tokenize("x1.5"), Ok(vec![ident("x1"), num(".5")]));
}

#[test]
fn tokenize_keyword_let() {
    assert_eq!(tokenize("let"), Ok(vec![Token::Let]));
    assert_eq!(
        tokenize("let a = 1"),
        Ok(vec![Token::Let, ident("a"), Token::Eq, num("1")])
    );
    assert_eq!(tokenize("letx"), Ok(vec![Token::Let, ident("x")]));
}

#[test]
fn tokenize_failed_keyword_consumes_nothing() {
    assert_eq!(tokenize("le"), Ok(vec![ident("l"), ident("e")]));
    assert_eq!(tokenize("lex"), Ok(vec![ident("l"), ident("e"), ident("x")]));
    assert_eq!(tokenize("l3t"), Ok(vec![ident("l3"), ident("t")]));
}

#[test]
fn tokenize_string_literal() {
    assert_eq!(tokenize("\"a b\""), Ok(vec![Token::String("a b".to_string())]));
    assert_eq!(tokenize("\"\""), Ok(vec![Token::String(String::new())]));
    assert_eq!(
        tokenize("\"x\"+\"y\""),
        Ok(vec![Token::String("x".to_string()), Token::Plus, Token::String("y".to_string())])
    );
}

#[test]
fn tokenize_unterminated_string_runs_to_the_end() {
    assert_eq!(tokenize("\"abc 1 +"), Ok(vec![Token::String("abc 1 +".to_string())]));
    assert_eq!(tokenize("1 \""), Ok(vec![num("1"), Token::String(String::new())]));
}

#[test]
fn tokenize_letters_beyond_ascii() {
    assert_eq!(tokenize("\u{e9}1"), Ok(vec![ident("\u{e9}1")]));
    assert_eq!(tokenize("\u{4eac}"), Ok(vec![ident("\u{4eac}")]));
    assert_eq!(tokenize("\u{1f49d}"), Err(LexError { character: '\u{1f49d}', position: 0 }));
}

#[test]
fn tokenize_blanks_beyond_ascii() {
    assert_eq!(tokenize("1\u{a0}+\u{2003}2"), Ok(vec![num("1"), Token::Plus, num("2")]));
}

#[test]
fn tokenize_ascii_controls() {
    assert_eq!(tokenize("1\u{b}2\u{c}3"), Ok(vec![num("1"), num("2"), num("3")]));
    assert_eq!(tokenize("\u{8}"), Err(LexError { character: '\u{8}', position: 0 }));
    assert_eq!(tokenize("_"), Err(LexError { character: '_', position: 0 }));
}

#[test]
fn numeral_accepts_decimal_texts_only() {
    assert!(Numeral::new("0").is_some());
    assert!(Numeral::new("3.14").is_some());
    assert!(Numeral::new(".5").is_some());
    assert!(Numeral::new("5.").is_some());
    assert!(Numeral::new("").is_none());
    assert!(Numeral::new(".").is_none());
    assert!(Numeral::new("1.2.3").is_none());
    assert!(Numeral::new("1e5").is_none());
    assert!(Numeral::new("-1").is_none());
    assert!(Numeral::new(" 1").is_none());
}

#[test]
fn numeral_keeps_its_text() {
    assert_eq!(Numeral::new("12.50").unwrap().as_str(), "12.50");
    assert_eq!(Numeral::from_string("7".to_string()).unwrap().as_str(), "7");
    let n = Numeral::new("1.5").unwrap();
    assert_eq!(n.clone(), n);
}

#[test]
fn numeral_text_reads_as_a_float() {
    for text in ["2", "12.5", ".5", "5.", "007"] {
        let n = Numeral::new(text).unwrap();
        assert!(n.as_str().parse::<f64>().is_ok());
    }
    assert_eq!(Numeral::new("12.5").unwrap().as_str().parse::<f64>(), Ok(12.5));
}

#[test]
fn token_clone_is_equal() {
    for t in [num("1"), ident("a"), Token::String("s".to_string()), Token::Let, Token::Plus] {
        assert_eq!(t.clone(), t);
    }
}

fn numeral_texts(len: usize) -> Vec<String> {
    let mut texts = vec![String::new()];
    for _ in 0..len {
        let mut longer = Vec::new();
        for t in &texts {
            for c in ['0', '1', '9', '.'] {
                let mut s = t.clone();
                s.push(c);
                longer.push(s);
            }
        }
        texts = longer;
    }
    texts
}

#[test]
fn numeral_agrees_with_the_float_parser() {
    for len in 0..7 {
        for text in numeral_texts(len) {
            assert_eq!(Numeral::new(&text).is_some(), text.parse::<f64>().is_ok(), "{:?}", text);
        }
    }
}

#[test]
fn tokenize_error_points_at_the_character() {
    for text in ["2 & 3", "a b c $", "1.2.3", "  ..", "x = 1 ? 2", "\u{e9}\u{e9} #"] {
        let e = tokenize(text).unwrap_err();
        assert_eq!(text.chars().nth(e.position), Some(e.character));
    }
}
