use math::lexer::{tokenize, Numeral, Token};
use math::parser::{parse_program, Expr, ParseError};

fn num(text: &str) -> Expr {
    Expr::Number(Numeral::new(text).unwrap())
}

fn var(name: &str) -> Expr {
    Expr::Identifier(name.to_string())
}

fn binding(name: &str, e: Expr) -> Expr {
    Expr::Let(name.to_string(), Box::new(e))
}

fn program(text: &str) -> Result<Expr, ParseError> {
    parse_program(tokenize(text).unwrap())
}

#[test]
fn program_of_one_expression() {
    assert_eq!(program("1"), Ok(Expr::Block(vec![num("1")])));
    assert_eq!(program("1;"), Ok(Expr::Block(vec![num("1")])));
}

#[test]
fn program_of_bindings_and_expression() {
    assert_eq!(
        program("let a = 1; let b = a + 2; a * b"),
        Ok(Expr::Block(vec![
            binding("a", num("1")),
            binding("b", Expr::Add(Box::new(var("a")), Box::new(num("2")))),
            Expr::Mul(Box::new(var("a")), Box::new(var("b"))),
        ]))
    );
}

#[test]
fn program_needs_a_last_expression() {
    assert_eq!(program(""), Err(ParseError::IncompleteExpression));
    assert_eq!(program("let a = 1"), Err(ParseError::IncompleteExpression));
    assert_eq!(program("let a = 1;"), Err(ParseError::IncompleteExpression));
}

#[test]
fn program_has_one_expression_only() {
    assert_eq!(
        program("1; 2"),
        Err(ParseError::ExpectedButGot(Token::Let, Some(Token::Number(Numeral::new("1").unwrap()))))
    );
    assert_eq!(
        program("let a = 1; a; let b = 2; b"),
        Err(ParseError::ExpectedButGot(Token::Let, Some(Token::Identifier("a".to_string()))))
    );
    assert_eq!(program("; 1"), Err(ParseError::ExpectedButGot(Token::Let, Some(Token::SemiColon))));
    assert_eq!(program("1;;"), Err(ParseError::ExpectedButGot(Token::Let, Some(Token::Number(Numeral::new("1").unwrap())))));
}

#[test]
fn program_reports_the_first_error() {
    assert_eq!(program("let a = 1 +; 2"), Err(ParseError::IncompleteExpression));
    assert_eq!(
        program("let a = 1; let = 2; 3"),
        Err(ParseError::ExpectedButGot(Token::Identifier(String::new()), Some(Token::Eq)))
    );
    assert_eq!(program("let a = 1; * 2"), Err(ParseError::UnexpectedOperator));
    assert_eq!(program("let a = 1; 2)"), Err(ParseError::UnmatchedParen));
}
