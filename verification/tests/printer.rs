use math::lexer::{tokenize, Numeral, Token};
use math::parser::{parse, Expr};
use math::printer::{print, render, to_tokens};

fn num(text: &str) -> Expr {
    Expr::Number(Numeral::new(text).unwrap())
}

fn var(name: &str) -> Expr {
    Expr::Identifier(name.to_string())
}

fn add(l: Expr, r: Expr) -> Expr {
    Expr::Add(Box::new(l), Box::new(r))
}

fn sub(l: Expr, r: Expr) -> Expr {
    Expr::Sub(Box::new(l), Box::new(r))
}

fn mul(l: Expr, r: Expr) -> Expr {
    Expr::Mul(Box::new(l), Box::new(r))
}

fn div(l: Expr, r: Expr) -> Expr {
    Expr::Div(Box::new(l), Box::new(r))
}

fn exp(l: Expr, r: Expr) -> Expr {
    Expr::Exp(Box::new(l), Box::new(r))
}

fn neg(e: Expr) -> Expr {
    Expr::Neg(Box::new(e))
}

fn reparse(e: &Expr) -> Expr {
    let text = print(e).unwrap();
    let tokens = tokenize(&text).unwrap();
    assert_eq!(Some(&tokens), to_tokens(e).as_ref());
    parse(tokens).unwrap()
}

#[test]
fn token_text() {
    assert_eq!(Token::Identifier("x1".to_string()).text(), "x1");
    assert_eq!(Token::Number(Numeral::new("2.50").unwrap()).text(), "2.50");
    assert_eq!(Token::Plus.text(), "+");
    assert_eq!(Token::Minus.text(), "-");
    assert_eq!(Token::Asterisk.text(), "*");
    assert_eq!(Token::Slash.text(), "/");
    assert_eq!(Token::Carat.text(), "^");
    assert_eq!(Token::LParen.text(), "(");
    assert_eq!(Token::RParen.text(), ")");
    assert_eq!(Token::String("a b".to_string()).text(), "\"a b\"");
    assert_eq!(Token::Eq.text(), "=");
    assert_eq!(Token::Let.text(), "let");
    assert_eq!(Token::SemiColon.text(), ";");
}

#[test]
fn render_puts_a_space_after_each_token() {
    assert_eq!(render(&vec![]), "");
    assert_eq!(render(&vec![Token::Plus]), "+ ");
    let tokens = tokenize("let a=1;\"s\"").unwrap();
    assert_eq!(render(&tokens), "let a = 1 ; \"s\" ");
}

#[test]
fn render_is_read_back() {
    for text in ["", "2 + 3 * 3", "let a = (1 - x2) / 4 ^ 5; \"str\" l e t", ".5 5. 0.5"] {
        let tokens = tokenize(text).unwrap();
        assert_eq!(tokenize(&render(&tokens)), Ok(tokens));
    }
}

#[test]
fn print_leaf() {
    assert_eq!(print(&num("42")), Some("42 ".to_string()));
    assert_eq!(print(&var("x")), Some("x ".to_string()));
}

#[test]
fn print_parenthesizes_every_operation() {
    assert_eq!(print(&add(num("2"), mul(num("3"), num("3")))), Some("( 2 + ( 3 * 3 ) ) ".to_string()));
    assert_eq!(print(&exp(neg(num("1")), num("2"))), Some("( ( - 1 ) ^ 2 ) ".to_string()));
    assert_eq!(print(&sub(var("a"), div(var("b"), var("c")))), Some("( a - ( b / c ) ) ".to_string()));
}

#[test]
fn to_tokens_of_an_operation() {
    assert_eq!(
        to_tokens(&neg(var("a"))),
        Some(vec![Token::LParen, Token::Minus, Token::Identifier("a".to_string()), Token::RParen])
    );
    assert_eq!(
        to_tokens(&exp(var("a"), num("2"))),
        Some(vec![
            Token::LParen,
            Token::Identifier("a".to_string()),
            Token::Carat,
            Token::Number(Numeral::new("2").unwrap()),
            Token::RParen,
        ])
    );
}

#[test]
fn print_knows_arithmetic_only() {
    let binding = Expr::Let("a".to_string(), Box::new(num("1")));
    assert_eq!(print(&binding), None);
    assert_eq!(to_tokens(&binding), None);
    assert_eq!(print(&Expr::Block(vec![num("1")])), None);
    assert_eq!(print(&Expr::FunctionCall(vec![])), None);
    assert_eq!(print(&add(num("1"), Expr::Block(vec![]))), None);
    assert_eq!(print(&add(Expr::FunctionCall(vec![]), num("1"))), None);
    assert_eq!(print(&neg(Expr::Block(vec![]))), None);
}

#[test]
fn printed_tree_is_parsed_back() {
    let trees = vec![
        num("1"),
        var("x9"),
        neg(num("1")),
        neg(neg(var("a"))),
        add(num("2"), mul(num("3"), num("3"))),
        mul(add(num("2"), num("3")), num("3")),
        exp(exp(num("2"), num("3")), num("2")),
        exp(num("2"), exp(num("3"), num("2"))),
        sub(num("8"), sub(num("3"), num("2"))),
        sub(sub(num("8"), num("3")), num("2")),
        neg(exp(var("a"), neg(var("b")))),
        exp(neg(var("a")), neg(mul(var("b"), var("c")))),
        div(neg(add(var("l"), var("e"))), var("t")),
    ];
    for e in trees {
        assert_eq!(reparse(&e), e);
    }
}

#[test]
fn tree_of_a_source_survives_printing() {
    for source in [
        "2 + 3 * 3",
        "(-1) ^ 2",
        "2 ^ 3 ^ 2",
        "8 - 3 - 2",
        "-a ^ -b * c1 / (d - .5)",
        "((x))",
        "1 - -2 - --3",
    ] {
        let e = parse(tokenize(source).unwrap()).unwrap();
        assert_eq!(reparse(&e), e);
    }
}
