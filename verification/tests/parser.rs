use math::lexer::{tokenize, Numeral, Token};
use math::parser::{parse, parse_expr, parse_let, Associativity, Expr, Operator, ParseError};

fn num(text: &str) -> Expr {
    Expr::Number(Numeral::new(text).unwrap())
}

fn var(name: &str) -> Expr {
    Expr::Identifier(name.to_string())
}

fn add(l: Expr, r: Expr) -> Expr {
    Expr::Add(Box::new(l), Box::new(r))
}

fn sub(l: Expr, r: Expr) -> Expr {
    Expr::Sub(Box::new(l), Box::new(r))
}

fn mul(l: Expr, r: Expr) -> Expr {
    Expr::Mul(Box::new(l), Box::new(r))
}

fn div(l: Expr, r: Expr) -> Expr {
    Expr::Div(Box::new(l), Box::new(r))
}

fn exp(l: Expr, r: Expr) -> Expr {
    Expr::Exp(Box::new(l), Box::new(r))
}

fn neg(e: Expr) -> Expr {
    Expr::Neg(Box::new(e))
}

fn parse_text(text: &str) -> Result<Expr, ParseError> {
    parse(tokenize(text).unwrap())
}

#[test]
fn parse_product_binds_tighter_than_sum() {
    assert_eq!(parse_text("2 + 3 * 3"), Ok(add(num("2"), mul(num("3"), num("3")))));
    assert_eq!(parse_text("2 * 3 + 3"), Ok(add(mul(num("2"), num("3")), num("3"))));
}

#[test]
fn parse_negation_in_parentheses() {
    assert_eq!(parse_text("(-1) ^ 2"), Ok(exp(neg(num("1")), num("2"))));
}

#[test]
fn parse_power_associates_to_the_right() {
    assert_eq!(parse_text("2 ^ 3 ^ 2"), Ok(exp(num("2"), exp(num("3"), num("2")))));
}

#[test]
fn parse_difference_associates_to_the_left() {
    assert_eq!(parse_text("8 - 3 - 2"), Ok(sub(sub(num("8"), num("3")), num("2"))));
    assert_eq!(parse_text("8 / 4 / 2"), Ok(div(div(num("8"), num("4")), num("2"))));
    assert_eq!(parse_text("8 - 3 + 2"), Ok(add(sub(num("8"), num("3")), num("2"))));
    assert_eq!(parse_text("8 / 4 * 2"), Ok(mul(div(num("8"), num("4")), num("2"))));
}

#[test]
fn parse_leaves() {
    assert_eq!(parse_text("42"), Ok(num("42")));
    assert_eq!(parse_text("x1"), Ok(var("x1")));
    assert_eq!(parse_text("((x))"), Ok(var("x")));
}

#[test]
fn parse_parentheses_group() {
    assert_eq!(parse_text("(2 + 3) * 4"), Ok(mul(add(num("2"), num("3")), num("4"))));
    assert_eq!(parse_text("2 * (3 + 4)"), Ok(mul(num("2"), add(num("3"), num("4")))));
    assert_eq!(parse_text("(2 ^ 3) ^ 2"), Ok(exp(exp(num("2"), num("3")), num("2"))));
}

#[test]
fn parse_negation_between_product_and_power() {
    assert_eq!(parse_text("-2 ^ 2"), Ok(neg(exp(num("2"), num("2")))));
    assert_eq!(parse_text("-2 * 3"), Ok(mul(neg(num("2")), num("3"))));
    assert_eq!(parse_text("-2 + 3"), Ok(add(neg(num("2")), num("3"))));
    assert_eq!(parse_text("2 * -3"), Ok(mul(num("2"), neg(num("3")))));
    assert_eq!(parse_text("2 - -3"), Ok(sub(num("2"), neg(num("3")))));
    assert_eq!(parse_text("--a"), Ok(neg(neg(var("a")))));
    assert_eq!(parse_text("2 ^ -3 ^ 2"), Ok(exp(num("2"), neg(exp(num("3"), num("2"))))));
}

#[test]
fn parse_trailing_operator_is_incomplete() {
    assert_eq!(parse_text("2 +"), Err(ParseError::IncompleteExpression));
    assert_eq!(parse_text("2 -"), Err(ParseError::IncompleteExpression));
    assert_eq!(parse_text("-"), Err(ParseError::IncompleteExpression));
}

#[test]
fn parse_empty_input_is_incomplete() {
    assert_eq!(parse(vec![]), Err(ParseError::IncompleteExpression));
    assert_eq!(parse_text("()"), Err(ParseError::IncompleteExpression));
}

#[test]
fn parse_two_values_are_incomplete() {
    assert_eq!(parse_text("2 3"), Err(ParseError::IncompleteExpression));
    assert_eq!(parse_text("2 (3)"), Err(ParseError::IncompleteExpression));
}

#[test]
fn parse_unclosed_parenthesis() {
    assert_eq!(parse_text("(2 + 3"), Err(ParseError::IncompleteExpression));
    assert_eq!(parse_text("((2)"), Err(ParseError::IncompleteExpression));
}

#[test]
fn parse_unopened_parenthesis() {
    assert_eq!(parse_text("2 + 3)"), Err(ParseError::UnmatchedParen));
    assert_eq!(parse_text(")"), Err(ParseError::UnmatchedParen));
    assert_eq!(parse_text("(1))"), Err(ParseError::UnmatchedParen));
}

#[test]
fn parse_reduction_fails_before_the_parenthesis_is_missed() {
    assert_eq!(parse_text("2 + )"), Err(ParseError::IncompleteExpression));
}

#[test]
fn parse_operator_without_left_operand() {
    assert_eq!(parse_text("* 2"), Err(ParseError::UnexpectedOperator));
    assert_eq!(parse_text("+ 2"), Err(ParseError::UnexpectedOperator));
    assert_eq!(parse_text("2 + / 3"), Err(ParseError::UnexpectedOperator));
    assert_eq!(parse_text("(^ 2)"), Err(ParseError::UnexpectedOperator));
    assert_eq!(parse_text("2 * * 3"), Err(ParseError::UnexpectedOperator));
}

#[test]
fn parse_passes_over_tokens_of_no_expression() {
    assert_eq!(parse_text("\"s\" 1 = + ; 2 let"), Ok(add(num("1"), num("2"))));
}

#[test]
fn operator_from_token() {
    assert_eq!(Operator::from_token(Some(&Token::Plus)), Some(Operator::addition()));
    assert_eq!(Operator::from_token(Some(&Token::Minus)), Some(Operator::subtraction()));
    assert_eq!(Operator::from_token(Some(&Token::Asterisk)), Some(Operator::multiplication()));
    assert_eq!(Operator::from_token(Some(&Token::Slash)), Some(Operator::division()));
    assert_eq!(Operator::from_token(Some(&Token::Carat)), Some(Operator::exponent()));
    assert_eq!(Operator::from_token(Some(&Token::LParen)), None);
    assert_eq!(Operator::from_token(Some(&Token::Let)), None);
    assert_eq!(Operator::from_token(None), None);
}

#[test]
fn operator_table() {
    let table = [
        (Operator::addition(), '+', 40, Associativity::Left, 2),
        (Operator::subtraction(), '-', 40, Associativity::Left, 2),
        (Operator::multiplication(), '*', 50, Associativity::Left, 2),
        (Operator::division(), '/', 50, Associativity::Left, 2),
        (Operator::exponent(), '^', 60, Associativity::Right, 2),
        (Operator::negation(), '-', 55, Associativity::Right, 1),
        (Operator::open_paren(), '(', 0, Associativity::Left, 0),
    ];
    for (op, symbol, precedence, associativity, arity) in table {
        assert_eq!(op, Operator { symbol, precedence, associativity, arity });
    }
    assert_ne!(Operator::subtraction(), Operator::negation());
}

#[test]
fn expr_from_op() {
    assert_eq!(Expr::from_op(Operator::addition(), num("1"), Some(num("2"))), Some(add(num("1"), num("2"))));
    assert_eq!(Expr::from_op(Operator::subtraction(), num("1"), Some(num("2"))), Some(sub(num("1"), num("2"))));
    assert_eq!(Expr::from_op(Operator::multiplication(), num("1"), Some(num("2"))), Some(mul(num("1"), num("2"))));
    assert_eq!(Expr::from_op(Operator::division(), num("1"), Some(num("2"))), Some(div(num("1"), num("2"))));
    assert_eq!(Expr::from_op(Operator::exponent(), num("1"), Some(num("2"))), Some(exp(num("1"), num("2"))));
    assert_eq!(Expr::from_op(Operator::negation(), num("1"), None), Some(neg(num("1"))));
    assert_eq!(Expr::from_op(Operator::negation(), num("1"), Some(num("2"))), Some(neg(num("1"))));
    assert_eq!(Expr::from_op(Operator::addition(), num("1"), None), None);
    assert_eq!(Expr::from_op(Operator::open_paren(), num("1"), Some(num("2"))), None);
    let other = Operator { symbol: '+', precedence: 41, associativity: Associativity::Left, arity: 2 };
    assert_eq!(Expr::from_op(other, num("1"), Some(num("2"))), None);
}

#[test]
fn parse_let_binding() {
    let (rest, e) = parse_let(tokenize("let a = 1").unwrap()).unwrap();
    assert_eq!(rest, vec![]);
    assert_eq!(e, Expr::Let("a".to_string(), Box::new(num("1"))));
}

#[test]
fn parse_let_leaves_what_follows_the_semicolon() {
    let (rest, e) = parse_let(tokenize("let a = 1 + 2; a * 2").unwrap()).unwrap();
    assert_eq!(rest, tokenize("a * 2").unwrap());
    assert_eq!(e, Expr::Let("a".to_string(), Box::new(add(num("1"), num("2")))));
    let (rest, _) = parse_let(tokenize("let a = 1;").unwrap()).unwrap();
    assert_eq!(rest, vec![]);
    let (rest, _) = parse_let(tokenize("let a = 1;;").unwrap()).unwrap();
    assert_eq!(rest, vec![Token::SemiColon]);
}

#[test]
fn parse_let_reports_the_missing_token() {
    let empty = Token::Identifier(String::new());
    assert_eq!(parse_let(vec![]), Err(ParseError::ExpectedButGot(Token::Let, None)));
    assert_eq!(
        parse_let(tokenize("a = 1").unwrap()),
        Err(ParseError::ExpectedButGot(Token::Let, Some(Token::Identifier("a".to_string()))))
    );
    assert_eq!(
        parse_let(tokenize("let").unwrap()),
        Err(ParseError::ExpectedButGot(empty.clone(), None))
    );
    assert_eq!(
        parse_let(tokenize("let 1 = 1").unwrap()),
        Err(ParseError::ExpectedButGot(empty.clone(), Some(Token::Number(Numeral::new("1").unwrap()))))
    );
    assert_eq!(
        parse_let(tokenize("let a").unwrap()),
        Err(ParseError::ExpectedButGot(Token::Eq, None))
    );
    assert_eq!(
        parse_let(tokenize("let a + 1").unwrap()),
        Err(ParseError::ExpectedButGot(Token::Eq, Some(Token::Plus)))
    );
}

#[test]
fn parse_let_reports_the_error_of_its_expression() {
    assert_eq!(parse_let(tokenize("let a =").unwrap()), Err(ParseError::IncompleteExpression));
    assert_eq!(parse_let(tokenize("let a = 1 +; 2").unwrap()), Err(ParseError::IncompleteExpression));
    assert_eq!(parse_let(tokenize("let a = * 2").unwrap()), Err(ParseError::UnexpectedOperator));
    assert_eq!(parse_let(tokenize("let a = 2)").unwrap()), Err(ParseError::UnmatchedParen));
}

#[test]
fn parse_expr_stops_at_the_semicolon() {
    let (rest, e) = parse_expr(tokenize("1 + 2; 3; 4").unwrap()).unwrap();
    assert_eq!(e, add(num("1"), num("2")));
    assert_eq!(rest, tokenize("3; 4").unwrap());
    let (rest, e) = parse_expr(tokenize("x").unwrap()).unwrap();
    assert_eq!(e, var("x"));
    assert_eq!(rest, vec![]);
    assert_eq!(parse_expr(tokenize("; 1").unwrap()), Err(ParseError::IncompleteExpression));
    assert_eq!(parse_expr(vec![]), Err(ParseError::IncompleteExpression));
}

#[test]
fn parse_two_operators_in_a_row() {
    let ops = [
        (Token::Plus, Operator::addition()),
        (Token::Minus, Operator::subtraction()),
        (Token::Asterisk, Operator::multiplication()),
        (Token::Slash, Operator::division()),
        (Token::Carat, Operator::exponent()),
    ];
    for (t1, op1) in &ops {
        for (t2, op2) in &ops {
            let tokens = vec![
                Token::Identifier("x".to_string()),
                t1.clone(),
                Token::Identifier("y".to_string()),
                t2.clone(),
                Token::Identifier("z".to_string()),
            ];
            let first_folds = op2.precedence < op1.precedence
                || (op2.precedence == op1.precedence && op2.associativity == Associativity::Left);
            let expected = if first_folds {
                let xy = Expr::from_op(*op1, var("x"), Some(var("y"))).unwrap();
                Expr::from_op(*op2, xy, Some(var("z"))).unwrap()
            } else {
                let yz = Expr::from_op(*op2, var("y"), Some(var("z"))).unwrap();
                Expr::from_op(*op1, var("x"), Some(yz)).unwrap()
            };
            assert_eq!(parse(tokens), Ok(expected));
        }
    }
}

#[test]
fn parse_result_has_balanced_parentheses() {
    for text in ["(1", "1)", ")(", "((1)", "(1))", "(1) + (2", "()(", "(-(1)"] {
        assert!(parse_text(text).is_err(), "{:?}", text);
    }
    for text in ["(1)", "((1))", "(1) + (2)", "-(1)", "(-(1))"] {
        assert!(parse_text(text).is_ok(), "{:?}", text);
    }
}

#[test]
fn parse_result_is_arithmetic() {
    fn arithmetic(e: &Expr) -> bool {
        match e {
            Expr::Number(_) | Expr::Identifier(_) => true,
            Expr::Add(l, r) | Expr::Sub(l, r) | Expr::Mul(l, r) | Expr::Div(l, r) | Expr::Exp(l, r) => {
                arithmetic(l) && arithmetic(r)
            }
            Expr::Neg(e) => arithmetic(e),
            _ => false,
        }
    }
    for text in ["1", "-a", "1 + 2 * 3 ^ 4", "let a = 1 + 2", "(a - b) / -c"] {
        if let Ok(e) = parse_text(text) {
            assert!(arithmetic(&e));
        }
    }
}

#[test]
fn parse_folds_whatever_operands_it_holds() {
    assert_eq!(parse_text("2 3 +"), Ok(add(num("2"), num("3"))));
    assert_eq!(parse_text("(2 3) *"), Ok(mul(num("2"), num("3"))));
    assert_eq!(parse_text("2 3 + 4 5"), Err(ParseError::IncompleteExpression));
}

#[test]
fn parse_negation_then_operator() {
    for (text, op) in [("+", Operator::addition()), ("-", Operator::subtraction()), ("*", Operator::multiplication()), ("/", Operator::division())] {
        let source = format!("-x {} y", text);
        let expected = Expr::from_op(op, neg(var("x")), Some(var("y"))).unwrap();
        assert_eq!(parse_text(&source), Ok(expected));
    }
    assert_eq!(parse_text("-x ^ y"), Ok(neg(exp(var("x"), var("y")))));
    assert_eq!(parse_text("-(1 + 2) ^ (3 * 4)"), Ok(neg(exp(add(num("1"), num("2")), mul(num("3"), num("4"))))));
}

#[test]
fn parse_keeps_every_operand_in_order() {
    fn leaves(e: &Expr, out: &mut Vec<Token>) {
        match e {
            Expr::Number(n) => out.push(Token::Number(n.clone())),
            Expr::Identifier(name) => out.push(Token::Identifier(name.clone())),
            Expr::Add(l, r) | Expr::Sub(l, r) | Expr::Mul(l, r) | Expr::Div(l, r) | Expr::Exp(l, r) => {
                leaves(l, out);
                leaves(r, out);
            }
            Expr::Neg(e) => leaves(e, out),
            _ => {}
        }
    }
    fn operations(e: &Expr) -> usize {
        match e {
            Expr::Add(l, r) | Expr::Sub(l, r) | Expr::Mul(l, r) | Expr::Div(l, r) | Expr::Exp(l, r) => {
                1 + operations(l) + operations(r)
            }
            Expr::Neg(e) => 1 + operations(e),
            _ => 0,
        }
    }
    for text in ["1", "a + b * c - d / e ^ f", "-(a1 - -2) ^ (b * (c + 3.5))", "((x))", "2 3 +"] {
        let tokens = tokenize(text).unwrap();
        let values: Vec<Token> = tokens
            .iter()
            .filter(|t| matches!(t, Token::Number(_) | Token::Identifier(_)))
            .cloned()
            .collect();
        let operators = tokens.iter().filter(|t| Operator::from_token(Some(*t)).is_some()).count();
        let e = parse(tokens).unwrap();
        let mut found = Vec::new();
        leaves(&e, &mut found);
        assert_eq!(found, values);
        assert_eq!(operations(&e), operators);
    }
}
