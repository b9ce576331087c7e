//! Statements: an expression up to its `;`, the `let` binding, and the
//! program made of them.
use vstd::prelude::*;
use crate::expr::{Expr, ExprView};
use crate::parser::{parse, spec_parse, ParseError, ParseErrorView};
use crate::token::{token_views, Token, TokenView};

verus! {

/// The number of tokens before the first `;` of `ts`, or the length of `ts`
/// where it holds none.
pub open spec fn statement_len(ts: Seq<TokenView>) -> nat
    decreases ts.len(),
{
    if ts.len() == 0 || ts[0] is SemiColon {
        0
    } else {
        1 + statement_len(ts.skip(1))
    }
}

/// A statement is no longer than the tokens it is taken from.
pub proof fn lemma_statement_len_bound(ts: Seq<TokenView>)
    ensures
        statement_len(ts) <= ts.len(),
    decreases ts.len(),
{
    if !(ts.len() == 0 || ts[0] is SemiColon) {
        lemma_statement_len_bound(ts.skip(1));
    }
}

/// The statement has length `n` when none of the first `n` tokens is a `;`
/// and the next one, if there is one, is.
pub proof fn lemma_statement_len_is(ts: Seq<TokenView>, n: nat)
    requires
        n <= ts.len(),
        forall|i: int| 0 <= i < n ==> !(#[trigger] ts[i] is SemiColon),
        n < ts.len() ==> ts[n as int] is SemiColon,
    ensures
        statement_len(ts) == n,
    decreases n,
{
    if n > 0 {
        let rest = ts.skip(1);
        assert(!(ts[0] is SemiColon));
        assert forall|i: int| 0 <= i < n - 1 implies !(#[trigger] rest[i] is SemiColon) by {
            assert(rest[i] == ts[i + 1]);
        }
        lemma_statement_len_is(rest, (n - 1) as nat);
    }
}

/// What follows the first statement of `ts` and its `;`.
pub open spec fn after_statement(ts: Seq<TokenView>) -> Seq<TokenView> {
    let n = statement_len(ts);
    if n < ts.len() {
        ts.skip((n + 1) as int)
    } else {
        Seq::empty()
    }
}

/// An expression statement: the tokens before the first `;` are parsed as an
/// expression, and what follows the `;` is left over.
pub open spec fn spec_parse_expr(ts: Seq<TokenView>) -> Result<(Seq<TokenView>, ExprView), ParseErrorView> {
    match spec_parse(ts.take(statement_len(ts) as int)) {
        Ok(e) => Ok((after_statement(ts), e)),
        Err(err) => Err(err),
    }
}

/// The token at index `i` of `ts`, if there is one.
pub open spec fn token_at(ts: Seq<TokenView>, i: int) -> Option<TokenView> {
    if 0 <= i < ts.len() {
        Some(ts[i])
    } else {
        None
    }
}

/// A `let` statement: `let`, an identifier, `=`, and an expression
/// statement. The first of the three leading tokens that is missing or wrong
/// is reported with what stands in its place; an expected identifier is
/// reported as one with an empty name.
pub open spec fn spec_parse_let(ts: Seq<TokenView>) -> Result<(Seq<TokenView>, ExprView), ParseErrorView> {
    if !(token_at(ts, 0) matches Some(TokenView::Let)) {
        Err(ParseErrorView::ExpectedButGot(TokenView::Let, token_at(ts, 0)))
    } else if !(token_at(ts, 1) matches Some(TokenView::Identifier(_))) {
        Err(ParseErrorView::ExpectedButGot(TokenView::Identifier(Seq::empty()), token_at(ts, 1)))
    } else if !(token_at(ts, 2) matches Some(TokenView::Eq)) {
        Err(ParseErrorView::ExpectedButGot(TokenView::Eq, token_at(ts, 2)))
    } else {
        match spec_parse_expr(ts.skip(3)) {
            Ok((rest, e)) => Ok((rest, ExprView::Let(ts[1]->Identifier_0, Box::new(e)))),
            Err(err) => Err(err),
        }
    }
}

/// Where the first statement of `tokens` ends.
fn statement_end(tokens: &Vec<Token>) -> (n: usize)
    ensures
        n == statement_len(token_views(tokens@)),
        n <= tokens.len(),
{
    let mut n: usize = 0;
    while n < tokens.len() && !is_semicolon(&tokens[n])
        invariant
            n <= tokens.len(),
            forall|i: int| 0 <= i < n ==> !(#[trigger] token_views(tokens@)[i] is SemiColon),
        decreases tokens.len() - n,
    {
        n += 1;
    }
    proof {
        lemma_statement_len_is(token_views(tokens@), n as nat);
    }
    n
}

/// Whether `t` is a `;`.
fn is_semicolon(t: &Token) -> (b: bool)
    ensures
        b == (t@ is SemiColon),
{
    match t {
        Token::SemiColon => true,
        _ => false,
    }
}

/// Parses the tokens before the first `;` as an expression, and returns it
/// with the tokens that follow the `;`. Without a `;` all tokens are the
/// expression and none is left over.
pub fn parse_expr(tokens: Vec<Token>) -> (r: Result<(Vec<Token>, Expr), ParseError>)
    ensures
        match r {
            Ok((rest, e)) => spec_parse_expr(token_views(tokens@)) == Ok::<
                (Seq<TokenView>, ExprView),
                ParseErrorView,
            >((token_views(rest@), e@)),
            Err(err) => spec_parse_expr(token_views(tokens@)) == Err::<
                (Seq<TokenView>, ExprView),
                ParseErrorView,
            >(err@),
        },
{
    let ghost ts = token_views(tokens@);
    let n = statement_end(&tokens);
    let mut head = tokens;
    let rest = if n < head.len() {
        let rest = head.split_off(n + 1);
        head.pop();
        rest
    } else {
        Vec::new()
    };
    proof {
        assert(token_views(head@) == ts.take(n as int));
        assert(token_views(rest@) == after_statement(ts));
    }
    match parse(head) {
        Ok(e) => Ok((rest, e)),
        Err(err) => Err(err),
    }
}

/// Parses `let name = expression` up to the first `;`, and returns the
/// binding `Let(name, expression)` with the tokens that follow the `;`.
pub fn parse_let(tokens: Vec<Token>) -> (r: Result<(Vec<Token>, Expr), ParseError>)
    ensures
        match r {
            Ok((rest, e)) => spec_parse_let(token_views(tokens@)) == Ok::<
                (Seq<TokenView>, ExprView),
                ParseErrorView,
            >((token_views(rest@), e@)),
            Err(err) => spec_parse_let(token_views(tokens@)) == Err::<
                (Seq<TokenView>, ExprView),
                ParseErrorView,
            >(err@),
        },
{
    let ghost ts = token_views(tokens@);
    if tokens.len() < 1 {
        return Err(ParseError::ExpectedButGot(Token::Let, None));
    }
    match &tokens[0] {
        Token::Let => {},
        other => {
            return Err(ParseError::ExpectedButGot(Token::Let, Some(other.clone())));
        },
    }
    if tokens.len() < 2 {
        return Err(ParseError::ExpectedButGot(Token::Identifier(String::new()), None));
    }
    let name = match &tokens[1] {
        Token::Identifier(name) => name.clone(),
        other => {
            return Err(
                ParseError::ExpectedButGot(Token::Identifier(String::new()), Some(other.clone())),
            );
        },
    };
    if tokens.len() < 3 {
        return Err(ParseError::ExpectedButGot(Token::Eq, None));
    }
    match &tokens[2] {
        Token::Eq => {},
        other => {
            return Err(ParseError::ExpectedButGot(Token::Eq, Some(other.clone())));
        },
    }
    let mut head = tokens;
    let body = head.split_off(3);
    proof {
        assert(token_views(body@) == ts.skip(3));
    }
    match parse_expr(body) {
        Ok((rest, e)) => Ok((rest, Expr::Let(name, Box::new(e)))),
        Err(err) => Err(err),
    }
}

/// What is left after a `let` statement is shorter than the statement's
/// tokens.
pub proof fn lemma_parse_let_shortens(ts: Seq<TokenView>)
    ensures
        spec_parse_let(ts) matches Ok((rest, _)) ==> rest.len() < ts.len(),
{
    if ts.len() >= 3 {
        lemma_statement_len_bound(ts.skip(3));
    }
}

/// `items` with the trees `first` put in front; an error stays as it is.
pub open spec fn prepend_items(first: Seq<ExprView>, items: Result<Seq<ExprView>, ParseErrorView>) -> Result<
    Seq<ExprView>,
    ParseErrorView,
> {
    match items {
        Ok(rest) => Ok(first + rest),
        Err(e) => Err(e),
    }
}

/// The statements of a program: `let` statements, each closed by a `;`, and
/// then one expression, after which a `;` may stand and nothing else. A
/// statement that does not start with `let` and is not the last is reported
/// as a missing `let`, with the token that starts it.
pub open spec fn spec_parse_statements(ts: Seq<TokenView>) -> Result<Seq<ExprView>, ParseErrorView>
    decreases ts.len(),
    via spec_parse_statements_decreases
{
    if token_at(ts, 0) matches Some(TokenView::Let) {
        match spec_parse_let(ts) {
            Ok((rest, binding)) => prepend_items(seq![binding], spec_parse_statements(rest)),
            Err(e) => Err(e),
        }
    } else if after_statement(ts).len() > 0 {
        Err(ParseErrorView::ExpectedButGot(TokenView::Let, token_at(ts, 0)))
    } else {
        match spec_parse_expr(ts) {
            Ok((_, e)) => Ok(seq![e]),
            Err(e) => Err(e),
        }
    }
}

/// `spec_parse_statements` ends: each `let` statement takes up tokens.
#[via_fn]
proof fn spec_parse_statements_decreases(ts: Seq<TokenView>) {
    lemma_parse_let_shortens(ts);
}

/// The program that the tokens `ts` denote: the block of its statements.
pub open spec fn spec_parse_program(ts: Seq<TokenView>) -> Result<ExprView, ParseErrorView> {
    match spec_parse_statements(ts) {
        Ok(items) => Ok(ExprView::Block(items)),
        Err(e) => Err(e),
    }
}

/// Whether the first of `tokens` is `let`.
fn starts_with_let(tokens: &Vec<Token>) -> (b: bool)
    ensures
        b == (token_at(token_views(tokens@), 0) matches Some(TokenView::Let)),
{
    if tokens.len() == 0 {
        return false;
    }
    match &tokens[0] {
        Token::Let => true,
        _ => false,
    }
}

/// Parses a program: any number of `let` statements, each closed by a `;`,
/// and then one expression. Returns the block whose items are the bindings,
/// in order, and the expression as the last.
pub fn parse_program(tokens: Vec<Token>) -> (r: Result<Expr, ParseError>)
    ensures
        match r {
            Ok(e) => spec_parse_program(token_views(tokens@)) == Ok::<ExprView, ParseErrorView>(e@),
            Err(err) => spec_parse_program(token_views(tokens@)) == Err::<ExprView, ParseErrorView>(err@),
        },
{
    let ghost ts = token_views(tokens@);
    let mut items: Vec<Expr> = Vec::new();
    let mut rest = tokens;
    proof {
        assert(Expr::models(items@) == Seq::<ExprView>::empty());
        lemma_prepend_no_items(spec_parse_statements(ts));
    }
    while starts_with_let(&rest)
        invariant
            ts == token_views(tokens@),
            spec_parse_statements(ts) == prepend_items(
                Expr::models(items@),
                spec_parse_statements(token_views(rest@)),
            ),
        decreases rest.len(),
    {
        let ghost before = Expr::models(items@);
        let ghost here = token_views(rest@);
        proof {
            lemma_parse_let_shortens(here);
        }
        match parse_let(rest) {
            Ok((next, binding)) => {
                proof {
                    lemma_prepend_items_push(before, binding@, spec_parse_statements(token_views(next@)));
                    assert(Expr::models(items@.push(binding)) == before.push(binding@));
                }
                items.push(binding);
                rest = next;
            },
            Err(e) => {
                return Err(e);
            },
        }
    }
    let ghost before = Expr::models(items@);
    let n = statement_end(&rest);
    if n < rest.len() && n + 1 < rest.len() {
        return Err(ParseError::ExpectedButGot(Token::Let, Some(rest[0].clone())));
    }
    match parse_expr(rest) {
        Ok((_, e)) => {
            items.push(e);
            proof {
                assert(Expr::models(items@) == before + seq![e@]);
            }
            Ok(Expr::Block(items))
        },
        Err(e) => Err(e),
    }
}

/// Putting no trees in front changes nothing.
proof fn lemma_prepend_no_items(items: Result<Seq<ExprView>, ParseErrorView>)
    ensures
        prepend_items(Seq::empty(), items) == items,
{
    if let Ok(rest) = items {
        assert(Seq::<ExprView>::empty() + rest == rest);
    }
}

/// Putting `first` and then `e` in front is putting `first` with `e` at its
/// end in front.
proof fn lemma_prepend_items_push(first: Seq<ExprView>, e: ExprView, items: Result<Seq<ExprView>, ParseErrorView>)
    ensures
        prepend_items(first, prepend_items(seq![e], items)) == prepend_items(first.push(e), items),
{
    if let Ok(rest) = items {
        assert(first + (seq![e] + rest) == first.push(e) + rest);
    }
}

} // verus!
