//! The printer: from a tree back to tokens and to text.
//!
//! An arithmetic expression is printed with every operation in parentheses,
//! so the text says without any rule of precedence which operands an
//! operator has.
use vstd::prelude::*;
use vstd::string::StringExecFns;
use crate::chars::string_push;
use crate::expr::{Expr, ExprView};
use crate::token::{token_views, Token, TokenView};

verus! {

impl TokenView {
    /// The text that denotes the token.
    pub open spec fn text(self) -> Seq<char> {
        match self {
            TokenView::Identifier(name) => name,
            TokenView::Number(text) => text,
            TokenView::Plus => seq!['+'],
            TokenView::Minus => seq!['-'],
            TokenView::Asterisk => seq!['*'],
            TokenView::Carat => seq!['^'],
            TokenView::Slash => seq!['/'],
            TokenView::LParen => seq!['('],
            TokenView::RParen => seq![')'],
            TokenView::String(s) => seq!['"'] + s + seq!['"'],
            TokenView::Eq => seq!['='],
            TokenView::Let => seq!['l', 'e', 't'],
            TokenView::SemiColon => seq![';'],
        }
    }
}

/// The text of the tokens `ts`: the text of each, followed by a space.
pub open spec fn spec_render(ts: Seq<TokenView>) -> Seq<char>
    decreases ts.len(),
{
    if ts.len() == 0 {
        Seq::empty()
    } else {
        ts[0].text() + seq![' '] + spec_render(ts.skip(1))
    }
}

/// The tokens of a binary operation: `(`, the left operand, the operator,
/// the right operand, `)`.
pub open spec fn binary_tokens(l: Seq<TokenView>, op: TokenView, r: Seq<TokenView>) -> Seq<TokenView> {
    seq![TokenView::LParen] + l + seq![op] + r + seq![TokenView::RParen]
}

impl ExprView {
    /// The tokens that denote an arithmetic expression. A number or an
    /// identifier is one token; a negation is `(`, `-`, the operand, `)`.
    /// A tree that is no arithmetic expression has no tokens.
    pub open spec fn tokens(self) -> Seq<TokenView>
        decreases self,
    {
        if !self.is_arithmetic() {
            Seq::empty()
        } else {
            match self {
                ExprView::Number(text) => seq![TokenView::Number(text)],
                ExprView::Identifier(name) => seq![TokenView::Identifier(name)],
                ExprView::Add(l, r) => binary_tokens(l.tokens(), TokenView::Plus, r.tokens()),
                ExprView::Sub(l, r) => binary_tokens(l.tokens(), TokenView::Minus, r.tokens()),
                ExprView::Mul(l, r) => binary_tokens(l.tokens(), TokenView::Asterisk, r.tokens()),
                ExprView::Div(l, r) => binary_tokens(l.tokens(), TokenView::Slash, r.tokens()),
                ExprView::Exp(l, r) => binary_tokens(l.tokens(), TokenView::Carat, r.tokens()),
                ExprView::Neg(e) => seq![TokenView::LParen, TokenView::Minus] + e.tokens() + seq![
                    TokenView::RParen,
                ],
                _ => Seq::empty(),
            }
        }
    }

    /// The text that denotes an arithmetic expression.
    pub open spec fn text(self) -> Seq<char> {
        spec_render(self.tokens())
    }
}

impl Token {
    /// The text that denotes the token.
    pub fn text(&self) -> (s: String)
        ensures
            s@ == self@.text(),
    {
        match self {
            Token::Identifier(name) => name.clone(),
            Token::Number(n) => n.as_str().to_owned(),
            Token::Plus => one_char('+'),
            Token::Minus => one_char('-'),
            Token::Asterisk => one_char('*'),
            Token::Carat => one_char('^'),
            Token::Slash => one_char('/'),
            Token::LParen => one_char('('),
            Token::RParen => one_char(')'),
            Token::String(s) => {
                let mut out = one_char('"');
                out.append(s.as_str());
                string_push(&mut out, '"');
                out
            },
            Token::Eq => one_char('='),
            Token::Let => {
                let mut out = one_char('l');
                string_push(&mut out, 'e');
                string_push(&mut out, 't');
                assert(out@ == seq!['l', 'e', 't']);
                out
            },
            Token::SemiColon => one_char(';'),
        }
    }
}

/// The string of the one character `c`.
fn one_char(c: char) -> (s: String)
    ensures
        s@ == seq![c],
{
    let mut s = String::new();
    string_push(&mut s, c);
    assert(s@ == seq![c]);
    s
}

/// The text of `tokens`: the text of each token, followed by a space.
pub fn render(tokens: &Vec<Token>) -> (s: String)
    ensures
        s@ == spec_render(token_views(tokens@)),
{
    let ghost ts = token_views(tokens@);
    let mut out = String::new();
    let mut i: usize = 0;
    proof {
        assert(ts.skip(0) == ts);
        assert(out@ + spec_render(ts) == spec_render(ts));
    }
    while i < tokens.len()
        invariant
            ts == token_views(tokens@),
            i <= tokens.len(),
            out@ + spec_render(ts.skip(i as int)) == spec_render(ts),
        decreases tokens.len() - i,
    {
        let ghost before = out@;
        let text = tokens[i].text();
        out.append(text.as_str());
        string_push(&mut out, ' ');
        proof {
            let rest = ts.skip(i as int);
            assert(rest[0] == tokens[i as int]@);
            assert(rest.skip(1) == ts.skip(i + 1));
            assert(out@ + spec_render(ts.skip(i + 1)) == before + spec_render(rest));
        }
        i += 1;
    }
    proof {
        assert(ts.skip(i as int).len() == 0);
        assert(out@ + Seq::<char>::empty() == out@);
    }
    out
}

/// The operands of a binary operation and the token of its operator.
fn binary_parts(e: &Expr) -> (parts: Option<(&Expr, Token, &Expr)>)
    ensures
        match parts {
            Some((l, op, r)) => {
                &&& e@.is_arithmetic() == (l@.is_arithmetic() && r@.is_arithmetic())
                &&& e@.is_arithmetic() ==> e@.tokens() == binary_tokens(l@.tokens(), op@, r@.tokens())
                &&& decreases_to!(e => l)
                &&& decreases_to!(e => r)
            },
            None => !(e is Add || e is Sub || e is Mul || e is Div || e is Exp),
        },
{
    match e {
        Expr::Add(l, r) => Some((l, Token::Plus, r)),
        Expr::Sub(l, r) => Some((l, Token::Minus, r)),
        Expr::Mul(l, r) => Some((l, Token::Asterisk, r)),
        Expr::Div(l, r) => Some((l, Token::Slash, r)),
        Expr::Exp(l, r) => Some((l, Token::Carat, r)),
        _ => None,
    }
}

/// Adds the tokens of `e` to `out`, and says whether `e` is an arithmetic
/// expression. Where it is none, what `out` holds is not said.
fn write_tokens(e: &Expr, out: &mut Vec<Token>) -> (ok: bool)
    ensures
        ok == e@.is_arithmetic(),
        ok ==> token_views(final(out)@) == token_views(old(out)@) + e@.tokens(),
    decreases e,
{
    let ghost before = token_views(out@);
    match e {
        Expr::Number(n) => {
            out.push(Token::Number(n.clone()));
            assert(token_views(out@) == before + e@.tokens());
            true
        },
        Expr::Identifier(name) => {
            out.push(Token::Identifier(name.clone()));
            assert(token_views(out@) == before + e@.tokens());
            true
        },
        Expr::Neg(inner) => {
            out.push(Token::LParen);
            out.push(Token::Minus);
            assert(token_views(out@) == before + seq![TokenView::LParen, TokenView::Minus]);
            if !write_tokens(inner, out) {
                return false;
            }
            let ghost inside = token_views(out@);
            out.push(Token::RParen);
            assert(token_views(out@) == inside.push(TokenView::RParen));
            assert(token_views(out@) == before + e@.tokens());
            true
        },
        _ => match binary_parts(e) {
            None => false,
            Some((l, op, r)) => {
                out.push(Token::LParen);
                assert(token_views(out@) == before.push(TokenView::LParen));
                if !write_tokens(l, out) {
                    return false;
                }
                let ghost left = token_views(out@);
                let ghost op_view = op@;
                out.push(op);
                assert(token_views(out@) == left.push(op_view));
                if !write_tokens(r, out) {
                    return false;
                }
                let ghost right = token_views(out@);
                out.push(Token::RParen);
                assert(token_views(out@) == right.push(TokenView::RParen));
                assert(token_views(out@) == before + binary_tokens(l@.tokens(), op_view, r@.tokens()));
                true
            },
        },
    }
}

/// The tokens that denote `e`, if `e` is an arithmetic expression.
pub fn to_tokens(e: &Expr) -> (r: Option<Vec<Token>>)
    ensures
        r is Some <==> e@.is_arithmetic(),
        r matches Some(tokens) ==> token_views(tokens@) == e@.tokens(),
{
    let mut out: Vec<Token> = Vec::new();
    if write_tokens(e, &mut out) {
        assert(Seq::<TokenView>::empty() + e@.tokens() == e@.tokens());
        Some(out)
    } else {
        None
    }
}

/// The text that denotes `e`, if `e` is an arithmetic expression.
pub fn print(e: &Expr) -> (r: Option<String>)
    ensures
        r is Some <==> e@.is_arithmetic(),
        r matches Some(s) ==> s@ == e@.text(),
{
    match to_tokens(e) {
        Some(tokens) => Some(render(&tokens)),
        None => None,
    }
}

} // verus!
