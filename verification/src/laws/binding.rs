//! A `let` statement binds what its expression denotes.
use vstd::prelude::*;
use crate::expr::ExprView;
use crate::laws::running::lemma_parse_tokens;
use crate::parser::ParseErrorView;
use crate::printer::binary_tokens;
use crate::statement::{lemma_statement_len_is, spec_parse_expr, spec_parse_let};
use crate::token::TokenView;

verus! {

/// None of the tokens `ts` is a `;`.
pub open spec fn no_semicolon(ts: Seq<TokenView>) -> bool {
    forall|i: int| 0 <= i < ts.len() ==> !(#[trigger] ts[i] is SemiColon)
}

/// Two runs of tokens without `;` make one.
proof fn lemma_no_semicolon_concat(a: Seq<TokenView>, b: Seq<TokenView>)
    requires
        no_semicolon(a),
        no_semicolon(b),
    ensures
        no_semicolon(a + b),
{
    assert forall|i: int| 0 <= i < (a + b).len() implies !(#[trigger] (a + b)[i] is SemiColon) by {
        if i < a.len() {
            assert((a + b)[i] == a[i]);
        } else {
            assert((a + b)[i] == b[i - a.len()]);
        }
    }
}

/// The tokens of a binary operation hold no `;` where those of its operands
/// hold none.
proof fn lemma_binary_no_semicolon(l: Seq<TokenView>, op: TokenView, r: Seq<TokenView>)
    requires
        no_semicolon(l),
        no_semicolon(r),
        !(op is SemiColon),
    ensures
        no_semicolon(binary_tokens(l, op, r)),
{
    let a1 = seq![TokenView::LParen];
    let a2 = a1 + l;
    let a3 = a2 + seq![op];
    let a4 = a3 + r;
    lemma_no_semicolon_concat(a1, l);
    lemma_no_semicolon_concat(a2, seq![op]);
    lemma_no_semicolon_concat(a3, r);
    lemma_no_semicolon_concat(a4, seq![TokenView::RParen]);
}

/// The tokens of an expression hold no `;`.
pub proof fn lemma_tokens_no_semicolon(e: ExprView)
    ensures
        no_semicolon(e.tokens()),
    decreases e,
{
    if e.is_arithmetic() {
        match e {
            ExprView::Add(l, r) => {
                lemma_tokens_no_semicolon(*l);
                lemma_tokens_no_semicolon(*r);
                lemma_binary_no_semicolon(l.tokens(), TokenView::Plus, r.tokens());
            },
            ExprView::Sub(l, r) => {
                lemma_tokens_no_semicolon(*l);
                lemma_tokens_no_semicolon(*r);
                lemma_binary_no_semicolon(l.tokens(), TokenView::Minus, r.tokens());
            },
            ExprView::Mul(l, r) => {
                lemma_tokens_no_semicolon(*l);
                lemma_tokens_no_semicolon(*r);
                lemma_binary_no_semicolon(l.tokens(), TokenView::Asterisk, r.tokens());
            },
            ExprView::Div(l, r) => {
                lemma_tokens_no_semicolon(*l);
                lemma_tokens_no_semicolon(*r);
                lemma_binary_no_semicolon(l.tokens(), TokenView::Slash, r.tokens());
            },
            ExprView::Exp(l, r) => {
                lemma_tokens_no_semicolon(*l);
                lemma_tokens_no_semicolon(*r);
                lemma_binary_no_semicolon(l.tokens(), TokenView::Carat, r.tokens());
            },
            ExprView::Neg(inner) => {
                lemma_tokens_no_semicolon(*inner);
                let head = seq![TokenView::LParen, TokenView::Minus];
                lemma_no_semicolon_concat(head, inner.tokens());
                lemma_no_semicolon_concat(head + inner.tokens(), seq![TokenView::RParen]);
            },
            _ => {},
        }
    }
}

/// An expression statement is parsed to its expression: the tokens of an
/// arithmetic expression, a `;` and any tokens `rest` give the expression and
/// leave `rest`. Without the `;` and `rest` they give the expression and
/// leave nothing.
pub proof fn lemma_parse_expr_statement(e: ExprView, rest: Seq<TokenView>)
    requires
        e.is_arithmetic(),
    ensures
        spec_parse_expr(e.tokens() + seq![TokenView::SemiColon] + rest) == Ok::<
            (Seq<TokenView>, ExprView),
            ParseErrorView,
        >((rest, e)),
        spec_parse_expr(e.tokens()) == Ok::<(Seq<TokenView>, ExprView), ParseErrorView>(
            (Seq::empty(), e),
        ),
{
    let body = e.tokens();
    let n = body.len();
    let closed = body + seq![TokenView::SemiColon] + rest;
    lemma_tokens_no_semicolon(e);
    lemma_parse_tokens(e);
    assert forall|i: int| 0 <= i < n implies !(#[trigger] closed[i] is SemiColon) by {
        assert(closed[i] == body[i]);
    }
    assert(closed[n as int] is SemiColon);
    lemma_statement_len_is(closed, n);
    assert(closed.take(n as int) == body);
    assert(closed.skip((n + 1) as int) == rest);
    lemma_statement_len_is(body, n);
    assert(body.take(n as int) == body);
}

/// A `let` statement is parsed to its binding: `let`, a name, `=`, the
/// tokens of an arithmetic expression, a `;` and any tokens `rest` give the
/// binding of the name to the expression and leave `rest`. Without the `;`
/// and `rest` they give the binding and leave nothing.
pub proof fn lemma_parse_let_binding(name: Seq<char>, e: ExprView, rest: Seq<TokenView>)
    requires
        e.is_arithmetic(),
    ensures
        ({
            let head = seq![TokenView::Let, TokenView::Identifier(name), TokenView::Eq];
            let binding = ExprView::Let(name, Box::new(e));
            &&& spec_parse_let(head + (e.tokens() + seq![TokenView::SemiColon] + rest)) == Ok::<
                (Seq<TokenView>, ExprView),
                ParseErrorView,
            >((rest, binding))
            &&& spec_parse_let(head + e.tokens()) == Ok::<(Seq<TokenView>, ExprView), ParseErrorView>(
                (Seq::empty(), binding),
            )
        }),
{
    let head = seq![TokenView::Let, TokenView::Identifier(name), TokenView::Eq];
    let closed = e.tokens() + seq![TokenView::SemiColon] + rest;
    lemma_parse_expr_statement(e, rest);
    assert((head + closed).skip(3) == closed);
    assert((head + e.tokens()).skip(3) == e.tokens());
    assert((head + closed)[0] == head[0] && (head + closed)[1] == head[1] && (head + closed)[2] == head[2]);
    assert((head + e.tokens())[0] == head[0] && (head + e.tokens())[1] == head[1] && (head + e.tokens())[2]
        == head[2]);
}

} // verus!
