//! Printing is undone by tokenizing and parsing.
use vstd::prelude::*;
use crate::expr::ExprView;
use crate::laws::reading::{lemma_lex_render, lemma_lex_wf};
use crate::laws::running::lemma_parse_tokens;
use crate::laws::soundness::lemma_parse_arithmetic;
use crate::lexer::{lex, LexErrorView};
use crate::parser::{spec_parse, ParseErrorView};
use crate::printer::binary_tokens;
use crate::token::{tokens_wf, TokenView};

verus! {

/// Two runs of well-formed tokens make one.
proof fn lemma_tokens_wf_concat(a: Seq<TokenView>, b: Seq<TokenView>)
    requires
        tokens_wf(a),
        tokens_wf(b),
    ensures
        tokens_wf(a + b),
{
    assert forall|i: int| 0 <= i < (a + b).len() implies (#[trigger] (a + b)[i]).wf() by {
        if i < a.len() {
            assert((a + b)[i] == a[i]);
        } else {
            assert((a + b)[i] == b[i - a.len()]);
        }
    }
}

/// The tokens of a binary operation are well formed where those of its
/// operands are.
proof fn lemma_binary_tokens_wf(l: Seq<TokenView>, op: TokenView, r: Seq<TokenView>)
    requires
        tokens_wf(l),
        tokens_wf(r),
        op.wf(),
    ensures
        tokens_wf(binary_tokens(l, op, r)),
{
    let a1 = seq![TokenView::LParen];
    let a2 = a1 + l;
    let a3 = a2 + seq![op];
    let a4 = a3 + r;
    lemma_tokens_wf_concat(a1, l);
    lemma_tokens_wf_concat(a2, seq![op]);
    lemma_tokens_wf_concat(a3, r);
    lemma_tokens_wf_concat(a4, seq![TokenView::RParen]);
}

/// The tokens of a well-formed arithmetic expression are well formed.
pub proof fn lemma_tokens_of_wf(e: ExprView)
    requires
        e.is_arithmetic(),
        e.wf(),
    ensures
        tokens_wf(e.tokens()),
    decreases e,
{
    let close = seq![TokenView::RParen];
    match e {
        ExprView::Add(l, r) => {
            lemma_tokens_of_wf(*l);
            lemma_tokens_of_wf(*r);
            lemma_binary_tokens_wf(l.tokens(), TokenView::Plus, r.tokens());
        },
        ExprView::Sub(l, r) => {
            lemma_tokens_of_wf(*l);
            lemma_tokens_of_wf(*r);
            lemma_binary_tokens_wf(l.tokens(), TokenView::Minus, r.tokens());
        },
        ExprView::Mul(l, r) => {
            lemma_tokens_of_wf(*l);
            lemma_tokens_of_wf(*r);
            lemma_binary_tokens_wf(l.tokens(), TokenView::Asterisk, r.tokens());
        },
        ExprView::Div(l, r) => {
            lemma_tokens_of_wf(*l);
            lemma_tokens_of_wf(*r);
            lemma_binary_tokens_wf(l.tokens(), TokenView::Slash, r.tokens());
        },
        ExprView::Exp(l, r) => {
            lemma_tokens_of_wf(*l);
            lemma_tokens_of_wf(*r);
            lemma_binary_tokens_wf(l.tokens(), TokenView::Carat, r.tokens());
        },
        ExprView::Neg(inner) => {
            lemma_tokens_of_wf(*inner);
            let head = seq![TokenView::LParen, TokenView::Minus];
            lemma_tokens_wf_concat(head, inner.tokens());
            lemma_tokens_wf_concat(head + inner.tokens(), close);
        },
        _ => {},
    }
}

/// Printing is undone by tokenizing and parsing: the text of a well-formed
/// arithmetic expression is read back as its tokens, and its tokens are
/// parsed back as the expression.
pub proof fn lemma_print_round_trip(e: ExprView)
    requires
        e.is_arithmetic(),
        e.wf(),
    ensures
        lex(e.text(), 0) == Ok::<Seq<TokenView>, LexErrorView>(e.tokens()),
        spec_parse(e.tokens()) == Ok::<ExprView, ParseErrorView>(e),
{
    lemma_tokens_of_wf(e);
    lemma_lex_render(e.tokens(), 0);
    lemma_parse_tokens(e);
}

/// The tree of a source text survives printing: where `source` is tokenized
/// and parsed to a tree, the text of that tree is tokenized and parsed to the
/// same tree.
pub proof fn lemma_reparse_printed(source: Seq<char>, ts: Seq<TokenView>, e: ExprView)
    requires
        lex(source, 0) == Ok::<Seq<TokenView>, LexErrorView>(ts),
        spec_parse(ts) == Ok::<ExprView, ParseErrorView>(e),
    ensures
        e.is_arithmetic(),
        lex(e.text(), 0) == Ok::<Seq<TokenView>, LexErrorView>(e.tokens()),
        spec_parse(e.tokens()) == Ok::<ExprView, ParseErrorView>(e),
{
    lemma_lex_wf(source, 0);
    lemma_parse_arithmetic(ts);
    lemma_print_round_trip(e);
}

} // verus!
