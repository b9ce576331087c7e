//! How the parser reads the tokens of a printed expression: as one operand.
use vstd::prelude::*;
use crate::expr::{ExprView, Operator};
use crate::parser::{
    spec_close_paren, spec_drain, spec_finish, spec_parse, spec_reduce, spec_reduce_while, spec_run, spec_step,
    spec_yields, ParseErrorView, ParserState, Stacks,
};
use crate::printer::binary_tokens;
use crate::token::TokenView;

verus! {

/// The parser's moves on `ts` from the state that `r` holds; an error stays
/// as it is.
pub open spec fn then_run(r: Result<ParserState, ParseErrorView>, ts: Seq<TokenView>) -> Result<
    ParserState,
    ParseErrorView,
> {
    match r {
        Ok(st) => spec_run(st, ts),
        Err(e) => Err(e),
    }
}

/// Reading `a` and then `b` is reading `a` followed by `b`.
pub proof fn lemma_run_concat(st: ParserState, a: Seq<TokenView>, b: Seq<TokenView>)
    ensures
        spec_run(st, a + b) == then_run(spec_run(st, a), b),
    decreases a.len(),
{
    if a.len() == 0 {
        assert(a + b == b);
    } else {
        assert((a + b)[0] == a[0]);
        assert((a + b).skip(1) == a.skip(1) + b);
        if let Ok(next) = spec_step(st, a[0]) {
            lemma_run_concat(next, a.skip(1), b);
        }
    }
}

/// Reading one token is one move.
pub proof fn lemma_run_one(st: ParserState, t: TokenView)
    ensures
        spec_run(st, seq![t]) == spec_step(st, t),
{
    assert(seq![t].skip(1).len() == 0);
    if let Ok(next) = spec_step(st, t) {
        assert(spec_run(next, seq![t].skip(1)) == Ok::<ParserState, ParseErrorView>(next));
    }
}

/// A `)` after `(`, a binary operator and its two operands folds the
/// operation and drops the mark.
proof fn lemma_close_binary(base: Stacks, op: Operator, l: ExprView, r: ExprView, e: ExprView)
    requires
        op != Operator::negation(),
        ExprView::from_op(op, l, Some(r)) == Some(e),
    ensures
        spec_close_paren(
            Stacks {
                operators: base.operators.push(Operator::open_paren()).push(op),
                operands: base.operands.push(l).push(r),
            },
        ) == Ok::<Stacks, ParseErrorView>(
            Stacks { operators: base.operators, operands: base.operands.push(e) },
        ),
{
    let top = Stacks {
        operators: base.operators.push(Operator::open_paren()).push(op),
        operands: base.operands.push(l).push(r),
    };
    let mid = Stacks {
        operators: base.operators.push(Operator::open_paren()),
        operands: base.operands.push(e),
    };
    let n = top.operands.len() as int;
    assert(top.operators.drop_last() == mid.operators);
    assert(top.operands.take(n - 2).push(e) == mid.operands);
    assert(spec_reduce(top) == Ok::<Stacks, ParseErrorView>(mid));
    assert(mid.operators.drop_last() == base.operators);
    assert(spec_close_paren(mid) == Ok::<Stacks, ParseErrorView>(
        Stacks { operators: base.operators, operands: base.operands.push(e) },
    ));
}

/// A `)` after `(`, a negation and its operand folds the negation and drops
/// the mark.
proof fn lemma_close_negation(base: Stacks, inner: ExprView)
    ensures
        spec_close_paren(
            Stacks {
                operators: base.operators.push(Operator::open_paren()).push(Operator::negation()),
                operands: base.operands.push(inner),
            },
        ) == Ok::<Stacks, ParseErrorView>(
            Stacks { operators: base.operators, operands: base.operands.push(ExprView::Neg(Box::new(inner))) },
        ),
{
    let e = ExprView::Neg(Box::new(inner));
    let top = Stacks {
        operators: base.operators.push(Operator::open_paren()).push(Operator::negation()),
        operands: base.operands.push(inner),
    };
    let mid = Stacks {
        operators: base.operators.push(Operator::open_paren()),
        operands: base.operands.push(e),
    };
    let n = top.operands.len() as int;
    assert(top.operators.drop_last() == mid.operators);
    assert(top.operands.take(n - 1).push(e) == mid.operands);
    assert(spec_reduce(top) == Ok::<Stacks, ParseErrorView>(mid));
    assert(mid.operators.drop_last() == base.operators);
    assert(spec_close_paren(mid) == Ok::<Stacks, ParseErrorView>(
        Stacks { operators: base.operators, operands: base.operands.push(e) },
    ));
}

/// The parser reads the tokens of a binary operation as one operand, given
/// that it reads the tokens of each operand so.
proof fn lemma_run_binary(st: ParserState, l: ExprView, r: ExprView, t: TokenView, e: ExprView)
    requires
        Operator::of_token(Some(t)) is Some,
        ExprView::from_op(Operator::of_token(Some(t))->0, l, Some(r)) == Some(e),
        ({
            let inside = st.with_operator(Operator::open_paren());
            spec_run(inside, l.tokens()) == Ok::<ParserState, ParseErrorView>(inside.with_operand(l))
        }),
        ({
            let half = st.with_operator(Operator::open_paren()).with_operand(l).with_operator(
                Operator::of_token(Some(t))->0,
            );
            spec_run(half, r.tokens()) == Ok::<ParserState, ParseErrorView>(half.with_operand(r))
        }),
    ensures
        spec_run(st, binary_tokens(l.tokens(), t, r.tokens())) == Ok::<ParserState, ParseErrorView>(
            st.with_operand(e),
        ),
{
    let op = Operator::of_token(Some(t))->0;
    let st1 = st.with_operator(Operator::open_paren());
    let st2 = st1.with_operand(l);
    let st3 = st2.with_operator(op);
    let st4 = st3.with_operand(r);
    let a1 = seq![TokenView::LParen];
    let a2 = a1 + l.tokens();
    let a3 = a2 + seq![t];
    let a4 = a3 + r.tokens();
    lemma_run_one(st, TokenView::LParen);
    lemma_run_concat(st, a1, l.tokens());
    assert(spec_run(st, a2) == Ok::<ParserState, ParseErrorView>(st2));
    lemma_run_one(st2, t);
    assert(spec_step(st2, t) == Ok::<ParserState, ParseErrorView>(st3)) by {
        assert(st2.stacks.operators.last() == Operator::open_paren());
        assert(!spec_yields(op, Operator::open_paren()));
        assert(spec_reduce_while(st2.stacks, op) == Ok::<Stacks, ParseErrorView>(st2.stacks));
    }
    lemma_run_concat(st, a2, seq![t]);
    assert(spec_run(st, a3) == Ok::<ParserState, ParseErrorView>(st3));
    lemma_run_concat(st, a3, r.tokens());
    assert(spec_run(st, a4) == Ok::<ParserState, ParseErrorView>(st4));
    lemma_run_one(st4, TokenView::RParen);
    lemma_close_binary(st.stacks, op, l, r, e);
    assert(spec_step(st4, TokenView::RParen) == Ok::<ParserState, ParseErrorView>(st.with_operand(e)));
    lemma_run_concat(st, a4, seq![TokenView::RParen]);
}

/// The parser reads the tokens of an arithmetic expression as one operand:
/// whatever its state, afterwards the expression lies on top of the operands,
/// and nothing else has changed.
pub proof fn lemma_run_tokens(st: ParserState, e: ExprView)
    requires
        e.is_arithmetic(),
    ensures
        spec_run(st, e.tokens()) == Ok::<ParserState, ParseErrorView>(st.with_operand(e)),
    decreases e,
{
    let inside = st.with_operator(Operator::open_paren());
    match e {
        ExprView::Number(text) => {
            lemma_run_one(st, TokenView::Number(text));
        },
        ExprView::Identifier(name) => {
            lemma_run_one(st, TokenView::Identifier(name));
        },
        ExprView::Add(l, r) => {
            lemma_run_tokens(inside, *l);
            lemma_run_tokens(inside.with_operand(*l).with_operator(Operator::addition()), *r);
            lemma_run_binary(st, *l, *r, TokenView::Plus, e);
        },
        ExprView::Sub(l, r) => {
            lemma_run_tokens(inside, *l);
            lemma_run_tokens(inside.with_operand(*l).with_operator(Operator::subtraction()), *r);
            lemma_run_binary(st, *l, *r, TokenView::Minus, e);
        },
        ExprView::Mul(l, r) => {
            lemma_run_tokens(inside, *l);
            lemma_run_tokens(inside.with_operand(*l).with_operator(Operator::multiplication()), *r);
            lemma_run_binary(st, *l, *r, TokenView::Asterisk, e);
        },
        ExprView::Div(l, r) => {
            lemma_run_tokens(inside, *l);
            lemma_run_tokens(inside.with_operand(*l).with_operator(Operator::division()), *r);
            lemma_run_binary(st, *l, *r, TokenView::Slash, e);
        },
        ExprView::Exp(l, r) => {
            lemma_run_tokens(inside, *l);
            lemma_run_tokens(inside.with_operand(*l).with_operator(Operator::exponent()), *r);
            lemma_run_binary(st, *l, *r, TokenView::Carat, e);
        },
        ExprView::Neg(inner) => {
            let st2 = inside.with_operator(Operator::negation());
            let st3 = st2.with_operand(*inner);
            let a1 = seq![TokenView::LParen, TokenView::Minus];
            let a2 = a1 + inner.tokens();
            assert(a1 == seq![TokenView::LParen] + seq![TokenView::Minus]);
            lemma_run_one(st, TokenView::LParen);
            lemma_run_one(inside, TokenView::Minus);
            lemma_run_concat(st, seq![TokenView::LParen], seq![TokenView::Minus]);
            assert(spec_run(st, a1) == Ok::<ParserState, ParseErrorView>(st2));
            lemma_run_tokens(st2, *inner);
            lemma_run_concat(st, a1, inner.tokens());
            assert(spec_run(st, a2) == Ok::<ParserState, ParseErrorView>(st3));
            lemma_run_one(st3, TokenView::RParen);
            lemma_close_negation(st.stacks, *inner);
            assert(spec_step(st3, TokenView::RParen) == Ok::<ParserState, ParseErrorView>(
                st.with_operand(e),
            ));
            lemma_run_concat(st, a2, seq![TokenView::RParen]);
        },
        _ => {},
    }
}

/// Parsing the tokens of an arithmetic expression gives the expression.
pub proof fn lemma_parse_tokens(e: ExprView)
    requires
        e.is_arithmetic(),
    ensures
        spec_parse(e.tokens()) == Ok::<ExprView, ParseErrorView>(e),
{
    let start = ParserState::start();
    lemma_run_tokens(start, e);
    let end = start.with_operand(e);
    assert(spec_drain(end.stacks) == Ok::<Stacks, ParseErrorView>(end.stacks));
    assert(end.stacks.operands.len() == 1);
    assert(end.stacks.operands[0] == e);
    assert(spec_finish(end.stacks) == Ok::<ExprView, ParseErrorView>(e));
}

} // verus!
