//! Precedence and associativity, stated for operators in a row.
use vstd::prelude::*;
use crate::expr::{ExprView, Operator};
use crate::laws::running::{lemma_run_concat, lemma_run_one, lemma_run_tokens};
use crate::parser::{
    spec_drain, spec_finish, spec_parse, spec_reduce, spec_reduce_while, spec_run, spec_step, spec_yields,
    ParseErrorView, ParserState, Stacks,
};
use crate::token::TokenView;

verus! {

/// The node that the binary operator `op` builds from `l` and `r`.
pub open spec fn binary_node(op: Operator, l: ExprView, r: ExprView) -> ExprView {
    ExprView::from_op(op, l, Some(r))->0
}

/// Precedence and associativity. Of two binary operators in a row, the first
/// takes the operand between them where it binds tighter than the second, or
/// as tight while the second associates to the left; otherwise the second
/// takes it. The three operands are arithmetic expressions in printed form.
pub proof fn lemma_two_operators(x: ExprView, t1: TokenView, y: ExprView, t2: TokenView, z: ExprView)
    requires
        x.is_arithmetic(),
        y.is_arithmetic(),
        z.is_arithmetic(),
        Operator::of_token(Some(t1)) is Some,
        Operator::of_token(Some(t2)) is Some,
    ensures
        ({
            let op1 = Operator::of_token(Some(t1))->0;
            let op2 = Operator::of_token(Some(t2))->0;
            spec_parse(x.tokens() + seq![t1] + y.tokens() + seq![t2] + z.tokens()) == Ok::<
                ExprView,
                ParseErrorView,
            >(
                if spec_yields(op2, op1) {
                    binary_node(op2, binary_node(op1, x, y), z)
                } else {
                    binary_node(op1, x, binary_node(op2, y, z))
                },
            )
        }),
{
    let op1 = Operator::of_token(Some(t1))->0;
    let op2 = Operator::of_token(Some(t2))->0;
    let none = Seq::<Operator>::empty();
    let s0 = ParserState::start();
    let s1 = s0.with_operand(x);
    let s2 = s1.with_operator(op1);
    let s3 = s2.with_operand(y);
    let a1 = x.tokens();
    let a2 = a1 + seq![t1];
    let a3 = a2 + y.tokens();
    let a4 = a3 + seq![t2];
    let a5 = a4 + z.tokens();
    lemma_run_tokens(s0, x);
    lemma_run_one(s1, t1);
    assert(spec_reduce_while(s1.stacks, op1) == Ok::<Stacks, ParseErrorView>(s1.stacks));
    lemma_run_concat(s0, a1, seq![t1]);
    assert(spec_run(s0, a2) == Ok::<ParserState, ParseErrorView>(s2));
    lemma_run_tokens(s2, y);
    lemma_run_concat(s0, a2, y.tokens());
    assert(spec_run(s0, a3) == Ok::<ParserState, ParseErrorView>(s3));
    lemma_run_one(s3, t2);
    lemma_run_concat(s0, a3, seq![t2]);
    lemma_run_concat(s0, a4, z.tokens());
    assert(s3.stacks.operators.last() == op1);
    if spec_yields(op2, op1) {
        let xy = binary_node(op1, x, y);
        let folded = Stacks { operators: none, operands: seq![xy] };
        assert(s3.stacks.operators.drop_last() == none);
        assert(s3.stacks.operands.take(0).push(xy) == seq![xy]);
        assert(spec_reduce(s3.stacks) == Ok::<Stacks, ParseErrorView>(folded));
        assert(spec_reduce_while(folded, op2) == Ok::<Stacks, ParseErrorView>(folded));
        assert(spec_reduce_while(s3.stacks, op2) == Ok::<Stacks, ParseErrorView>(folded));
        let s4 = ParserState { stacks: folded, after_value: false }.with_operator(op2);
        assert(spec_step(s3, t2) == Ok::<ParserState, ParseErrorView>(s4));
        lemma_run_tokens(s4, z);
        let s5 = s4.with_operand(z);
        assert(spec_run(s0, a5) == Ok::<ParserState, ParseErrorView>(s5));
        let e = binary_node(op2, xy, z);
        let last = Stacks { operators: none, operands: seq![e] };
        assert(s5.stacks.operators.drop_last() == none);
        assert(s5.stacks.operands.take(0).push(e) == seq![e]);
        assert(spec_reduce(s5.stacks) == Ok::<Stacks, ParseErrorView>(last));
        assert(spec_drain(last) == Ok::<Stacks, ParseErrorView>(last));
        assert(spec_drain(s5.stacks) == Ok::<Stacks, ParseErrorView>(last));
        assert(spec_finish(s5.stacks) == Ok::<ExprView, ParseErrorView>(e));
    } else {
        assert(spec_reduce_while(s3.stacks, op2) == Ok::<Stacks, ParseErrorView>(s3.stacks));
        let s4 = s3.with_operator(op2);
        assert(spec_step(s3, t2) == Ok::<ParserState, ParseErrorView>(s4));
        lemma_run_tokens(s4, z);
        let s5 = s4.with_operand(z);
        assert(spec_run(s0, a5) == Ok::<ParserState, ParseErrorView>(s5));
        let yz = binary_node(op2, y, z);
        let folded = Stacks { operators: seq![op1], operands: seq![x, yz] };
        assert(s5.stacks.operators.drop_last() == folded.operators);
        assert(s5.stacks.operands.take(1).push(yz) == folded.operands);
        assert(spec_reduce(s5.stacks) == Ok::<Stacks, ParseErrorView>(folded));
        let e = binary_node(op1, x, yz);
        let last = Stacks { operators: none, operands: seq![e] };
        assert(folded.operators.drop_last() == none);
        assert(folded.operands.take(0).push(e) == seq![e]);
        assert(spec_reduce(folded) == Ok::<Stacks, ParseErrorView>(last));
        assert(spec_drain(last) == Ok::<Stacks, ParseErrorView>(last));
        assert(spec_drain(folded) == Ok::<Stacks, ParseErrorView>(last));
        assert(spec_drain(s5.stacks) == Ok::<Stacks, ParseErrorView>(last));
        assert(spec_finish(s5.stacks) == Ok::<ExprView, ParseErrorView>(e));
    }
}

/// The negation binds tighter than `+ - * /` and looser than `^`: a leading
/// `-` negates the operand that follows it where one of the four comes next,
/// and the whole power where `^` comes next. The two operands are arithmetic
/// expressions in printed form.
pub proof fn lemma_negation_then_operator(x: ExprView, t: TokenView, y: ExprView)
    requires
        x.is_arithmetic(),
        y.is_arithmetic(),
        Operator::of_token(Some(t)) is Some,
    ensures
        spec_parse(seq![TokenView::Minus] + x.tokens() + seq![t] + y.tokens()) == Ok::<
            ExprView,
            ParseErrorView,
        >(
            if t is Carat {
                ExprView::Neg(Box::new(ExprView::Exp(Box::new(x), Box::new(y))))
            } else {
                binary_node(Operator::of_token(Some(t))->0, ExprView::Neg(Box::new(x)), y)
            },
        ),
{
    let op = Operator::of_token(Some(t))->0;
    let none = Seq::<Operator>::empty();
    let s0 = ParserState::start();
    let s1 = s0.with_operator(Operator::negation());
    let s2 = s1.with_operand(x);
    let a1 = seq![TokenView::Minus];
    let a2 = a1 + x.tokens();
    let a3 = a2 + seq![t];
    let a4 = a3 + y.tokens();
    lemma_run_one(s0, TokenView::Minus);
    lemma_run_tokens(s1, x);
    lemma_run_concat(s0, a1, x.tokens());
    assert(spec_run(s0, a2) == Ok::<ParserState, ParseErrorView>(s2));
    lemma_run_one(s2, t);
    lemma_run_concat(s0, a2, seq![t]);
    lemma_run_concat(s0, a3, y.tokens());
    assert(s2.stacks.operators.last() == Operator::negation());
    if t is Carat {
        assert(spec_reduce_while(s2.stacks, op) == Ok::<Stacks, ParseErrorView>(s2.stacks));
        let s3 = s2.with_operator(op);
        assert(spec_step(s2, t) == Ok::<ParserState, ParseErrorView>(s3));
        lemma_run_tokens(s3, y);
        let s4 = s3.with_operand(y);
        assert(spec_run(s0, a4) == Ok::<ParserState, ParseErrorView>(s4));
        let xy = ExprView::Exp(Box::new(x), Box::new(y));
        let folded = Stacks { operators: seq![Operator::negation()], operands: seq![xy] };
        assert(s4.stacks.operators.drop_last() == folded.operators);
        assert(s4.stacks.operands.take(0).push(xy) == folded.operands);
        assert(spec_reduce(s4.stacks) == Ok::<Stacks, ParseErrorView>(folded));
        let e = ExprView::Neg(Box::new(xy));
        let last = Stacks { operators: none, operands: seq![e] };
        assert(folded.operators.drop_last() == none);
        assert(folded.operands.take(0).push(e) == seq![e]);
        assert(spec_reduce(folded) == Ok::<Stacks, ParseErrorView>(last));
        assert(spec_drain(last) == Ok::<Stacks, ParseErrorView>(last));
        assert(spec_drain(folded) == Ok::<Stacks, ParseErrorView>(last));
        assert(spec_drain(s4.stacks) == Ok::<Stacks, ParseErrorView>(last));
        assert(spec_finish(s4.stacks) == Ok::<ExprView, ParseErrorView>(e));
    } else {
        let nx = ExprView::Neg(Box::new(x));
        let folded = Stacks { operators: none, operands: seq![nx] };
        assert(s2.stacks.operators.drop_last() == none);
        assert(s2.stacks.operands.take(0).push(nx) == seq![nx]);
        assert(spec_reduce(s2.stacks) == Ok::<Stacks, ParseErrorView>(folded));
        assert(spec_reduce_while(folded, op) == Ok::<Stacks, ParseErrorView>(folded));
        assert(spec_reduce_while(s2.stacks, op) == Ok::<Stacks, ParseErrorView>(folded));
        let s3 = ParserState { stacks: folded, after_value: false }.with_operator(op);
        assert(spec_step(s2, t) == Ok::<ParserState, ParseErrorView>(s3));
        lemma_run_tokens(s3, y);
        let s4 = s3.with_operand(y);
        assert(spec_run(s0, a4) == Ok::<ParserState, ParseErrorView>(s4));
        let e = binary_node(op, nx, y);
        let last = Stacks { operators: none, operands: seq![e] };
        assert(s4.stacks.operators.drop_last() == none);
        assert(s4.stacks.operands.take(0).push(e) == seq![e]);
        assert(spec_reduce(s4.stacks) == Ok::<Stacks, ParseErrorView>(last));
        assert(spec_drain(last) == Ok::<Stacks, ParseErrorView>(last));
        assert(spec_drain(s4.stacks) == Ok::<Stacks, ParseErrorView>(last));
        assert(spec_finish(s4.stacks) == Ok::<ExprView, ParseErrorView>(e));
    }
}

/// A binary operator after which the tokens end leaves the expression
/// incomplete. The operand is an arithmetic expression in printed form.
pub proof fn lemma_dangling_operator(x: ExprView, t: TokenView)
    requires
        x.is_arithmetic(),
        Operator::of_token(Some(t)) is Some,
    ensures
        spec_parse(x.tokens() + seq![t]) == Err::<ExprView, ParseErrorView>(
            ParseErrorView::IncompleteExpression,
        ),
{
    let op = Operator::of_token(Some(t))->0;
    let s0 = ParserState::start();
    let s1 = s0.with_operand(x);
    let s2 = s1.with_operator(op);
    lemma_run_tokens(s0, x);
    lemma_run_one(s1, t);
    assert(spec_reduce_while(s1.stacks, op) == Ok::<Stacks, ParseErrorView>(s1.stacks));
    lemma_run_concat(s0, x.tokens(), seq![t]);
    assert(spec_run(s0, x.tokens() + seq![t]) == Ok::<ParserState, ParseErrorView>(s2));
    assert(s2.stacks.operators.last() == op);
    assert(spec_reduce(s2.stacks) == Err::<Stacks, ParseErrorView>(ParseErrorView::IncompleteExpression));
}

} // verus!
