//! The parser drops nothing and adds nothing.
use vstd::prelude::*;
use crate::expr::{ExprView, Operator};
use crate::laws::balance::{lemma_marks_push, marks};
use crate::parser::{
    spec_close_paren, spec_drain, spec_parse, spec_reduce, spec_reduce_while, spec_run, spec_step, spec_yields,
    ParserState, Stacks,
};
use crate::token::TokenView;

verus! {

impl ExprView {
    /// The numbers and identifiers of an arithmetic expression, from left to
    /// right.
    pub open spec fn leaves(self) -> Seq<ExprView>
        decreases self,
    {
        match self {
            ExprView::Number(_) => seq![self],
            ExprView::Identifier(_) => seq![self],
            ExprView::Add(l, r) => l.leaves() + r.leaves(),
            ExprView::Sub(l, r) => l.leaves() + r.leaves(),
            ExprView::Mul(l, r) => l.leaves() + r.leaves(),
            ExprView::Div(l, r) => l.leaves() + r.leaves(),
            ExprView::Exp(l, r) => l.leaves() + r.leaves(),
            ExprView::Neg(e) => e.leaves(),
            _ => Seq::empty(),
        }
    }

    /// The number of operations of an arithmetic expression: its binary
    /// nodes and its negations.
    pub open spec fn operations(self) -> nat
        decreases self,
    {
        match self {
            ExprView::Add(l, r) => 1 + l.operations() + r.operations(),
            ExprView::Sub(l, r) => 1 + l.operations() + r.operations(),
            ExprView::Mul(l, r) => 1 + l.operations() + r.operations(),
            ExprView::Div(l, r) => 1 + l.operations() + r.operations(),
            ExprView::Exp(l, r) => 1 + l.operations() + r.operations(),
            ExprView::Neg(e) => 1 + e.operations(),
            _ => 0,
        }
    }
}

/// The leaf that a number or an identifier token becomes.
pub open spec fn leaf_of(t: TokenView) -> Option<ExprView> {
    match t {
        TokenView::Number(text) => Some(ExprView::Number(text)),
        TokenView::Identifier(name) => Some(ExprView::Identifier(name)),
        _ => None,
    }
}

/// The numbers and identifiers among the tokens `ts`, in order, as leaves.
pub open spec fn value_tokens(ts: Seq<TokenView>) -> Seq<ExprView>
    decreases ts.len(),
{
    if ts.len() == 0 {
        Seq::empty()
    } else {
        match leaf_of(ts[0]) {
            Some(leaf) => seq![leaf] + value_tokens(ts.skip(1)),
            None => value_tokens(ts.skip(1)),
        }
    }
}

/// How many of the tokens `ts` are one of `+ - * / ^`.
pub open spec fn operator_tokens(ts: Seq<TokenView>) -> nat
    decreases ts.len(),
{
    if ts.len() == 0 {
        0
    } else {
        operator_tokens(ts.skip(1)) + if Operator::of_token(Some(ts[0])) is Some {
            1nat
        } else {
            0nat
        }
    }
}

/// The leaves of the operands `es`, from the bottom of the stack to its top.
pub open spec fn stack_leaves(es: Seq<ExprView>) -> Seq<ExprView>
    decreases es.len(),
{
    if es.len() == 0 {
        Seq::empty()
    } else {
        stack_leaves(es.drop_last()) + es.last().leaves()
    }
}

/// The operations of the operands `es`, all together.
pub open spec fn stack_operations(es: Seq<ExprView>) -> nat
    decreases es.len(),
{
    if es.len() == 0 {
        0
    } else {
        stack_operations(es.drop_last()) + es.last().operations()
    }
}

/// The operations that the stacks hold: those of the operands, and the
/// operators that are no `(` mark.
pub open spec fn held_operations(s: Stacks) -> int {
    stack_operations(s.operands) + s.operators.len() - marks(s.operators)
}

/// Pushing an operand adds its leaves and its operations to those of the
/// stack.
proof fn lemma_stack_push(es: Seq<ExprView>, e: ExprView)
    ensures
        stack_leaves(es.push(e)) == stack_leaves(es) + e.leaves(),
        stack_operations(es.push(e)) == stack_operations(es) + e.operations(),
{
    assert(es.push(e).drop_last() == es);
}

/// A reduction keeps the leaves of the stack and the operations held: the
/// operator that leaves its stack is an operation of the new operand.
proof fn lemma_reduce_content(s: Stacks)
    ensures
        spec_reduce(s) matches Ok(next) ==> {
            &&& stack_leaves(next.operands) == stack_leaves(s.operands)
            &&& held_operations(next) == held_operations(s)
        },
{
    if let Ok(next) = spec_reduce(s) {
        let n = s.operands.len() as int;
        let op = s.operators.last();
        let e = next.operands.last();
        let top = s.operands.last();
        let lower = s.operands.drop_last();
        assert(marks(next.operators) == marks(s.operators));
        if op.arity == 1 {
            assert(op == Operator::negation());
            assert(s.operands.take(n - 1) == lower);
            lemma_stack_push(lower, e);
            assert(e.leaves() == top.leaves());
            assert(e.operations() == 1 + top.operations());
        } else {
            let second = lower.last();
            let lowest = lower.drop_last();
            assert(s.operands.take(n - 2) == lowest);
            lemma_stack_push(lowest, e);
            assert(e.leaves() == second.leaves() + top.leaves());
            assert(e.operations() == 1 + second.operations() + top.operations());
            assert(stack_leaves(lower) == stack_leaves(lowest) + second.leaves());
            assert(stack_operations(lower) == stack_operations(lowest) + second.operations());
            assert(stack_leaves(lowest) + (second.leaves() + top.leaves()) == stack_leaves(lowest)
                + second.leaves() + top.leaves());
        }
    }
}

/// The reductions before a binary operator keep the leaves and the
/// operations held.
proof fn lemma_reduce_while_content(s: Stacks, incoming: Operator)
    ensures
        spec_reduce_while(s, incoming) matches Ok(next) ==> {
            &&& stack_leaves(next.operands) == stack_leaves(s.operands)
            &&& held_operations(next) == held_operations(s)
        },
    decreases s.operators.len(),
{
    if s.operators.len() > 0 && spec_yields(incoming, s.operators.last()) {
        lemma_reduce_content(s);
        if let Ok(next) = spec_reduce(s) {
            lemma_reduce_while_content(next, incoming);
        }
    }
}

/// The reductions at a `)` keep the leaves and the operations held.
proof fn lemma_close_paren_content(s: Stacks)
    ensures
        spec_close_paren(s) matches Ok(next) ==> {
            &&& stack_leaves(next.operands) == stack_leaves(s.operands)
            &&& held_operations(next) == held_operations(s)
        },
    decreases s.operators.len(),
{
    if s.operators.len() > 0 && s.operators.last() != Operator::open_paren() {
        lemma_reduce_content(s);
        if let Ok(next) = spec_reduce(s) {
            lemma_close_paren_content(next);
        }
    }
}

/// The reductions at the end keep the leaves and the operations held, and
/// leave no operator.
proof fn lemma_drain_content(s: Stacks)
    ensures
        spec_drain(s) matches Ok(next) ==> {
            &&& next.operators.len() == 0
            &&& stack_leaves(next.operands) == stack_leaves(s.operands)
            &&& held_operations(next) == held_operations(s)
        },
    decreases s.operators.len(),
{
    if s.operators.len() > 0 {
        lemma_reduce_content(s);
        if let Ok(next) = spec_reduce(s) {
            lemma_drain_content(next);
        }
    }
}

/// A move adds the leaf of its token to the leaves of the stack, and counts
/// one operation more where its token is an operator.
proof fn lemma_step_content(st: ParserState, t: TokenView)
    ensures
        spec_step(st, t) matches Ok(next) ==> {
            &&& stack_leaves(next.stacks.operands) == stack_leaves(st.stacks.operands) + match leaf_of(t) {
                Some(leaf) => seq![leaf],
                None => Seq::empty(),
            }
            &&& held_operations(next.stacks) == held_operations(st.stacks) + if Operator::of_token(Some(t))
                is Some {
                1int
            } else {
                0int
            }
        },
{
    let before = stack_leaves(st.stacks.operands);
    assert(before + Seq::<ExprView>::empty() == before);
    if let Ok(next) = spec_step(st, t) {
        match leaf_of(t) {
            Some(leaf) => {
                lemma_stack_push(st.stacks.operands, leaf);
            },
            None => {
                lemma_close_paren_content(st.stacks);
                lemma_marks_push(st.stacks.operators, Operator::open_paren());
                lemma_marks_push(st.stacks.operators, Operator::negation());
                if let Some(op) = Operator::of_token(Some(t)) {
                    lemma_reduce_while_content(st.stacks, op);
                    if let Ok(reduced) = spec_reduce_while(st.stacks, op) {
                        lemma_marks_push(reduced.operators, op);
                    }
                }
            },
        }
    }
}

/// The moves on `ts` add the leaves of `ts` to those of the stack, and count
/// one operation for each operator of `ts`.
proof fn lemma_run_content(st: ParserState, ts: Seq<TokenView>)
    ensures
        spec_run(st, ts) matches Ok(end) ==> {
            &&& stack_leaves(end.stacks.operands) == stack_leaves(st.stacks.operands) + value_tokens(ts)
            &&& held_operations(end.stacks) == held_operations(st.stacks) + operator_tokens(ts)
        },
    decreases ts.len(),
{
    let before = stack_leaves(st.stacks.operands);
    if ts.len() == 0 {
        assert(before + Seq::<ExprView>::empty() == before);
    } else if let Ok(next) = spec_step(st, ts[0]) {
        let rest = ts.skip(1);
        lemma_step_content(st, ts[0]);
        lemma_run_content(next, rest);
        if let Some(leaf) = leaf_of(ts[0]) {
            assert(before + seq![leaf] + value_tokens(rest) == before + (seq![leaf] + value_tokens(rest)));
        }
    }
}

/// The parser drops nothing and adds nothing: the leaves of the tree it
/// returns are the numbers and identifiers of the tokens, in their order, and
/// the tree has one operation for each operator among the tokens.
pub proof fn lemma_parse_keeps_content(ts: Seq<TokenView>)
    ensures
        spec_parse(ts) matches Ok(e) ==> {
            &&& e.leaves() == value_tokens(ts)
            &&& e.operations() == operator_tokens(ts)
        },
{
    let start = ParserState::start();
    let empty = Seq::<ExprView>::empty();
    lemma_run_content(start, ts);
    if let Ok(end) = spec_run(start, ts) {
        lemma_drain_content(end.stacks);
        if let Ok(last) = spec_drain(end.stacks) {
            if last.operands.len() == 1 {
                let e = last.operands[0];
                assert(last.operands.drop_last() == empty);
                assert(empty + e.leaves() == e.leaves());
                assert(empty + value_tokens(ts) == value_tokens(ts));
                assert(stack_leaves(last.operands) == e.leaves());
                assert(stack_operations(last.operands) == e.operations());
                assert(marks(last.operators) == 0);
                assert(marks(start.stacks.operators) == 0);
            }
        }
    }
}

} // verus!
