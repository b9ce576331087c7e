//! The parser returns a tree only for balanced parentheses.
use vstd::prelude::*;
use crate::expr::Operator;
use crate::parser::{
    spec_close_paren, spec_drain, spec_parse, spec_reduce, spec_reduce_while, spec_run, spec_step, spec_yields,
    ParserState, Stacks,
};
use crate::token::TokenView;

verus! {

/// How many parentheses are open after the tokens `ts`, where `open` were
/// open before them; none where a `)` closes nothing.
pub open spec fn open_parens(open: nat, ts: Seq<TokenView>) -> Option<nat>
    decreases ts.len(),
{
    if ts.len() == 0 {
        Some(open)
    } else {
        match ts[0] {
            TokenView::LParen => open_parens(open + 1, ts.skip(1)),
            TokenView::RParen => if open == 0 {
                None
            } else {
                open_parens((open - 1) as nat, ts.skip(1))
            },
            _ => open_parens(open, ts.skip(1)),
        }
    }
}

/// Every `)` of `ts` closes a `(` before it, and every `(` is closed.
pub open spec fn balanced(ts: Seq<TokenView>) -> bool {
    open_parens(0, ts) == Some(0nat)
}

/// How many `(` marks the operators hold.
pub open spec fn marks(operators: Seq<Operator>) -> nat
    decreases operators.len(),
{
    if operators.len() == 0 {
        0
    } else {
        marks(operators.drop_last()) + if operators.last() == Operator::open_paren() {
            1nat
        } else {
            0nat
        }
    }
}

/// Pushing an operator adds one mark where the operator is the `(` mark, and
/// none otherwise.
pub proof fn lemma_marks_push(operators: Seq<Operator>, op: Operator)
    ensures
        marks(operators.push(op)) == marks(operators) + if op == Operator::open_paren() {
            1nat
        } else {
            0nat
        },
{
    assert(operators.push(op).drop_last() == operators);
}

/// A reduction folds no `(` mark.
proof fn lemma_reduce_marks(s: Stacks)
    ensures
        spec_reduce(s) matches Ok(next) ==> marks(next.operators) == marks(s.operators),
{
}

/// The reductions before a binary operator fold no `(` mark.
proof fn lemma_reduce_while_marks(s: Stacks, incoming: Operator)
    ensures
        spec_reduce_while(s, incoming) matches Ok(next) ==> marks(next.operators) == marks(s.operators),
    decreases s.operators.len(),
{
    if s.operators.len() > 0 && spec_yields(incoming, s.operators.last()) {
        lemma_reduce_marks(s);
        if let Ok(next) = spec_reduce(s) {
            lemma_reduce_while_marks(next, incoming);
        }
    }
}

/// The reductions at a `)` take exactly one `(` mark away.
proof fn lemma_close_paren_marks(s: Stacks)
    ensures
        spec_close_paren(s) matches Ok(next) ==> marks(next.operators) + 1 == marks(s.operators),
    decreases s.operators.len(),
{
    if s.operators.len() > 0 && s.operators.last() != Operator::open_paren() {
        lemma_reduce_marks(s);
        if let Ok(next) = spec_reduce(s) {
            lemma_close_paren_marks(next);
        }
    }
}

/// The reductions at the end succeed only where no `(` mark is left.
proof fn lemma_drain_marks(s: Stacks)
    ensures
        spec_drain(s) is Ok ==> marks(s.operators) == 0,
    decreases s.operators.len(),
{
    if s.operators.len() > 0 {
        lemma_reduce_marks(s);
        if let Ok(next) = spec_reduce(s) {
            lemma_drain_marks(next);
        }
    }
}

/// The marks on the stack count the parentheses that the tokens read have
/// left open.
proof fn lemma_run_marks(st: ParserState, ts: Seq<TokenView>)
    ensures
        spec_run(st, ts) matches Ok(end) ==> open_parens(marks(st.stacks.operators), ts) == Some(
            marks(end.stacks.operators),
        ),
    decreases ts.len(),
{
    if ts.len() > 0 {
        if let Ok(next) = spec_step(st, ts[0]) {
            lemma_close_paren_marks(st.stacks);
            lemma_marks_push(st.stacks.operators, Operator::open_paren());
            lemma_marks_push(st.stacks.operators, Operator::negation());
            if let Some(op) = Operator::of_token(Some(ts[0])) {
                lemma_reduce_while_marks(st.stacks, op);
                if let Ok(reduced) = spec_reduce_while(st.stacks, op) {
                    lemma_marks_push(reduced.operators, op);
                }
            }
            lemma_run_marks(next, ts.skip(1));
        }
    }
}

/// Tokens with an unmatched parenthesis are never parsed to a tree: where
/// the parser returns one, every `)` closes a `(` and every `(` is closed.
pub proof fn lemma_parse_balanced(ts: Seq<TokenView>)
    ensures
        spec_parse(ts) is Ok ==> balanced(ts),
{
    let start = ParserState::start();
    lemma_run_marks(start, ts);
    if let Ok(end) = spec_run(start, ts) {
        lemma_drain_marks(end.stacks);
    }
}

} // verus!
