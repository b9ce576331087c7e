//! What the parser returns is an arithmetic expression, well formed where the
//! tokens are.
use vstd::prelude::*;
use crate::expr::{ExprView, Operator};
use crate::parser::{
    spec_close_paren, spec_drain, spec_parse, spec_reduce, spec_reduce_while, spec_run, spec_step, spec_yields,
    ParserState, Stacks,
};
use crate::token::{tokens_wf, TokenView};

verus! {

/// Every tree of `es` is an arithmetic expression.
pub open spec fn all_arithmetic(es: Seq<ExprView>) -> bool {
    forall|i: int| 0 <= i < es.len() ==> (#[trigger] es[i]).is_arithmetic()
}

/// Every tree of `es` is well formed.
pub open spec fn all_wf(es: Seq<ExprView>) -> bool {
    forall|i: int| 0 <= i < es.len() ==> (#[trigger] es[i]).wf()
}

/// A reduction takes one operator away, and keeps the operands arithmetic
/// and well formed.
proof fn lemma_reduce_keeps(s: Stacks)
    requires
        all_arithmetic(s.operands),
    ensures
        spec_reduce(s) matches Ok(next) ==> {
            &&& next.operators.len() < s.operators.len()
            &&& all_arithmetic(next.operands)
            &&& all_wf(s.operands) ==> all_wf(next.operands)
        },
{
    if let Ok(next) = spec_reduce(s) {
        let n = s.operands.len() as int;
        let kept = if s.operators.last().arity == 1 {
            n - 1
        } else {
            n - 2
        };
        assert forall|i: int| 0 <= i < next.operands.len() implies (#[trigger] next.operands[i]).is_arithmetic()
            && (all_wf(s.operands) ==> next.operands[i].wf()) by {
            if i < kept {
                assert(next.operands[i] == s.operands[i]);
            } else {
                assert(s.operands[n - 1].is_arithmetic());
                if kept == n - 2 {
                    assert(s.operands[n - 2].is_arithmetic());
                }
            }
        }
    }
}

/// The reductions before a binary operator keep the operands arithmetic and
/// well formed.
proof fn lemma_reduce_while_keeps(s: Stacks, incoming: Operator)
    requires
        all_arithmetic(s.operands),
    ensures
        spec_reduce_while(s, incoming) matches Ok(next) ==> {
            &&& all_arithmetic(next.operands)
            &&& all_wf(s.operands) ==> all_wf(next.operands)
        },
    decreases s.operators.len(),
{
    if s.operators.len() > 0 && spec_yields(incoming, s.operators.last()) {
        lemma_reduce_keeps(s);
        if let Ok(next) = spec_reduce(s) {
            lemma_reduce_while_keeps(next, incoming);
        }
    }
}

/// The reductions at a `)` keep the operands arithmetic and well formed.
proof fn lemma_close_paren_keeps(s: Stacks)
    requires
        all_arithmetic(s.operands),
    ensures
        spec_close_paren(s) matches Ok(next) ==> {
            &&& all_arithmetic(next.operands)
            &&& all_wf(s.operands) ==> all_wf(next.operands)
        },
    decreases s.operators.len(),
{
    if s.operators.len() > 0 && s.operators.last() != Operator::open_paren() {
        lemma_reduce_keeps(s);
        if let Ok(next) = spec_reduce(s) {
            lemma_close_paren_keeps(next);
        }
    }
}

/// The reductions at the end keep the operands arithmetic and well formed.
proof fn lemma_drain_keeps(s: Stacks)
    requires
        all_arithmetic(s.operands),
    ensures
        spec_drain(s) matches Ok(next) ==> {
            &&& all_arithmetic(next.operands)
            &&& all_wf(s.operands) ==> all_wf(next.operands)
        },
    decreases s.operators.len(),
{
    if s.operators.len() > 0 {
        lemma_reduce_keeps(s);
        if let Ok(next) = spec_reduce(s) {
            lemma_drain_keeps(next);
        }
    }
}

/// A move keeps the operands arithmetic, and well formed where its token is.
proof fn lemma_step_keeps(st: ParserState, t: TokenView)
    requires
        all_arithmetic(st.stacks.operands),
    ensures
        spec_step(st, t) matches Ok(next) ==> {
            &&& all_arithmetic(next.stacks.operands)
            &&& t.wf() && all_wf(st.stacks.operands) ==> all_wf(next.stacks.operands)
        },
{
    lemma_close_paren_keeps(st.stacks);
    if let Some(op) = Operator::of_token(Some(t)) {
        lemma_reduce_while_keeps(st.stacks, op);
    }
}

/// The moves on `ts` keep the operands arithmetic, and well formed where the
/// tokens are.
proof fn lemma_run_keeps(st: ParserState, ts: Seq<TokenView>)
    requires
        all_arithmetic(st.stacks.operands),
    ensures
        spec_run(st, ts) matches Ok(end) ==> {
            &&& all_arithmetic(end.stacks.operands)
            &&& tokens_wf(ts) && all_wf(st.stacks.operands) ==> all_wf(end.stacks.operands)
        },
    decreases ts.len(),
{
    if ts.len() > 0 {
        lemma_step_keeps(st, ts[0]);
        if let Ok(next) = spec_step(st, ts[0]) {
            let rest = ts.skip(1);
            lemma_run_keeps(next, rest);
            if tokens_wf(ts) {
                assert forall|i: int| 0 <= i < rest.len() implies (#[trigger] rest[i]).wf() by {
                    assert(rest[i] == ts[i + 1]);
                }
            }
        }
    }
}

/// What the parser returns is an arithmetic expression: it holds no `let`,
/// no block and no call. Where every token is well formed, so is the tree.
pub proof fn lemma_parse_arithmetic(ts: Seq<TokenView>)
    ensures
        spec_parse(ts) matches Ok(e) ==> e.is_arithmetic() && (tokens_wf(ts) ==> e.wf()),
{
    let start = ParserState::start();
    lemma_run_keeps(start, ts);
    if let Ok(end) = spec_run(start, ts) {
        lemma_drain_keeps(end.stacks);
    }
}

} // verus!
