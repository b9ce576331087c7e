//! The expression parser: from tokens to a tree.
//!
//! The parser keeps two stacks, one of operands and one of operators, and
//! reads the tokens from left to right. `spec_parse` says what it returns as
//! a function on sequences of tokens; `parse` computes it.
use vstd::prelude::*;
use crate::expr::ExprView;
use crate::laws::soundness::lemma_parse_arithmetic;
use crate::token::{token_views, tokens_wf, Token, TokenView};
pub use crate::expr::{Associativity, Expr, Operator};
pub use crate::statement::{parse_expr, parse_let, parse_program};

verus! {

/// Why a sequence of tokens is no expression or statement.
#[derive(Debug, PartialEq, Eq)]
pub enum ParseError {
    /// A statement lacks a required token: the token expected, and the token
    /// found in its place, if there was one.
    ExpectedButGot(Token, Option<Token>),
    /// One of `+ * / ^` stands where a value or a unary operator must.
    UnexpectedOperator,
    /// The tokens do not fold into exactly one tree.
    IncompleteExpression,
    /// A `)` has no `(` that it closes.
    UnmatchedParen,
}

/// A `ParseError` as a mathematical value.
pub enum ParseErrorView {
    ExpectedButGot(TokenView, Option<TokenView>),
    UnexpectedOperator,
    IncompleteExpression,
    UnmatchedParen,
}

impl View for ParseError {
    type V = ParseErrorView;

    open spec fn view(&self) -> ParseErrorView {
        match self {
            ParseError::ExpectedButGot(expected, got) => ParseErrorView::ExpectedButGot(
                expected@,
                match got {
                    Some(t) => Some(t@),
                    None => None,
                },
            ),
            ParseError::UnexpectedOperator => ParseErrorView::UnexpectedOperator,
            ParseError::IncompleteExpression => ParseErrorView::IncompleteExpression,
            ParseError::UnmatchedParen => ParseErrorView::UnmatchedParen,
        }
    }
}

/// The two stacks of the parser. The top of each is its last element.
pub struct Stacks {
    pub operators: Seq<Operator>,
    pub operands: Seq<ExprView>,
}

/// The parser between two tokens: its stacks, and whether the token just
/// read was a value (a number, an identifier or a `)`). After a value a `-`
/// is a subtraction, elsewhere it is a negation.
pub struct ParserState {
    pub stacks: Stacks,
    pub after_value: bool,
}

/// The operator `incoming` makes the operator `top` of the stack fold first:
/// `top` binds tighter, or as tight where `incoming` associates to the left.
pub open spec fn spec_yields(incoming: Operator, top: Operator) -> bool {
    incoming.precedence < top.precedence || (incoming.precedence == top.precedence
        && incoming.associativity == Associativity::Left)
}

/// One reduction: the top operator leaves its stack and folds as many
/// operands as its arity says into one node, which takes their place. An
/// operator of arity 1 takes the top operand; any other takes the two top
/// operands, the lower one as left child. It fails where the operands are too
/// few or the operator builds no node.
pub open spec fn spec_reduce(s: Stacks) -> Result<Stacks, ParseErrorView> {
    let n = s.operands.len() as int;
    if s.operators.len() == 0 {
        Err(ParseErrorView::IncompleteExpression)
    } else {
        let op = s.operators.last();
        let folded = if op.arity == 1 {
            if n >= 1 {
                ExprView::from_op(op, s.operands[n - 1], None)
            } else {
                None
            }
        } else {
            if n >= 2 {
                ExprView::from_op(op, s.operands[n - 2], Some(s.operands[n - 1]))
            } else {
                None
            }
        };
        match folded {
            Some(e) => Ok(
                Stacks {
                    operators: s.operators.drop_last(),
                    operands: s.operands.take(
                        if op.arity == 1 {
                            n - 1
                        } else {
                            n - 2
                        },
                    ).push(e),
                },
            ),
            None => Err(ParseErrorView::IncompleteExpression),
        }
    }
}

/// Reductions before the binary operator `incoming` goes on the stack: as
/// long as the top operator folds first.
pub open spec fn spec_reduce_while(s: Stacks, incoming: Operator) -> Result<Stacks, ParseErrorView>
    decreases s.operators.len(),
{
    if s.operators.len() > 0 && spec_yields(incoming, s.operators.last()) {
        match spec_reduce(s) {
            Ok(next) => spec_reduce_while(next, incoming),
            Err(e) => Err(e),
        }
    } else {
        Ok(s)
    }
}

/// Reductions at a `)`: down to the nearest `(` mark, which is dropped.
/// Without such a mark the `)` is unmatched.
pub open spec fn spec_close_paren(s: Stacks) -> Result<Stacks, ParseErrorView>
    decreases s.operators.len(),
{
    if s.operators.len() == 0 {
        Err(ParseErrorView::UnmatchedParen)
    } else if s.operators.last() == Operator::open_paren() {
        Ok(Stacks { operators: s.operators.drop_last(), operands: s.operands })
    } else {
        match spec_reduce(s) {
            Ok(next) => spec_close_paren(next),
            Err(e) => Err(e),
        }
    }
}

/// Reductions at the end of the tokens: until no operator is left. A `(`
/// mark that is still on the stack builds no node, so it fails.
pub open spec fn spec_drain(s: Stacks) -> Result<Stacks, ParseErrorView>
    decreases s.operators.len(),
{
    if s.operators.len() == 0 {
        Ok(s)
    } else {
        match spec_reduce(s) {
            Ok(next) => spec_drain(next),
            Err(e) => Err(e),
        }
    }
}

impl ParserState {
    /// The parser before the first token.
    pub open spec fn start() -> ParserState {
        ParserState {
            stacks: Stacks { operators: Seq::empty(), operands: Seq::empty() },
            after_value: false,
        }
    }

    /// The state with `e` pushed as an operand.
    pub open spec fn with_operand(self, e: ExprView) -> ParserState {
        ParserState {
            stacks: Stacks { operators: self.stacks.operators, operands: self.stacks.operands.push(e) },
            after_value: true,
        }
    }

    /// The state with `op` pushed as an operator.
    pub open spec fn with_operator(self, op: Operator) -> ParserState {
        ParserState {
            stacks: Stacks { operators: self.stacks.operators.push(op), operands: self.stacks.operands },
            after_value: false,
        }
    }
}

/// The parser's move on one token.
///
/// A number or an identifier becomes an operand. After a value, one of
/// `+ - * / ^` is binary: the operators that fold first are reduced, then it
/// goes on the stack. Elsewhere `-` goes on the stack as a negation, and the
/// other four are an error. `(` leaves its mark, `)` reduces down to it. Any
/// other token has no part in an expression and is passed over.
pub open spec fn spec_step(st: ParserState, t: TokenView) -> Result<ParserState, ParseErrorView> {
    match t {
        TokenView::Number(text) => Ok(st.with_operand(ExprView::Number(text))),
        TokenView::Identifier(name) => Ok(st.with_operand(ExprView::Identifier(name))),
        TokenView::LParen => Ok(st.with_operator(Operator::open_paren())),
        TokenView::RParen => match spec_close_paren(st.stacks) {
            Ok(stacks) => Ok(ParserState { stacks, after_value: true }),
            Err(e) => Err(e),
        },
        _ => match Operator::of_token(Some(t)) {
            Some(op) => {
                if st.after_value {
                    match spec_reduce_while(st.stacks, op) {
                        Ok(stacks) => Ok(ParserState { stacks, after_value: false }.with_operator(op)),
                        Err(e) => Err(e),
                    }
                } else if op == Operator::subtraction() {
                    Ok(st.with_operator(Operator::negation()))
                } else {
                    Err(ParseErrorView::UnexpectedOperator)
                }
            },
            None => Ok(st),
        },
    }
}

/// The parser's moves on the tokens `ts`, from the state `st`; the first
/// error ends them.
pub open spec fn spec_run(st: ParserState, ts: Seq<TokenView>) -> Result<ParserState, ParseErrorView>
    decreases ts.len(),
{
    if ts.len() == 0 {
        Ok(st)
    } else {
        match spec_step(st, ts[0]) {
            Ok(next) => spec_run(next, ts.skip(1)),
            Err(e) => Err(e),
        }
    }
}

/// The end of the tokens: every operator left is reduced, and the result is
/// the one operand that remains. No operand, or more than one, is an error.
pub open spec fn spec_finish(s: Stacks) -> Result<ExprView, ParseErrorView> {
    match spec_drain(s) {
        Ok(last) => if last.operands.len() == 1 {
            Ok(last.operands[0])
        } else {
            Err(ParseErrorView::IncompleteExpression)
        },
        Err(e) => Err(e),
    }
}

/// The tree that the tokens `ts` denote, or why they denote none.
pub open spec fn spec_parse(ts: Seq<TokenView>) -> Result<ExprView, ParseErrorView> {
    match spec_run(ParserState::start(), ts) {
        Ok(st) => spec_finish(st.stacks),
        Err(e) => Err(e),
    }
}

/// The stacks that the two vectors hold.
pub open spec fn stacks_of(operators: Seq<Operator>, operands: Seq<Expr>) -> Stacks {
    Stacks { operators, operands: Expr::models(operands) }
}

/// Whether `incoming` makes `top` fold first.
fn yields(incoming: Operator, top: Operator) -> (b: bool)
    ensures
        b == spec_yields(incoming, top),
{
    incoming.precedence < top.precedence || (incoming.precedence == top.precedence
        && incoming.associativity == Associativity::Left)
}

/// One reduction on the two stacks.
fn reduce(operators: &mut Vec<Operator>, operands: &mut Vec<Expr>) -> (r: Result<(), ParseError>)
    ensures
        match r {
            Ok(()) => spec_reduce(stacks_of(old(operators)@, old(operands)@)) == Ok::<
                Stacks,
                ParseErrorView,
            >(stacks_of(final(operators)@, final(operands)@)),
            Err(e) => spec_reduce(stacks_of(old(operators)@, old(operands)@)) == Err::<
                Stacks,
                ParseErrorView,
            >(e@),
        },
{
    let ghost before = operands@;
    match operators.pop() {
        None => Err(ParseError::IncompleteExpression),
        Some(op) => {
            if op.arity == 1 {
                match operands.pop() {
                    None => Err(ParseError::IncompleteExpression),
                    Some(value) => match Expr::from_op(op, value, None) {
                        None => Err(ParseError::IncompleteExpression),
                        Some(e) => {
                            operands.push(e);
                            assert(Expr::models(operands@) == Expr::models(before).take(
                                before.len() - 1,
                            ).push(e@));
                            Ok(())
                        },
                    },
                }
            } else {
                match operands.pop() {
                    None => Err(ParseError::IncompleteExpression),
                    Some(rhs) => match operands.pop() {
                        None => Err(ParseError::IncompleteExpression),
                        Some(lhs) => match Expr::from_op(op, lhs, Some(rhs)) {
                            None => Err(ParseError::IncompleteExpression),
                            Some(e) => {
                                operands.push(e);
                                assert(Expr::models(operands@) == Expr::models(before).take(
                                    before.len() - 2,
                                ).push(e@));
                                Ok(())
                            },
                        },
                    },
                }
            }
        },
    }
}

/// The reductions before a binary operator goes on the stack.
fn reduce_while(operators: &mut Vec<Operator>, operands: &mut Vec<Expr>, incoming: Operator) -> (r:
    Result<(), ParseError>)
    ensures
        match r {
            Ok(()) => spec_reduce_while(stacks_of(old(operators)@, old(operands)@), incoming) == Ok::<
                Stacks,
                ParseErrorView,
            >(stacks_of(final(operators)@, final(operands)@)),
            Err(e) => spec_reduce_while(stacks_of(old(operators)@, old(operands)@), incoming)
                == Err::<Stacks, ParseErrorView>(e@),
        },
{
    while operators.len() > 0 && yields(incoming, operators[operators.len() - 1])
        invariant
            spec_reduce_while(stacks_of(operators@, operands@), incoming) == spec_reduce_while(
                stacks_of(old(operators)@, old(operands)@),
                incoming,
            ),
        decreases operators.len(),
    {
        match reduce(operators, operands) {
            Ok(()) => {},
            Err(e) => {
                return Err(e);
            },
        }
    }
    Ok(())
}

/// The reductions at a `)`.
fn close_paren(operators: &mut Vec<Operator>, operands: &mut Vec<Expr>) -> (r: Result<(), ParseError>)
    ensures
        match r {
            Ok(()) => spec_close_paren(stacks_of(old(operators)@, old(operands)@)) == Ok::<
                Stacks,
                ParseErrorView,
            >(stacks_of(final(operators)@, final(operands)@)),
            Err(e) => spec_close_paren(stacks_of(old(operators)@, old(operands)@)) == Err::<
                Stacks,
                ParseErrorView,
            >(e@),
        },
{
    loop
        invariant
            spec_close_paren(stacks_of(operators@, operands@)) == spec_close_paren(
                stacks_of(old(operators)@, old(operands)@),
            ),
        decreases operators.len(),
    {
        if operators.len() == 0 {
            return Err(ParseError::UnmatchedParen);
        }
        if operators[operators.len() - 1] == Operator::open_paren() {
            operators.pop();
            return Ok(());
        }
        match reduce(operators, operands) {
            Ok(()) => {},
            Err(e) => {
                return Err(e);
            },
        }
    }
}

/// The reductions at the end of the tokens.
fn drain(operators: &mut Vec<Operator>, operands: &mut Vec<Expr>) -> (r: Result<(), ParseError>)
    ensures
        match r {
            Ok(()) => spec_drain(stacks_of(old(operators)@, old(operands)@)) == Ok::<
                Stacks,
                ParseErrorView,
            >(stacks_of(final(operators)@, final(operands)@)),
            Err(e) => spec_drain(stacks_of(old(operators)@, old(operands)@)) == Err::<
                Stacks,
                ParseErrorView,
            >(e@),
        },
{
    while operators.len() > 0
        invariant
            spec_drain(stacks_of(operators@, operands@)) == spec_drain(
                stacks_of(old(operators)@, old(operands)@),
            ),
        decreases operators.len(),
    {
        match reduce(operators, operands) {
            Ok(()) => {},
            Err(e) => {
                return Err(e);
            },
        }
    }
    Ok(())
}

/// The state that the parser's variables hold.
pub open spec fn state_of(operators: Seq<Operator>, operands: Seq<Expr>, after_value: bool) -> ParserState {
    ParserState { stacks: stacks_of(operators, operands), after_value }
}

/// The tree that `tokens` denote, or why they denote none.
///
/// The result is exactly what `spec_parse` says of the tokens. In short:
/// `^` binds tighter than unary `-`, that tighter than `*` and `/`, those
/// tighter than `+` and `-`; `^` associates to the right, the other binary
/// operators to the left; parentheses group. A tree that is returned is an
/// arithmetic expression, and well formed where the tokens are.
pub fn parse(tokens: Vec<Token>) -> (r: Result<Expr, ParseError>)
    ensures
        match r {
            Ok(e) => {
                &&& spec_parse(token_views(tokens@)) == Ok::<ExprView, ParseErrorView>(e@)
                &&& e@.is_arithmetic()
                &&& tokens_wf(token_views(tokens@)) ==> e@.wf()
            },
            Err(e) => spec_parse(token_views(tokens@)) == Err::<ExprView, ParseErrorView>(e@),
        },
{
    let ghost ts = token_views(tokens@);
    proof {
        lemma_parse_arithmetic(ts);
    }
    let mut operators: Vec<Operator> = Vec::new();
    let mut operands: Vec<Expr> = Vec::new();
    let mut after_value = false;
    let mut i: usize = 0;
    proof {
        assert(ts.skip(0) == ts);
        assert(Expr::models(operands@) == Seq::<ExprView>::empty());
    }
    while i < tokens.len()
        invariant
            ts == token_views(tokens@),
            i <= tokens.len(),
            spec_run(ParserState::start(), ts) == spec_run(
                state_of(operators@, operands@, after_value),
                ts.skip(i as int),
            ),
        decreases tokens.len() - i,
    {
        let ghost st = state_of(operators@, operands@, after_value);
        let ghost before = operands@;
        proof {
            assert(ts.skip(i as int)[0] == tokens[i as int]@);
            assert(ts.skip(i as int).skip(1) == ts.skip(i + 1));
        }
        match &tokens[i] {
            Token::Number(n) => {
                let e = Expr::Number(n.clone());
                operands.push(e);
                after_value = true;
                assert(Expr::models(operands@) == Expr::models(before).push(e@));
            },
            Token::Identifier(name) => {
                let e = Expr::Identifier(name.clone());
                operands.push(e);
                after_value = true;
                assert(Expr::models(operands@) == Expr::models(before).push(e@));
            },
            Token::LParen => {
                operators.push(Operator::open_paren());
                after_value = false;
            },
            Token::RParen => {
                match close_paren(&mut operators, &mut operands) {
                    Ok(()) => {},
                    Err(e) => {
                        return Err(e);
                    },
                }
                after_value = true;
            },
            t => {
                match Operator::from_token(Some(t)) {
                    Some(op) => {
                        if after_value {
                            match reduce_while(&mut operators, &mut operands, op) {
                                Ok(()) => {},
                                Err(e) => {
                                    return Err(e);
                                },
                            }
                            operators.push(op);
                        } else if op == Operator::subtraction() {
                            operators.push(Operator::negation());
                        } else {
                            return Err(ParseError::UnexpectedOperator);
                        }
                        after_value = false;
                    },
                    None => {},
                }
            },
        }
        i += 1;
    }
    assert(ts.skip(i as int).len() == 0);
    match drain(&mut operators, &mut operands) {
        Ok(()) => {},
        Err(e) => {
            return Err(e);
        },
    }
    if operands.len() == 1 {
        match operands.pop() {
            Some(e) => Ok(e),
            None => Err(ParseError::IncompleteExpression),
        }
    } else {
        Err(ParseError::IncompleteExpression)
    }
}

} // verus!
