//! Expression trees, and the operators that build them.
use vstd::prelude::*;
use crate::token::{is_identifier, is_numeral, Numeral, Token, TokenView};

verus! {

/// Which of two adjacent operators of equal precedence binds first.
#[derive(Debug, PartialEq, Eq, Structural, Clone, Copy)]
pub enum Associativity {
    Left,
    Right,
}

/// An operator as the parser sees it: its symbol, how tightly it binds
/// (higher binds tighter), how it associates, and how many operands it takes.
///
/// Two operators are the same when their four fields are.
#[derive(Debug, PartialEq, Eq, Structural, Clone, Copy)]
pub struct Operator {
    pub symbol: char,
    pub precedence: i32,
    pub associativity: Associativity,
    pub arity: i32,
}

impl Operator {
    /// Binary `+`.
    #[verifier::allow_in_spec]
    pub fn addition() -> Operator
        returns
            (Operator { symbol: '+', precedence: 40, associativity: Associativity::Left, arity: 2 }),
    {
        Operator { symbol: '+', precedence: 40, associativity: Associativity::Left, arity: 2 }
    }

    /// Binary `-`.
    #[verifier::allow_in_spec]
    pub fn subtraction() -> Operator
        returns
            (Operator { symbol: '-', precedence: 40, associativity: Associativity::Left, arity: 2 }),
    {
        Operator { symbol: '-', precedence: 40, associativity: Associativity::Left, arity: 2 }
    }

    /// Binary `*`.
    #[verifier::allow_in_spec]
    pub fn multiplication() -> Operator
        returns
            (Operator { symbol: '*', precedence: 50, associativity: Associativity::Left, arity: 2 }),
    {
        Operator { symbol: '*', precedence: 50, associativity: Associativity::Left, arity: 2 }
    }

    /// Binary `/`.
    #[verifier::allow_in_spec]
    pub fn division() -> Operator
        returns
            (Operator { symbol: '/', precedence: 50, associativity: Associativity::Left, arity: 2 }),
    {
        Operator { symbol: '/', precedence: 50, associativity: Associativity::Left, arity: 2 }
    }

    /// Binary `^`, which associates to the right.
    #[verifier::allow_in_spec]
    pub fn exponent() -> Operator
        returns
            (Operator { symbol: '^', precedence: 60, associativity: Associativity::Right, arity: 2 }),
    {
        Operator { symbol: '^', precedence: 60, associativity: Associativity::Right, arity: 2 }
    }

    /// Unary `-`. It binds tighter than `*` and looser than `^`.
    #[verifier::allow_in_spec]
    pub fn negation() -> Operator
        returns
            (Operator { symbol: '-', precedence: 55, associativity: Associativity::Right, arity: 1 }),
    {
        Operator { symbol: '-', precedence: 55, associativity: Associativity::Right, arity: 1 }
    }

    /// The mark that `(` leaves on the operator stack. It takes no operand
    /// and binds looser than every operator, so nothing reduces across it.
    #[verifier::allow_in_spec]
    pub fn open_paren() -> Operator
        returns
            (Operator { symbol: '(', precedence: 0, associativity: Associativity::Left, arity: 0 }),
    {
        Operator { symbol: '(', precedence: 0, associativity: Associativity::Left, arity: 0 }
    }

    /// The binary operator that the token `t` denotes, if it denotes one.
    pub open spec fn of_token(t: Option<TokenView>) -> Option<Operator> {
        match t {
            Some(TokenView::Plus) => Some(Operator::addition()),
            Some(TokenView::Minus) => Some(Operator::subtraction()),
            Some(TokenView::Asterisk) => Some(Operator::multiplication()),
            Some(TokenView::Slash) => Some(Operator::division()),
            Some(TokenView::Carat) => Some(Operator::exponent()),
            _ => None,
        }
    }

    /// The binary operator that the token `t` denotes: one for each of
    /// `+ - * / ^`, none for any other token or for no token.
    pub fn from_token(t: Option<&Token>) -> (r: Option<Operator>)
        ensures
            r == Operator::of_token(
                match t {
                    Some(t) => Some(t@),
                    None => None,
                },
            ),
    {
        match t {
            Some(Token::Plus) => Some(Operator::addition()),
            Some(Token::Minus) => Some(Operator::subtraction()),
            Some(Token::Asterisk) => Some(Operator::multiplication()),
            Some(Token::Slash) => Some(Operator::division()),
            Some(Token::Carat) => Some(Operator::exponent()),
            _ => None,
        }
    }

    /// The operator is one of the five binary operators or the negation.
    pub open spec fn is_fold(self) -> bool {
        ||| self == Operator::addition()
        ||| self == Operator::subtraction()
        ||| self == Operator::multiplication()
        ||| self == Operator::division()
        ||| self == Operator::exponent()
        ||| self == Operator::negation()
    }
}

/// A node of the syntax tree. A node owns its children.
#[derive(Debug, PartialEq, Eq)]
pub enum Expr {
    Number(Numeral),
    Identifier(String),
    Add(Box<Expr>, Box<Expr>),
    Sub(Box<Expr>, Box<Expr>),
    Mul(Box<Expr>, Box<Expr>),
    Div(Box<Expr>, Box<Expr>),
    Exp(Box<Expr>, Box<Expr>),
    Neg(Box<Expr>),
    Let(String, Box<Expr>),
    Block(Vec<Expr>),
    FunctionCall(Vec<Expr>),
}

/// A syntax tree as a mathematical value.
pub enum ExprView {
    Number(Seq<char>),
    Identifier(Seq<char>),
    Add(Box<ExprView>, Box<ExprView>),
    Sub(Box<ExprView>, Box<ExprView>),
    Mul(Box<ExprView>, Box<ExprView>),
    Div(Box<ExprView>, Box<ExprView>),
    Exp(Box<ExprView>, Box<ExprView>),
    Neg(Box<ExprView>),
    Let(Seq<char>, Box<ExprView>),
    Block(Seq<ExprView>),
    FunctionCall(Seq<ExprView>),
}

impl Expr {
    /// The tree as a mathematical value.
    pub open spec fn model(self) -> ExprView
        decreases self,
    {
        match self {
            Expr::Number(n) => ExprView::Number(n@),
            Expr::Identifier(name) => ExprView::Identifier(name@),
            Expr::Add(l, r) => ExprView::Add(Box::new(l.model()), Box::new(r.model())),
            Expr::Sub(l, r) => ExprView::Sub(Box::new(l.model()), Box::new(r.model())),
            Expr::Mul(l, r) => ExprView::Mul(Box::new(l.model()), Box::new(r.model())),
            Expr::Div(l, r) => ExprView::Div(Box::new(l.model()), Box::new(r.model())),
            Expr::Exp(l, r) => ExprView::Exp(Box::new(l.model()), Box::new(r.model())),
            Expr::Neg(e) => ExprView::Neg(Box::new(e.model())),
            Expr::Let(name, e) => ExprView::Let(name@, Box::new(e.model())),
            Expr::Block(items) => ExprView::Block(Expr::models(items@)),
            Expr::FunctionCall(args) => ExprView::FunctionCall(Expr::models(args@)),
        }
    }

    /// The trees of `items` as mathematical values, in order.
    pub open spec fn models(items: Seq<Expr>) -> Seq<ExprView>
        decreases items,
    {
        Seq::new(
            items.len(),
            |i: int|
                if 0 <= i < items.len() {
                    items[i].model()
                } else {
                    ExprView::Block(Seq::empty())
                },
        )
    }

    /// The node that the operator `o` builds from its operands: a negation
    /// from `lhs` alone, a binary node from `lhs` and `rhs`. There is none
    /// where `o` is no operator of the grammar, or is binary and `rhs` is
    /// missing.
    pub fn from_op(o: Operator, lhs: Expr, rhs: Option<Expr>) -> (r: Option<Expr>)
        ensures
            option_view(r) == ExprView::from_op(o, lhs@, option_view(rhs)),
    {
        if o == Operator::negation() {
            Some(Expr::Neg(Box::new(lhs)))
        } else {
            match rhs {
                None => None,
                Some(rhs) => {
                    if o == Operator::addition() {
                        Some(Expr::Add(Box::new(lhs), Box::new(rhs)))
                    } else if o == Operator::subtraction() {
                        Some(Expr::Sub(Box::new(lhs), Box::new(rhs)))
                    } else if o == Operator::multiplication() {
                        Some(Expr::Mul(Box::new(lhs), Box::new(rhs)))
                    } else if o == Operator::division() {
                        Some(Expr::Div(Box::new(lhs), Box::new(rhs)))
                    } else if o == Operator::exponent() {
                        Some(Expr::Exp(Box::new(lhs), Box::new(rhs)))
                    } else {
                        None
                    }
                },
            }
        }
    }
}

impl View for Expr {
    type V = ExprView;

    open spec fn view(&self) -> ExprView {
        self.model()
    }
}

/// The view of an optional tree.
pub open spec fn option_view(e: Option<Expr>) -> Option<ExprView> {
    match e {
        Some(e) => Some(e@),
        None => None,
    }
}

impl ExprView {
    /// The node that the operator `o` builds from its operands.
    pub open spec fn from_op(o: Operator, lhs: ExprView, rhs: Option<ExprView>) -> Option<ExprView> {
        if o == Operator::negation() {
            Some(ExprView::Neg(Box::new(lhs)))
        } else {
            match rhs {
                None => None,
                Some(rhs) => {
                    if o == Operator::addition() {
                        Some(ExprView::Add(Box::new(lhs), Box::new(rhs)))
                    } else if o == Operator::subtraction() {
                        Some(ExprView::Sub(Box::new(lhs), Box::new(rhs)))
                    } else if o == Operator::multiplication() {
                        Some(ExprView::Mul(Box::new(lhs), Box::new(rhs)))
                    } else if o == Operator::division() {
                        Some(ExprView::Div(Box::new(lhs), Box::new(rhs)))
                    } else if o == Operator::exponent() {
                        Some(ExprView::Exp(Box::new(lhs), Box::new(rhs)))
                    } else {
                        None
                    }
                },
            }
        }
    }

    /// The tree is an arithmetic expression: numbers and identifiers joined
    /// by the five binary operators and the negation.
    pub open spec fn is_arithmetic(self) -> bool
        decreases self,
    {
        match self {
            ExprView::Number(_) => true,
            ExprView::Identifier(_) => true,
            ExprView::Add(l, r) => l.is_arithmetic() && r.is_arithmetic(),
            ExprView::Sub(l, r) => l.is_arithmetic() && r.is_arithmetic(),
            ExprView::Mul(l, r) => l.is_arithmetic() && r.is_arithmetic(),
            ExprView::Div(l, r) => l.is_arithmetic() && r.is_arithmetic(),
            ExprView::Exp(l, r) => l.is_arithmetic() && r.is_arithmetic(),
            ExprView::Neg(e) => e.is_arithmetic(),
            _ => false,
        }
    }

    /// Every number in the tree is a numeral, and every name has the shape
    /// of an identifier.
    pub open spec fn wf(self) -> bool
        decreases self,
    {
        match self {
            ExprView::Number(text) => is_numeral(text),
            ExprView::Identifier(name) => is_identifier(name),
            ExprView::Add(l, r) => l.wf() && r.wf(),
            ExprView::Sub(l, r) => l.wf() && r.wf(),
            ExprView::Mul(l, r) => l.wf() && r.wf(),
            ExprView::Div(l, r) => l.wf() && r.wf(),
            ExprView::Exp(l, r) => l.wf() && r.wf(),
            ExprView::Neg(e) => e.wf(),
            ExprView::Let(name, e) => is_identifier(name) && e.wf(),
            ExprView::Block(items) => forall|i: int| 0 <= i < items.len() ==> (#[trigger] items[i]).wf(),
            ExprView::FunctionCall(args) => forall|i: int| 0 <= i < args.len() ==> (#[trigger] args[i]).wf(),
        }
    }
}

} // verus!
