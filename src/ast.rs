//! The expression tree: operators, scalar values, nodes, and the number
//! interface the evaluator works through.

use vstd::prelude::*;

use crate::token::{Decimal, DecimalView, Token, TokenView};

verus! {

/// A prefix operator.
#[derive(Clone, Copy, Debug, PartialEq, Eq, Structural)]
pub enum UnOp {
    Minus,
    Bang,
}

/// An infix operator.
#[derive(Clone, Copy, Debug, PartialEq, Eq, Structural)]
pub enum BinOp {
    Bang,
    BangEqual,
    Equal,
    EqualEqual,
    Greater,
    GreaterEqual,
    Less,
    LessEqual,
    Plus,
    Minus,
    Star,
    Slash,
}

/// A scalar value: a number of type `N`, a text, a boolean or nil. With `N`
/// the number literal as written, it is what a literal node holds; with a
/// number type, it is a runtime value.
#[derive(Clone, Debug, PartialEq)]
pub enum LitKind<N> {
    Number(N),
    String(String),
    Boolean(bool),
    Nil,
}

/// A scalar value as a mathematical value, its numbers given by `M`.
pub enum LitView<M> {
    Number(M),
    String(Seq<char>),
    Boolean(bool),
    Nil,
}

/// The model of a runtime value: its text as a sequence, its number itself.
pub open spec fn value_view<N>(v: LitKind<N>) -> LitView<N> {
    match v {
        LitKind::Number(n) => LitView::Number(n),
        LitKind::String(s) => LitView::String(s@),
        LitKind::Boolean(b) => LitView::Boolean(b),
        LitKind::Nil => LitView::Nil,
    }
}

/// The model of a literal node's value.
pub open spec fn literal_view(v: LitKind<Decimal>) -> LitView<DecimalView> {
    match v {
        LitKind::Number(d) => LitView::Number(d@),
        LitKind::String(s) => LitView::String(s@),
        LitKind::Boolean(b) => LitView::Boolean(b),
        LitKind::Nil => LitView::Nil,
    }
}

/// Applying a binary operator to two values of type `T`, where it is defined.
pub trait BinaryEval<T> {
    fn bin_eval(&self, a: T, b: T) -> Option<T>;
}

/// Applying a prefix operator to a value of type `T`, where it is defined.
pub trait UnaryEval<T> {
    fn unary_eval(&self, a: T) -> Option<T>;
}

impl BinaryEval<String> for BinOp {
    /// Concatenation under `+`; no other operator is defined on two texts.
    fn bin_eval(&self, a: String, b: String) -> (r: Option<String>)
        ensures
            match r {
                Some(s) => *self == BinOp::Plus && s@ == a@ + b@,
                None => *self != BinOp::Plus,
            },
    {
        match self {
            BinOp::Plus => {
                let mut s = a;
                s.append(b.as_str());
                Some(s)
            },
            _ => None,
        }
    }
}

impl UnaryEval<bool> for UnOp {
    /// Negation under `!`; `-` is not defined on a boolean.
    fn unary_eval(&self, a: bool) -> (r: Option<bool>)
        ensures
            r == match self {
                UnOp::Bang => Some(!a),
                UnOp::Minus => None,
            },
    {
        match self {
            UnOp::Minus => None,
            UnOp::Bang => Some(!a),
        }
    }
}

/// The numbers of the language: how a number literal is read, and the
/// arithmetic and comparisons on numbers. The language fixes which operator
/// applies to which values; what these operations compute is the number type's
/// own affair (floating point, for one).
pub trait Numeric: Sized {
    /// The number a literal denotes.
    fn from_decimal(d: &Decimal) -> Self;

    /// `a + b`.
    fn plus(a: &Self, b: &Self) -> Self;

    /// `a - b`.
    fn minus(a: &Self, b: &Self) -> Self;

    /// `a * b`.
    fn times(a: &Self, b: &Self) -> Self;

    /// `a / b`; dividing by zero is no error at this level.
    fn divide(a: &Self, b: &Self) -> Self;

    /// `-a`.
    fn negate(a: &Self) -> Self;

    /// Whether `a == b`.
    fn equals(a: &Self, b: &Self) -> bool;

    /// Whether `a < b`.
    fn less_than(a: &Self, b: &Self) -> bool;
}

/// The shape of an expression node.
#[derive(Debug, PartialEq)]
pub enum ExprKind {
    Literal(LitKind<Decimal>),
    Unary(Box<Expr>, UnOp),
    Binary(Box<Expr>, Box<Expr>, BinOp),
    Grouping(Box<Expr>),
}

/// An expression node, with the token it came from: the literal, the
/// operator, or the opening parenthesis of a grouping.
#[derive(Debug, PartialEq)]
pub struct Expr {
    pub kind: ExprKind,
    pub token: Token,
}

/// The shape of an expression, as a mathematical value.
pub enum ExprKindView {
    Literal(LitView<DecimalView>),
    Unary(Box<ExprView>, UnOp),
    Binary(Box<ExprView>, Box<ExprView>, BinOp),
    Grouping(Box<ExprView>),
}

/// An expression tree, as a mathematical value.
pub struct ExprView {
    pub kind: ExprKindView,
    pub token: TokenView,
}

/// The model of an expression tree.
pub open spec fn expr_view(e: &Expr) -> ExprView
    decreases e,
{
    ExprView {
        kind: match &e.kind {
            ExprKind::Literal(l) => ExprKindView::Literal(literal_view(*l)),
            ExprKind::Unary(x, op) => ExprKindView::Unary(Box::new(expr_view(x)), *op),
            ExprKind::Binary(l, r, op) => ExprKindView::Binary(
                Box::new(expr_view(l)),
                Box::new(expr_view(r)),
                *op,
            ),
            ExprKind::Grouping(x) => ExprKindView::Grouping(Box::new(expr_view(x))),
        },
        token: e.token@,
    }
}

impl View for Expr {
    type V = ExprView;

    open spec fn view(&self) -> ExprView {
        expr_view(self)
    }
}

impl Expr {
    /// The node of this shape, from this token.
    pub fn new(kind: ExprKind, token: Token) -> (r: Expr)
        ensures
            r.kind == kind,
            r.token == token,
    {
        Expr { kind, token }
    }
}

} // verus!
