//! Tree-walking evaluation, its meaning as value terms, and the driver steps
//! that run a whole source text.

use vstd::prelude::*;

use crate::ast::{
    value_view, BinOp, BinaryEval, Expr, ExprKind, ExprKindView, ExprView, LitKind, LitView, Numeric,
    UnOp, UnaryEval,
};
use crate::errors::{runtime_error, LoxError, LoxErrorView};
use crate::parser::{parse, parse_tokens};
use crate::scanner::{lemma_scan_wf, scan, scan_tokens};
use crate::token::{tokens_view, Decimal, DecimalView, TokenView};

verus! {

/// A number as the number type's operations computed it from literals.
pub enum NumTerm {
    Literal(DecimalView),
    Plus(Box<NumTerm>, Box<NumTerm>),
    Minus(Box<NumTerm>, Box<NumTerm>),
    Times(Box<NumTerm>, Box<NumTerm>),
    Divide(Box<NumTerm>, Box<NumTerm>),
    Negate(Box<NumTerm>),
}

/// A truth value: a constant, or computed from comparisons of numbers.
pub enum TruthTerm {
    Known(bool),
    Equals(Box<NumTerm>, Box<NumTerm>),
    LessThan(Box<NumTerm>, Box<NumTerm>),
    Not(Box<TruthTerm>),
    Or(Box<TruthTerm>, Box<TruthTerm>),
}

/// The value of an expression as the language defines it: its kind, its text
/// or truth where these are fixed, and otherwise the terms that compute it.
pub enum ValueTerm {
    Number(NumTerm),
    String(Seq<char>),
    Boolean(TruthTerm),
    Nil,
}

/// Whether `n` is what the number type's operations give for the term `t`.
pub open spec fn denotes_number<N: Numeric>(n: N, t: NumTerm) -> bool
    decreases t,
{
    match t {
        NumTerm::Literal(d) => exists|x: Decimal| #![trigger call_ensures(N::from_decimal, (&x,), n)] x@ == d && call_ensures(N::from_decimal, (&x,), n),
        NumTerm::Plus(a, b) => exists|x: N, y: N|
            #![trigger call_ensures(N::plus, (&x, &y), n)]
            denotes_number(x, *a) && denotes_number(y, *b) && call_ensures(N::plus, (&x, &y), n),
        NumTerm::Minus(a, b) => exists|x: N, y: N|
            #![trigger call_ensures(N::minus, (&x, &y), n)]
            denotes_number(x, *a) && denotes_number(y, *b) && call_ensures(N::minus, (&x, &y), n),
        NumTerm::Times(a, b) => exists|x: N, y: N|
            #![trigger call_ensures(N::times, (&x, &y), n)]
            denotes_number(x, *a) && denotes_number(y, *b) && call_ensures(N::times, (&x, &y), n),
        NumTerm::Divide(a, b) => exists|x: N, y: N|
            #![trigger call_ensures(N::divide, (&x, &y), n)]
            denotes_number(x, *a) && denotes_number(y, *b) && call_ensures(N::divide, (&x, &y), n),
        NumTerm::Negate(a) => exists|x: N| #![trigger call_ensures(N::negate, (&x,), n)] denotes_number(x, *a) && call_ensures(N::negate, (&x,), n),
    }
}

/// Whether `b` is what the term `t` gives, comparisons made by the number type.
pub open spec fn denotes_truth<N: Numeric>(b: bool, t: TruthTerm) -> bool
    decreases t,
{
    match t {
        TruthTerm::Known(c) => b == c,
        TruthTerm::Equals(p, q) => exists|x: N, y: N|
            #![trigger call_ensures(N::equals, (&x, &y), b)]
            denotes_number(x, *p) && denotes_number(y, *q) && call_ensures(N::equals, (&x, &y), b),
        TruthTerm::LessThan(p, q) => exists|x: N, y: N|
            #![trigger call_ensures(N::less_than, (&x, &y), b)]
            denotes_number(x, *p) && denotes_number(y, *q) && call_ensures(N::less_than, (&x, &y), b),
        TruthTerm::Not(u) => denotes_truth::<N>(!b, *u),
        TruthTerm::Or(u, w) => if b {
            denotes_truth::<N>(true, *u) || denotes_truth::<N>(true, *w)
        } else {
            denotes_truth::<N>(false, *u) && denotes_truth::<N>(false, *w)
        },
    }
}

/// The value of a literal node.
pub open spec fn literal_term(l: LitView<DecimalView>) -> ValueTerm {
    match l {
        LitView::Number(d) => ValueTerm::Number(NumTerm::Literal(d)),
        LitView::String(s) => ValueTerm::String(s),
        LitView::Boolean(b) => ValueTerm::Boolean(TruthTerm::Known(b)),
        LitView::Nil => ValueTerm::Nil,
    }
}

/// A prefix operator applied to a value; `t` is the operator's token.
pub open spec fn apply_unary(op: UnOp, v: ValueTerm, t: TokenView) -> Result<
    ValueTerm,
    LoxErrorView,
> {
    match (op, v) {
        (UnOp::Minus, ValueTerm::Number(x)) => Ok(ValueTerm::Number(NumTerm::Negate(Box::new(x)))),
        (UnOp::Bang, ValueTerm::Boolean(b)) => Ok(ValueTerm::Boolean(TruthTerm::Not(Box::new(b)))),
        _ => Err(runtime_error(t.line, t.lexeme, "invalid operation"@)),
    }
}

/// An infix operator applied to two numbers: `+ - * /` compute a number,
/// `== != < <= > >=` a truth value; the others are undefined.
pub open spec fn number_op(op: BinOp, x: NumTerm, y: NumTerm) -> Option<ValueTerm> {
    match op {
        BinOp::Plus => Some(ValueTerm::Number(NumTerm::Plus(Box::new(x), Box::new(y)))),
        BinOp::Minus => Some(ValueTerm::Number(NumTerm::Minus(Box::new(x), Box::new(y)))),
        BinOp::Star => Some(ValueTerm::Number(NumTerm::Times(Box::new(x), Box::new(y)))),
        BinOp::Slash => Some(ValueTerm::Number(NumTerm::Divide(Box::new(x), Box::new(y)))),
        BinOp::EqualEqual => Some(ValueTerm::Boolean(TruthTerm::Equals(Box::new(x), Box::new(y)))),
        BinOp::BangEqual => Some(
            ValueTerm::Boolean(TruthTerm::Not(Box::new(TruthTerm::Equals(Box::new(x), Box::new(y))))),
        ),
        BinOp::Less => Some(ValueTerm::Boolean(TruthTerm::LessThan(Box::new(x), Box::new(y)))),
        BinOp::LessEqual => Some(
            ValueTerm::Boolean(
                TruthTerm::Or(
                    Box::new(TruthTerm::LessThan(Box::new(x), Box::new(y))),
                    Box::new(TruthTerm::Equals(Box::new(x), Box::new(y))),
                ),
            ),
        ),
        BinOp::Greater => Some(ValueTerm::Boolean(TruthTerm::LessThan(Box::new(y), Box::new(x)))),
        BinOp::GreaterEqual => Some(
            ValueTerm::Boolean(
                TruthTerm::Or(
                    Box::new(TruthTerm::LessThan(Box::new(y), Box::new(x))),
                    Box::new(TruthTerm::Equals(Box::new(x), Box::new(y))),
                ),
            ),
        ),
        _ => None,
    }
}

/// An infix operator applied to two values: arithmetic and comparison on two
/// numbers, concatenation of two texts, equality of two nils; any other
/// pairing is an error at the operator's token `t`.
pub open spec fn apply_binary(op: BinOp, a: ValueTerm, b: ValueTerm, t: TokenView) -> Result<
    ValueTerm,
    LoxErrorView,
> {
    let err = runtime_error(t.line, t.lexeme, "incompatible types"@);
    match (a, b) {
        (ValueTerm::Number(x), ValueTerm::Number(y)) => match number_op(op, x, y) {
            Some(v) => Ok(v),
            None => Err(err),
        },
        (ValueTerm::String(x), ValueTerm::String(y)) => if op == BinOp::Plus {
            Ok(ValueTerm::String(x + y))
        } else {
            Err(err)
        },
        (ValueTerm::Nil, ValueTerm::Nil) => if op == BinOp::EqualEqual {
            Ok(ValueTerm::Boolean(TruthTerm::Known(true)))
        } else if op == BinOp::BangEqual {
            Ok(ValueTerm::Boolean(TruthTerm::Known(false)))
        } else {
            Err(err)
        },
        _ => Err(err),
    }
}

/// The value of an expression tree, or its first runtime error: children are
/// evaluated left to right before their operator is applied.
pub open spec fn eval(e: ExprView) -> Result<ValueTerm, LoxErrorView>
    decreases e,
{
    match e.kind {
        ExprKindView::Literal(l) => Ok(literal_term(l)),
        ExprKindView::Grouping(x) => eval(*x),
        ExprKindView::Unary(x, op) => match eval(*x) {
            Err(err) => Err(err),
            Ok(v) => apply_unary(op, v, e.token),
        },
        ExprKindView::Binary(l, r, op) => match eval(*l) {
            Err(err) => Err(err),
            Ok(a) => match eval(*r) {
                Err(err) => Err(err),
                Ok(b) => apply_binary(op, a, b, e.token),
            },
        },
    }
}

/// Whether a runtime value is the value the term describes.
pub open spec fn fits<N: Numeric>(v: LitView<N>, s: ValueTerm) -> bool {
    match (v, s) {
        (LitView::Number(n), ValueTerm::Number(t)) => denotes_number(n, t),
        (LitView::String(x), ValueTerm::String(y)) => x == y,
        (LitView::Boolean(b), ValueTerm::Boolean(t)) => denotes_truth::<N>(b, t),
        (LitView::Nil, ValueTerm::Nil) => true,
        _ => false,
    }
}

/// Whether an outcome is the value the term describes, or the given error.
pub open spec fn outcome_fits<N: Numeric>(
    r: Result<LitView<N>, LoxErrorView>,
    s: Result<ValueTerm, LoxErrorView>,
) -> bool {
    match (r, s) {
        (Ok(v), Ok(sh)) => fits(v, sh),
        (Err(x), Err(y)) => x == y,
        _ => false,
    }
}

/// The views of an evaluation result.
pub open spec fn value_result_view<N>(r: Result<LitKind<N>, LoxError>) -> Result<
    LitView<N>,
    LoxErrorView,
> {
    match r {
        Ok(v) => Ok(value_view(v)),
        Err(e) => Err(e@),
    }
}

/// An infix operator applied to two numbers, where it is defined.
fn eval_numbers<N: Numeric>(
    op: BinOp,
    x: &N,
    y: &N,
    Ghost(tx): Ghost<NumTerm>,
    Ghost(ty): Ghost<NumTerm>,
) -> (r: Option<LitKind<N>>)
    requires
        denotes_number(*x, tx),
        denotes_number(*y, ty),
    ensures
        match r {
            Some(v) => number_op(op, tx, ty) is Some && fits(value_view(v), number_op(op, tx, ty)->0),
            None => number_op(op, tx, ty) is None,
        },
{
    let (bx, by) = (Ghost(Box::new(tx)), Ghost(Box::new(ty)));
    let v = match op {
        BinOp::Plus => {
            let n = N::plus(x, y);
            assert(denotes_number(n, NumTerm::Plus(bx@, by@)));
            let v = LitKind::Number(n);
            assert(fits(value_view(v), number_op(op, tx, ty)->0));
            v
        },
        BinOp::Minus => {
            let n = N::minus(x, y);
            assert(denotes_number(n, NumTerm::Minus(bx@, by@)));
            let v = LitKind::Number(n);
            assert(fits(value_view(v), number_op(op, tx, ty)->0));
            v
        },
        BinOp::Star => {
            let n = N::times(x, y);
            assert(denotes_number(n, NumTerm::Times(bx@, by@)));
            let v = LitKind::Number(n);
            assert(fits(value_view(v), number_op(op, tx, ty)->0));
            v
        },
        BinOp::Slash => {
            let n = N::divide(x, y);
            assert(denotes_number(n, NumTerm::Divide(bx@, by@)));
            let v = LitKind::Number(n);
            assert(fits(value_view(v), number_op(op, tx, ty)->0));
            v
        },
        BinOp::EqualEqual => {
            let eq = N::equals(x, y);
            assert(denotes_truth::<N>(eq, TruthTerm::Equals(bx@, by@)));
            let v = LitKind::Boolean(eq);
            assert(fits(value_view(v), number_op(op, tx, ty)->0));
            v
        },
        BinOp::BangEqual => {
            let eq = N::equals(x, y);
            assert(denotes_truth::<N>(eq, TruthTerm::Equals(bx@, by@)));
            assert(!!eq == eq);
            let v = LitKind::Boolean(!eq);
            assert(fits(value_view(v), number_op(op, tx, ty)->0));
            v
        },
        BinOp::Less => {
            let lt = N::less_than(x, y);
            assert(denotes_truth::<N>(lt, TruthTerm::LessThan(bx@, by@)));
            let v = LitKind::Boolean(lt);
            assert(fits(value_view(v), number_op(op, tx, ty)->0));
            v
        },
        BinOp::LessEqual => {
            let lt = N::less_than(x, y);
            let eq = N::equals(x, y);
            assert(denotes_truth::<N>(lt, TruthTerm::LessThan(bx@, by@)));
            assert(denotes_truth::<N>(eq, TruthTerm::Equals(bx@, by@)));
            let ghost u = Box::new(TruthTerm::LessThan(bx@, by@));
            let ghost w = Box::new(TruthTerm::Equals(bx@, by@));
            assert(denotes_truth::<N>(lt, *u) && denotes_truth::<N>(eq, *w));
            assert(denotes_truth::<N>(lt || eq, TruthTerm::Or(u, w)));
            let v = LitKind::Boolean(lt || eq);
            assert(fits(value_view(v), number_op(op, tx, ty)->0));
            v
        },
        BinOp::Greater => {
            let gt = N::less_than(y, x);
            assert(denotes_truth::<N>(gt, TruthTerm::LessThan(by@, bx@)));
            let v = LitKind::Boolean(gt);
            assert(fits(value_view(v), number_op(op, tx, ty)->0));
            v
        },
        BinOp::GreaterEqual => {
            let gt = N::less_than(y, x);
            let eq = N::equals(x, y);
            assert(denotes_truth::<N>(gt, TruthTerm::LessThan(by@, bx@)));
            assert(denotes_truth::<N>(eq, TruthTerm::Equals(bx@, by@)));
            let ghost u = Box::new(TruthTerm::LessThan(by@, bx@));
            let ghost w = Box::new(TruthTerm::Equals(bx@, by@));
            assert(denotes_truth::<N>(gt, *u) && denotes_truth::<N>(eq, *w));
            assert(denotes_truth::<N>(gt || eq, TruthTerm::Or(u, w)));
            let v = LitKind::Boolean(gt || eq);
            assert(fits(value_view(v), number_op(op, tx, ty)->0));
            v
        },
        _ => return None,
    };
    Some(v)
}

/// Evaluates an expression tree to its value, or to the runtime error of the
/// first operator applied to operands for which it is undefined.
pub fn evaluate<N: Numeric>(expr: &Expr) -> (r: Result<LitKind<N>, LoxError>)
    ensures
        outcome_fits(value_result_view(r), eval(expr@)),
    decreases expr,
{
    match &expr.kind {
        ExprKind::Literal(lit) => Ok(
            match lit {
                LitKind::Number(d) => {
                    let n = N::from_decimal(d);
                    assert(denotes_number(n, NumTerm::Literal(d@)));
                    LitKind::Number(n)
                },
                LitKind::String(s) => LitKind::String(s.clone()),
                LitKind::Boolean(b) => LitKind::Boolean(*b),
                LitKind::Nil => LitKind::Nil,
            },
        ),
        ExprKind::Grouping(x) => evaluate(x),
        ExprKind::Unary(x, op) => {
            let v = match evaluate::<N>(x) {
                Ok(v) => v,
                Err(e) => return Err(e),
            };
            let result = match v {
                LitKind::Number(n) => match op {
                    UnOp::Minus => {
                        let ghost t = eval(x@)->Ok_0->Number_0;
                        let m = N::negate(&n);
                        assert(denotes_number(m, NumTerm::Negate(Box::new(t))));
                        Some(LitKind::Number(m))
                    },
                    UnOp::Bang => None,
                },
                LitKind::Boolean(b) => match op.unary_eval(b) {
                    Some(nb) => {
                        let ghost t = eval(x@)->Ok_0->Boolean_0;
                        assert(!nb == b);
                        assert(denotes_truth::<N>(nb, TruthTerm::Not(Box::new(t))));
                        Some(LitKind::Boolean(nb))
                    },
                    None => None,
                },
                _ => None,
            };
            match result {
                Some(r) => Ok(r),
                None => Err(LoxError::new_runtime(&expr.token, "invalid operation")),
            }
        },
        ExprKind::Binary(l, r, op) => {
            let a = match evaluate::<N>(l) {
                Ok(v) => v,
                Err(e) => return Err(e),
            };
            let b = match evaluate::<N>(r) {
                Ok(v) => v,
                Err(e) => return Err(e),
            };
            let result = match (a, b) {
                (LitKind::Number(x), LitKind::Number(y)) => eval_numbers(
                    *op,
                    &x,
                    &y,
                    Ghost(eval(l@)->Ok_0->Number_0),
                    Ghost(eval(r@)->Ok_0->Number_0),
                ),
                (LitKind::String(x), LitKind::String(y)) => match op.bin_eval(x, y) {
                    Some(s) => Some(LitKind::String(s)),
                    None => None,
                },
                (LitKind::Nil, LitKind::Nil) => match op {
                    BinOp::EqualEqual => Some(LitKind::Boolean(true)),
                    BinOp::BangEqual => Some(LitKind::Boolean(false)),
                    _ => None,
                },
                _ => None,
            };
            match result {
                Some(v) => Ok(v),
                None => Err(LoxError::new_runtime(&expr.token, "incompatible types")),
            }
        },
    }
}

/// Whether two outcomes agree wherever no number decides: the same error, or
/// values of one kind, with the same text where they are texts.
pub open spec fn agree<N>(
    first: Result<LitView<N>, LoxErrorView>,
    second: Result<LitView<N>, LoxErrorView>,
) -> bool {
    match (first, second) {
        (Err(x), Err(y)) => x == y,
        (Ok(LitView::Number(_)), Ok(LitView::Number(_))) => true,
        (Ok(LitView::String(x)), Ok(LitView::String(y))) => x == y,
        (Ok(LitView::Boolean(_)), Ok(LitView::Boolean(_))) => true,
        (Ok(LitView::Nil), Ok(LitView::Nil)) => true,
        _ => false,
    }
}

/// The truth a term has whatever the number type does: that of a constant,
/// its negation, or a disjunction of such.
pub open spec fn fixed_truth(t: TruthTerm) -> Option<bool>
    decreases t,
{
    match t {
        TruthTerm::Known(b) => Some(b),
        TruthTerm::Not(u) => match fixed_truth(*u) {
            Some(b) => Some(!b),
            None => None,
        },
        TruthTerm::Or(u, w) => match (fixed_truth(*u), fixed_truth(*w)) {
            (Some(b), Some(c)) => Some(b || c),
            _ => None,
        },
        _ => None,
    }
}

/// A term with a fixed truth gives that truth.
pub proof fn lemma_fixed_truth<N: Numeric>(b: bool, t: TruthTerm)
    requires
        denotes_truth::<N>(b, t),
        fixed_truth(t) is Some,
    ensures
        b == fixed_truth(t)->0,
    decreases t,
{
    match t {
        TruthTerm::Not(u) => lemma_fixed_truth::<N>(!b, *u),
        TruthTerm::Or(u, w) => {
            if b {
                if denotes_truth::<N>(true, *u) {
                    lemma_fixed_truth::<N>(true, *u);
                } else {
                    lemma_fixed_truth::<N>(true, *w);
                }
            } else {
                lemma_fixed_truth::<N>(false, *u);
                lemma_fixed_truth::<N>(false, *w);
            }
        },
        _ => {},
    }
}

/// Evaluation keeps no state between runs: two evaluations of one tree fail
/// with the same error, or give values of one kind, with the same text where
/// they are texts and the same truth where the tree fixes it.
pub proof fn lemma_evaluation_repeatable<N: Numeric>(
    e: &Expr,
    first: Result<LitKind<N>, LoxError>,
    second: Result<LitKind<N>, LoxError>,
)
    requires
        outcome_fits(value_result_view(first), eval(e@)),
        outcome_fits(value_result_view(second), eval(e@)),
    ensures
        agree(value_result_view(first), value_result_view(second)),
        eval(e@) matches Ok(ValueTerm::Boolean(t)) && fixed_truth(t) is Some ==> value_result_view(
            first,
        ) == value_result_view(second),
{
    if let Ok(ValueTerm::Boolean(t)) = eval(e@) {
        if fixed_truth(t) is Some {
            if let (Ok(LitKind::Boolean(b1)), Ok(LitKind::Boolean(b2))) = (first, second) {
                lemma_fixed_truth::<N>(b1, t);
                lemma_fixed_truth::<N>(b2, t);
            }
        }
    }
}

/// The outcome of a whole source text: its tokens, their tree, its value; or
/// the first error on the way.
pub open spec fn run(s: Seq<char>) -> Result<ValueTerm, LoxErrorView> {
    match scan(s) {
        Err(e) => Err(e),
        Ok(ts) => match parse(ts) {
            Err(e) => Err(e),
            Ok(tree) => eval(tree),
        },
    }
}

/// Runs a source file: scans, parses and evaluates its text as one
/// expression.
#[allow(non_snake_case)]
pub fn runFile<N: Numeric>(source: &str) -> (r: Result<LitKind<N>, LoxError>)
    requires
        source@.len() < u32::MAX,
    ensures
        outcome_fits(value_result_view(r), run(source@)),
{
    let tokens = scan_tokens(source)?;
    proof {
        lemma_scan_wf(source@);
        assert(tokens_view(tokens@).len() == tokens@.len());
    }
    let tree = parse_tokens(&tokens)?;
    evaluate(&tree)
}

/// One step of an interactive session: a line read is run, and its outcome is
/// reported before the next line is read; the end of the input (`None`) ends
/// the session.
#[allow(non_snake_case)]
pub fn runPrompt<N: Numeric>(line: Option<&str>) -> (r: Option<Result<LitKind<N>, LoxError>>)
    requires
        line matches Some(l) ==> l@.len() < u32::MAX,
    ensures
        line is None ==> r is None,
        line matches Some(l) ==> r matches Some(outcome) && outcome_fits(
            value_result_view(outcome),
            run(l@),
        ),
{
    match line {
        None => None,
        Some(l) => Some(runFile(l)),
    }
}

/// Evaluation as a visitor of expression trees: it keeps the outcome of the
/// last tree it visited.
pub struct Interpreter<N> {
    pub result: Result<LitKind<N>, LoxError>,
}

impl<N: Numeric> Interpreter<N> {
    /// Evaluates `expr` and keeps the outcome.
    pub fn visit_expr(&mut self, expr: &Expr)
        ensures
            outcome_fits(value_result_view(final(self).result), eval(expr@)),
    {
        self.result = evaluate(expr);
    }
}

} // verus!
