use jilox::ast::{BinOp, BinaryEval, Expr, ExprKind, LitKind, Numeric, UnOp, UnaryEval};
use jilox::errors::{GenericError, LoxError};
use jilox::interpreter::{evaluate, runFile, runPrompt, Interpreter};
use jilox::parser::parse_tokens;
use jilox::scanner::scan_tokens;
use jilox::token::{Decimal, Literal, Token, TokenType};

#[derive(Clone, Copy, Debug, PartialEq)]
struct F32(f32);

impl Numeric for F32 {
    fn from_decimal(d: &Decimal) -> F32 {
        if d.fraction.is_empty() {
            F32(d.whole.parse().unwrap())
        } else {
            F32(format!("{}.{}", d.whole, d.fraction).parse().unwrap())
        }
    }
    fn plus(a: &F32, b: &F32) -> F32 {
        F32(a.0 + b.0)
    }
    fn minus(a: &F32, b: &F32) -> F32 {
        F32(a.0 - b.0)
    }
    fn times(a: &F32, b: &F32) -> F32 {
        F32(a.0 * b.0)
    }
    fn divide(a: &F32, b: &F32) -> F32 {
        F32(a.0 / b.0)
    }
    fn negate(a: &F32) -> F32 {
        F32(-a.0)
    }
    fn equals(a: &F32, b: &F32) -> bool {
        a.0 == b.0
    }
    fn less_than(a: &F32, b: &F32) -> bool {
        a.0 < b.0
    }
}

fn tree(source: &str) -> Result<Expr, LoxError> {
    parse_tokens(&scan_tokens(source).unwrap())
}

fn run(source: &str) -> Result<LitKind<F32>, LoxError> {
    runFile::<F32>(source)
}

fn number(x: f32) -> Result<LitKind<F32>, LoxError> {
    Ok(LitKind::Number(F32(x)))
}

fn runtime_error(line: u32, lexeme: &str, message: &str) -> LoxError {
    LoxError::RuntimeError(GenericError {
        line,
        lexeme: String::from(lexeme),
        message: String::from(message),
    })
}

fn parse_error(line: u32, lexeme: &str, message: &str) -> LoxError {
    LoxError::ParseError(GenericError {
        line,
        lexeme: String::from(lexeme),
        message: String::from(message),
    })
}

fn number_literal(e: &Expr) -> Decimal {
    match &e.kind {
        ExprKind::Literal(LitKind::Number(d)) => d.clone(),
        _ => panic!("not a number literal"),
    }
}

#[test]
fn unary_times_grouping_shape() {
    let e = tree("-123 * (45.67)").unwrap();
    assert_eq!(e.token.token_type, TokenType::Star);
    match &e.kind {
        ExprKind::Binary(l, r, BinOp::Star) => {
            match &l.kind {
                ExprKind::Unary(x, UnOp::Minus) => {
                    assert_eq!(number_literal(x), Decimal::new("123", ""))
                }
                _ => panic!("left operand is a negation"),
            }
            match &r.kind {
                ExprKind::Grouping(x) => assert_eq!(number_literal(x), Decimal::new("45", "67")),
                _ => panic!("right operand is a grouping"),
            }
        }
        _ => panic!("the root is a product"),
    }
}

#[test]
fn subtraction_is_left_associative() {
    let e = tree("1 - 2 - 3").unwrap();
    match &e.kind {
        ExprKind::Binary(l, r, BinOp::Minus) => {
            assert_eq!(number_literal(r), Decimal::new("3", ""));
            match &l.kind {
                ExprKind::Binary(a, b, BinOp::Minus) => {
                    assert_eq!(number_literal(a), Decimal::new("1", ""));
                    assert_eq!(number_literal(b), Decimal::new("2", ""));
                }
                _ => panic!("the left operand is the first difference"),
            }
        }
        _ => panic!("the root is a difference"),
    }
    assert_eq!(run("1 - 2 - 3"), number(-4.0));
}

#[test]
fn comparison_is_left_associative() {
    let e = tree("1 < 2 < 3").unwrap();
    match &e.kind {
        ExprKind::Binary(l, _, BinOp::Less) => {
            assert!(matches!(l.kind, ExprKind::Binary(_, _, BinOp::Less)))
        }
        _ => panic!("the root is a comparison"),
    }
}

#[test]
fn precedence_of_levels() {
    assert_eq!(run("1 + 2 * 3"), number(7.0));
    assert_eq!(run("(1 + 2) * 3"), number(9.0));
    assert_eq!(run("8 / 4 / 2"), number(1.0));
    assert_eq!(run("1 + 2 == 3"), Ok(LitKind::Boolean(true)));
    assert_eq!(run("--2"), number(2.0));
}

#[test]
fn concatenation_of_texts() {
    assert_eq!(run("\"a\" + \"b\""), Ok(LitKind::String(String::from("ab"))));
}

#[test]
fn number_plus_text_is_incompatible() {
    assert_eq!(run("1 +\n \"a\""), Err(runtime_error(1, "+", "incompatible types")));
}

#[test]
fn negation_of_booleans_and_numbers() {
    assert_eq!(run("!true"), Ok(LitKind::Boolean(false)));
    assert_eq!(run("!!false"), Ok(LitKind::Boolean(false)));
    assert_eq!(run("-(2)"), number(-2.0));
}

#[test]
fn minus_on_text_is_an_error() {
    assert_eq!(run("-\"x\""), Err(runtime_error(1, "-", "invalid operation")));
    assert_eq!(run("!1"), Err(runtime_error(1, "!", "invalid operation")));
    assert_eq!(run("-nil"), Err(runtime_error(1, "-", "invalid operation")));
}

#[test]
fn evaluating_twice_gives_the_same_outcome() {
    let e = tree("(1 + 2) * -3 / 4").unwrap();
    let first = evaluate::<F32>(&e);
    let second = evaluate::<F32>(&e);
    assert_eq!(first, second);
    assert_eq!(first, number(-2.25));
    let bad = tree("1 + \"a\"").unwrap();
    assert_eq!(evaluate::<F32>(&bad), evaluate::<F32>(&bad));
}

#[test]
fn missing_closing_parenthesis() {
    assert_eq!(tree("(1 + 2"), Err(parse_error(1, "", "expected closing )")));
    assert_eq!(run("(1 + 2 3"), Err(parse_error(1, "3", "expected closing )")));
}

#[test]
fn missing_operand() {
    assert_eq!(tree("1 +"), Err(parse_error(1, "", "expected expression")));
    assert_eq!(tree(""), Err(parse_error(1, "", "expected expression")));
    assert_eq!(tree("1 + )"), Err(parse_error(1, ")", "expected expression")));
}

#[test]
fn trailing_tokens_are_an_error() {
    assert_eq!(tree("1 2"), Err(parse_error(1, "2", "expected end of expression")));
}

#[test]
fn comparisons_of_numbers() {
    assert_eq!(run("1 < 2"), Ok(LitKind::Boolean(true)));
    assert_eq!(run("2 <= 2"), Ok(LitKind::Boolean(true)));
    assert_eq!(run("1 > 2"), Ok(LitKind::Boolean(false)));
    assert_eq!(run("2 >= 3"), Ok(LitKind::Boolean(false)));
    assert_eq!(run("2 == 2.0"), Ok(LitKind::Boolean(true)));
    assert_eq!(run("2 != 2"), Ok(LitKind::Boolean(false)));
}

#[test]
fn nil_equality() {
    assert_eq!(run("nil == nil"), Ok(LitKind::Boolean(true)));
    assert_eq!(run("nil != nil"), Ok(LitKind::Boolean(false)));
    assert_eq!(run("nil + nil"), Err(runtime_error(1, "+", "incompatible types")));
}

#[test]
fn undefined_pairings_are_incompatible() {
    assert_eq!(run("true == true"), Err(runtime_error(1, "==", "incompatible types")));
    assert_eq!(run("\"a\" == \"a\""), Err(runtime_error(1, "==", "incompatible types")));
    assert_eq!(run("\"a\" - \"a\""), Err(runtime_error(1, "-", "incompatible types")));
    assert_eq!(run("nil == 1"), Err(runtime_error(1, "==", "incompatible types")));
}

#[test]
fn division_by_zero_is_not_an_error() {
    assert_eq!(run("1 / 0"), number(f32::INFINITY));
}

#[test]
fn first_error_wins() {
    assert_eq!(
        run("(1 + \"a\") + (-\"b\")"),
        Err(runtime_error(1, "+", "incompatible types"))
    );
    assert_eq!(run("-\"b\" + (1 + \"a\")"), Err(runtime_error(1, "-", "invalid operation")));
}

#[test]
fn interpreter_keeps_the_last_outcome() {
    let mut it: Interpreter<F32> = Interpreter { result: Ok(LitKind::Nil) };
    it.visit_expr(&tree("2 * 3").unwrap());
    assert_eq!(it.result, number(6.0));
}

#[test]
fn prompt_runs_each_line_and_stops_at_end_of_input() {
    assert_eq!(runPrompt::<F32>(Some("1 + 1")), Some(number(2.0)));
    assert_eq!(
        runPrompt::<F32>(Some("(")),
        Some(Err(parse_error(1, "", "expected expression")))
    );
    assert_eq!(runPrompt::<F32>(None), None);
}

#[test]
fn text_and_truth_operators() {
    assert_eq!(
        BinOp::Plus.bin_eval(String::from("ab"), String::from("cd")),
        Some(String::from("abcd"))
    );
    assert_eq!(BinOp::Minus.bin_eval(String::from("ab"), String::from("cd")), None);
    assert_eq!(UnOp::Bang.unary_eval(true), Some(false));
    assert_eq!(UnOp::Minus.unary_eval(true), None);
}

#[test]
fn nil_token_is_nil_whatever_its_literal() {
    let tokens = vec![
        Token::new(
            TokenType::Nil,
            String::from("nil"),
            Literal::Text(String::from("x")),
            1,
        ),
        Token::new(TokenType::EOF, String::new(), Literal::Null, 1),
    ];
    let e = parse_tokens(&tokens).unwrap();
    assert_eq!(e.kind, ExprKind::Literal(LitKind::Nil));
    assert_eq!(e.token, tokens[0]);
}
