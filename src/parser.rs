//! Recursive-descent parsing of a token sequence into one expression tree.

use vstd::prelude::*;

use crate::ast::{
    literal_view, BinOp, Expr, ExprKind, ExprKindView, ExprView, LitKind, LitView, UnOp,
};
use crate::errors::{parse_error, LoxError, LoxErrorView};
use crate::token::{
    eof_token, tokens_view, Decimal, DecimalView, Literal, LiteralView, Token,
    TokenType, TokenView,
};

verus! {

// The grammar, by ascending binding strength:
//
//     expression → equality
//     equality   → comparison ( ( "!=" | "==" ) comparison )*
//     comparison → term ( ( ">" | ">=" | "<" | "<=" ) term )*
//     term       → factor ( ( "-" | "+" ) factor )*
//     factor     → unary ( ( "/" | "*" ) unary )*
//     unary      → ( "!" | "-" ) unary | primary
//     primary    → NUMBER | STRING | "true" | "false" | "nil" | "(" expression ")"
//
// The binary levels are numbered: factor 1, term 2, comparison 3, equality 4.
// Level 0 is unary.

/// The level of `equality`, where an expression starts.
pub open spec fn top_level() -> nat {
    4
}

/// The operator that token category `t` stands for at binary level `level`.
pub open spec fn level_op(level: nat, t: TokenType) -> Option<BinOp> {
    if level == 4 && t == TokenType::BangEqual {
        Some(BinOp::BangEqual)
    } else if level == 4 && t == TokenType::EqualEqual {
        Some(BinOp::EqualEqual)
    } else if level == 3 && t == TokenType::Greater {
        Some(BinOp::Greater)
    } else if level == 3 && t == TokenType::GreaterEqual {
        Some(BinOp::GreaterEqual)
    } else if level == 3 && t == TokenType::Less {
        Some(BinOp::Less)
    } else if level == 3 && t == TokenType::LessEqual {
        Some(BinOp::LessEqual)
    } else if level == 2 && t == TokenType::Minus {
        Some(BinOp::Minus)
    } else if level == 2 && t == TokenType::Plus {
        Some(BinOp::Plus)
    } else if level == 1 && t == TokenType::Slash {
        Some(BinOp::Slash)
    } else if level == 1 && t == TokenType::Star {
        Some(BinOp::Star)
    } else {
        None
    }
}

/// The prefix operator that token category `t` stands for.
pub open spec fn prefix_op(t: TokenType) -> Option<UnOp> {
    if t == TokenType::Bang {
        Some(UnOp::Bang)
    } else if t == TokenType::Minus {
        Some(UnOp::Minus)
    } else {
        None
    }
}

/// The token at `pos`, or an end-of-input token past the end.
pub open spec fn token_at(ts: Seq<TokenView>, pos: int) -> TokenView {
    if 0 <= pos < ts.len() {
        ts[pos]
    } else {
        eof_token(0)
    }
}

/// The value of a literal token: fixed by its category for `true`, `false`
/// and `nil`, its decoded literal for a number or a string.
pub open spec fn literal_value(t: TokenView) -> LitView<DecimalView> {
    if t.token_type == TokenType::True {
        LitView::Boolean(true)
    } else if t.token_type == TokenType::False {
        LitView::Boolean(false)
    } else if t.token_type == TokenType::Nil {
        LitView::Nil
    } else {
        match t.literal {
            LiteralView::Number(d) => LitView::Number(d),
            LiteralView::Text(s) => LitView::String(s),
            LiteralView::Null => LitView::Nil,
        }
    }
}

/// Whether a token of this category is a literal by itself.
pub open spec fn is_literal_type(t: TokenType) -> bool {
    t == TokenType::True || t == TokenType::False || t == TokenType::Nil || t
        == TokenType::Number || t == TokenType::String
}

/// The outcome of parsing from a position: the tree and the position after it.
pub type ParseView = Result<(ExprView, int), LoxErrorView>;

/// The node made of `kind` and token `t`.
pub open spec fn node(kind: ExprKindView, t: TokenView) -> ExprView {
    ExprView { kind, token: t }
}

/// Parsing binary level `level` (or `unary`, at level 0) from `pos`.
pub open spec fn parse_level(ts: Seq<TokenView>, level: nat, pos: int) -> ParseView
    decreases ts.len() - pos, 2 * level + 2,
{
    if level == 0 {
        parse_unary_at(ts, pos)
    } else {
        match parse_level(ts, (level - 1) as nat, pos) {
            Err(e) => Err(e),
            Ok((left, q)) => {
                // an operand always ends after it starts (lemma_parse_level_wf)
                if pos < q <= ts.len() {
                    parse_rest(ts, level, left, q)
                } else {
                    Ok((left, q))
                }
            },
        }
    }
}

/// Folding the operators of level `level` and their operands from `pos` on
/// onto `left`, from left to right.
pub open spec fn parse_rest(ts: Seq<TokenView>, level: nat, left: ExprView, pos: int) -> ParseView
    decreases ts.len() - pos, 2 * level + 1,
{
    let t = token_at(ts, pos);
    if 0 <= pos < ts.len() && level >= 1 && level_op(level, t.token_type) is Some {
        let op = level_op(level, t.token_type)->0;
        match parse_level(ts, (level - 1) as nat, pos + 1) {
            Err(e) => Err(e),
            Ok((right, q)) => {
                let folded = node(ExprKindView::Binary(Box::new(left), Box::new(right), op), t);
                // an operand always ends after it starts (lemma_parse_level_wf)
                if pos < q <= ts.len() {
                    parse_rest(ts, level, folded, q)
                } else {
                    Ok((folded, q))
                }
            },
        }
    } else {
        Ok((left, pos))
    }
}

/// Parsing `unary` from `pos`.
pub open spec fn parse_unary_at(ts: Seq<TokenView>, pos: int) -> ParseView
    decreases ts.len() - pos, 1nat,
{
    let t = token_at(ts, pos);
    if 0 <= pos < ts.len() && prefix_op(t.token_type) is Some {
        match parse_unary_at(ts, pos + 1) {
            Err(e) => Err(e),
            Ok((operand, q)) => Ok(
                (node(ExprKindView::Unary(Box::new(operand), prefix_op(t.token_type)->0), t), q),
            ),
        }
    } else {
        parse_primary_at(ts, pos)
    }
}

/// Parsing `primary` from `pos`.
pub open spec fn parse_primary_at(ts: Seq<TokenView>, pos: int) -> ParseView
    decreases ts.len() - pos, 0nat,
{
    let t = token_at(ts, pos);
    if 0 <= pos < ts.len() && is_literal_type(t.token_type) {
        Ok((node(ExprKindView::Literal(literal_value(t)), t), pos + 1))
    } else if 0 <= pos < ts.len() && t.token_type == TokenType::LeftParen {
        match parse_level(ts, top_level(), pos + 1) {
            Err(e) => Err(e),
            Ok((inner, q)) => {
                let close = token_at(ts, q);
                if close.token_type == TokenType::RightParen {
                    Ok((node(ExprKindView::Grouping(Box::new(inner)), t), q + 1))
                } else {
                    Err(parse_error(close.line, close.lexeme, "expected closing )"@))
                }
            },
        }
    } else {
        Err(parse_error(t.line, t.lexeme, "expected expression"@))
    }
}

/// The tree of a whole token sequence: one expression followed by the
/// end-of-input token.
pub open spec fn parse(ts: Seq<TokenView>) -> Result<ExprView, LoxErrorView> {
    match parse_level(ts, top_level(), 0) {
        Err(e) => Err(e),
        Ok((e, q)) => {
            let t = token_at(ts, q);
            if t.token_type == TokenType::EOF {
                Ok(e)
            } else {
                Err(parse_error(t.line, t.lexeme, "expected end of expression"@))
            }
        },
    }
}

/// A token sequence the parser accepts as input: it ends with the end-of-input
/// token.
pub open spec fn tokens_wf(ts: Seq<TokenView>) -> bool {
    ts.len() > 0 && ts.last().token_type == TokenType::EOF
}

/// The views of a parsing outcome.
pub open spec fn parse_view(r: Result<(Expr, usize), LoxError>) -> ParseView {
    match r {
        Ok((e, q)) => Ok((e@, q as int)),
        Err(e) => Err(e@),
    }
}

/// A successful parse from `pos` ends after `pos` and before `len`.
pub open spec fn ends_within(r: Result<(Expr, usize), LoxError>, pos: int, len: int) -> bool {
    match r {
        Ok((_, q)) => pos < q < len,
        Err(_) => true,
    }
}

/// The views of a parser's result.
pub open spec fn parse_result_view(r: Result<Expr, LoxError>) -> Result<ExprView, LoxErrorView> {
    match r {
        Ok(e) => Ok(e@),
        Err(e) => Err(e@),
    }
}

/// The binary level an infix operator belongs to.
pub open spec fn op_level(op: BinOp) -> nat {
    match op {
        BinOp::BangEqual | BinOp::EqualEqual => 4,
        BinOp::Greater | BinOp::GreaterEqual | BinOp::Less | BinOp::LessEqual => 3,
        BinOp::Minus | BinOp::Plus => 2,
        BinOp::Slash | BinOp::Star => 1,
        BinOp::Bang | BinOp::Equal => 5,
    }
}

/// The level of a tree's root: that of its operator for a binary node, 0 for
/// any other node.
pub open spec fn root_level(e: ExprView) -> nat {
    match e.kind {
        ExprKindView::Binary(_, _, op) => op_level(op),
        _ => 0,
    }
}

/// Whether a tree respects the grammar's precedence and associativity: the
/// left operand of a binary operator binds at most as loosely as the operator,
/// its right operand strictly tighter (so operators of one level group to the
/// left), and the operand of a prefix operator is not a binary node unless it
/// is grouped.
pub open spec fn precedence_wf(e: ExprView) -> bool
    decreases e,
{
    match e.kind {
        ExprKindView::Literal(_) => true,
        ExprKindView::Grouping(x) => precedence_wf(*x),
        ExprKindView::Unary(x, _) => root_level(*x) == 0 && precedence_wf(*x),
        ExprKindView::Binary(l, r, op) => {
            &&& root_level(*l) <= op_level(op)
            &&& root_level(*r) < op_level(op)
            &&& precedence_wf(*l)
            &&& precedence_wf(*r)
        },
    }
}

/// What holds of every tree that level `level` parses from `pos`.
pub open spec fn parsed_well(r: ParseView, level: nat, pos: int, len: int) -> bool {
    match r {
        Ok((e, q)) => pos < q <= len && precedence_wf(e) && root_level(e) <= level,
        Err(_) => true,
    }
}

proof fn lemma_level_wf(ts: Seq<TokenView>, level: nat, pos: int)
    requires
        0 <= pos,
        level <= 4,
    ensures
        parsed_well(parse_level(ts, level, pos), level, pos, ts.len() as int),
    decreases ts.len() - pos, 2 * level + 2,
{
    if level == 0 {
        lemma_unary_wf(ts, pos);
    } else {
        lemma_level_wf(ts, (level - 1) as nat, pos);
        if let Ok((left, q)) = parse_level(ts, (level - 1) as nat, pos) {
            lemma_rest_wf(ts, level, left, q);
        }
    }
}

proof fn lemma_rest_wf(ts: Seq<TokenView>, level: nat, left: ExprView, pos: int)
    requires
        0 <= pos <= ts.len(),
        1 <= level <= 4,
        precedence_wf(left),
        root_level(left) <= level,
    ensures
        match parse_rest(ts, level, left, pos) {
            Ok((e, q)) => pos <= q <= ts.len() && precedence_wf(e) && root_level(e) <= level,
            Err(_) => true,
        },
    decreases ts.len() - pos, 2 * level + 1,
{
    let t = token_at(ts, pos);
    if 0 <= pos < ts.len() && level_op(level, t.token_type) is Some {
        let op = level_op(level, t.token_type)->0;
        lemma_level_wf(ts, (level - 1) as nat, pos + 1);
        if let Ok((right, q)) = parse_level(ts, (level - 1) as nat, pos + 1) {
            let folded = node(ExprKindView::Binary(Box::new(left), Box::new(right), op), t);
            assert(op_level(op) == level);
            assert(precedence_wf(folded));
            lemma_rest_wf(ts, level, folded, q);
        }
    }
}

proof fn lemma_unary_wf(ts: Seq<TokenView>, pos: int)
    requires
        0 <= pos,
    ensures
        parsed_well(parse_unary_at(ts, pos), 0, pos, ts.len() as int),
    decreases ts.len() - pos, 1nat,
{
    let t = token_at(ts, pos);
    if 0 <= pos < ts.len() && prefix_op(t.token_type) is Some {
        lemma_unary_wf(ts, pos + 1);
    } else {
        lemma_primary_wf(ts, pos);
    }
}

proof fn lemma_primary_wf(ts: Seq<TokenView>, pos: int)
    requires
        0 <= pos,
    ensures
        parsed_well(parse_primary_at(ts, pos), 0, pos, ts.len() as int),
    decreases ts.len() - pos, 0nat,
{
    let t = token_at(ts, pos);
    if 0 <= pos < ts.len() && !is_literal_type(t.token_type) && t.token_type
        == TokenType::LeftParen {
        lemma_level_wf(ts, top_level(), pos + 1);
        if let Ok((inner, q)) = parse_level(ts, top_level(), pos + 1) {
            if token_at(ts, q).token_type == TokenType::RightParen {
                assert(q < ts.len());
            }
        }
    }
}

/// Every operand the parser reads ends after it starts, so the conditions
/// `pos < q` in the definitions above always hold; and every tree it builds
/// respects precedence, with the operators of each level grouped to the left.
pub proof fn lemma_parse_level_wf(ts: Seq<TokenView>, level: nat, pos: int)
    requires
        0 <= pos,
        level <= top_level(),
    ensures
        parsed_well(parse_level(ts, level, pos), level, pos, ts.len() as int),
{
    lemma_level_wf(ts, level, pos);
}

/// Every tree the parser returns respects precedence, with the operators of
/// each level grouped to the left.
pub proof fn lemma_parse_precedence(ts: Seq<TokenView>)
    ensures
        parse(ts) matches Ok(e) ==> precedence_wf(e),
{
    lemma_level_wf(ts, top_level(), 0);
}

/// A literal token followed by the end-of-input token parses to that literal:
/// `true`, `false` and `nil` by their category, a number or a string by its
/// decoded literal.
pub proof fn lemma_parse_single_literal(ts: Seq<TokenView>)
    requires
        ts.len() == 2,
        is_literal_type(ts[0].token_type),
        ts[1].token_type == TokenType::EOF,
    ensures
        parse(ts) == Ok::<ExprView, LoxErrorView>(
            node(ExprKindView::Literal(literal_value(ts[0])), ts[0]),
        ),
{
    let e = node(ExprKindView::Literal(literal_value(ts[0])), ts[0]);
    assert(parse_primary_at(ts, 0) == Ok::<(ExprView, int), LoxErrorView>((e, 1)));
    assert(parse_unary_at(ts, 0) == Ok::<(ExprView, int), LoxErrorView>((e, 1)));
    assert(token_at(ts, 1) == ts[1]);
    assert(parse_level(ts, 0, 0) == Ok::<(ExprView, int), LoxErrorView>((e, 1)));
    assert(parse_rest(ts, 1, e, 1) == Ok::<(ExprView, int), LoxErrorView>((e, 1)));
    assert(parse_rest(ts, 2, e, 1) == Ok::<(ExprView, int), LoxErrorView>((e, 1)));
    assert(parse_rest(ts, 3, e, 1) == Ok::<(ExprView, int), LoxErrorView>((e, 1)));
    assert(parse_rest(ts, 4, e, 1) == Ok::<(ExprView, int), LoxErrorView>((e, 1)));
    assert(parse_level(ts, 1, 0) == Ok::<(ExprView, int), LoxErrorView>((e, 1)));
    assert(parse_level(ts, 2, 0) == Ok::<(ExprView, int), LoxErrorView>((e, 1)));
    assert(parse_level(ts, 3, 0) == Ok::<(ExprView, int), LoxErrorView>((e, 1)));
    assert(parse_level(ts, 4, 0) == Ok::<(ExprView, int), LoxErrorView>((e, 1)));
}

/// The operator that token category `t` stands for at binary level `level`.
fn op_at_level(level: u8, t: TokenType) -> (r: Option<BinOp>)
    ensures
        r == level_op(level as nat, t),
{
    if level == 4 && t == TokenType::BangEqual {
        Some(BinOp::BangEqual)
    } else if level == 4 && t == TokenType::EqualEqual {
        Some(BinOp::EqualEqual)
    } else if level == 3 && t == TokenType::Greater {
        Some(BinOp::Greater)
    } else if level == 3 && t == TokenType::GreaterEqual {
        Some(BinOp::GreaterEqual)
    } else if level == 3 && t == TokenType::Less {
        Some(BinOp::Less)
    } else if level == 3 && t == TokenType::LessEqual {
        Some(BinOp::LessEqual)
    } else if level == 2 && t == TokenType::Minus {
        Some(BinOp::Minus)
    } else if level == 2 && t == TokenType::Plus {
        Some(BinOp::Plus)
    } else if level == 1 && t == TokenType::Slash {
        Some(BinOp::Slash)
    } else if level == 1 && t == TokenType::Star {
        Some(BinOp::Star)
    } else {
        None
    }
}

/// The value of a literal token.
fn literal_of(t: &Token) -> (r: LitKind<Decimal>)
    requires
        is_literal_type(t.token_type),
    ensures
        literal_view(r) == literal_value(t@),
{
    if t.token_type == TokenType::True {
        LitKind::Boolean(true)
    } else if t.token_type == TokenType::False {
        LitKind::Boolean(false)
    } else if t.token_type == TokenType::Nil {
        LitKind::Nil
    } else {
        match &t.literal {
            Literal::Number(d) => LitKind::Number(d.duplicate()),
            Literal::Text(s) => LitKind::String(s.clone()),
            Literal::Null => LitKind::Nil,
        }
    }
}

proof fn lemma_token_view(tokens: Seq<Token>, i: int)
    requires
        0 <= i < tokens.len(),
    ensures
        tokens_view(tokens).len() == tokens.len(),
        token_at(tokens_view(tokens), i) == tokens[i]@,
{
}

// expression → equality
fn parse_expr(tokens: &Vec<Token>, pos: usize) -> (r: Result<(Expr, usize), LoxError>)
    requires
        tokens_wf(tokens_view(tokens@)),
        pos < tokens.len(),
    ensures
        parse_view(r) == parse_level(tokens_view(tokens@), top_level(), pos as int),
        ends_within(r, pos as int, tokens.len() as int),
    decreases tokens.len() - pos, 11nat,
{
    parse_binary(tokens, 4, pos)
}

// equality   → comparison ( ( "!=" | "==" ) comparison )*
// comparison → term ( ( ">" | ">=" | "<" | "<=" ) term )*
// term       → factor ( ( "-" | "+" ) factor )*
// factor     → unary ( ( "/" | "*" ) unary )*
fn parse_binary(tokens: &Vec<Token>, level: u8, pos: usize) -> (r: Result<(Expr, usize), LoxError>)
    requires
        tokens_wf(tokens_view(tokens@)),
        pos < tokens.len(),
        1 <= level <= 4,
    ensures
        parse_view(r) == parse_level(tokens_view(tokens@), level as nat, pos as int),
        ends_within(r, pos as int, tokens.len() as int),
    decreases tokens.len() - pos, 2 * level + 2,
{
    let ghost ts = tokens_view(tokens@);
    let first = if level == 1 {
        parse_unary(tokens, pos)
    } else {
        parse_binary(tokens, level - 1, pos)
    };
    let (mut left, mut q) = match first {
        Ok(x) => x,
        Err(e) => return Err(e),
    };
    loop
        invariant
            tokens_wf(ts),
            ts == tokens_view(tokens@),
            1 <= level <= 4,
            pos < q < tokens.len(),
            parse_level(ts, level as nat, pos as int) == parse_rest(ts, level as nat, left@, q as int),
        decreases tokens.len() - q,
    {
        proof {
            lemma_token_view(tokens@, q as int);
        }
        let t = &tokens[q];
        let op = match op_at_level(level, t.token_type) {
            Some(op) => op,
            None => return Ok((left, q)),
        };
        proof {
            assert(ts[ts.len() - 1].token_type == TokenType::EOF);
        }
        let next = if level == 1 {
            parse_unary(tokens, q + 1)
        } else {
            parse_binary(tokens, level - 1, q + 1)
        };
        match next {
            Err(e) => return Err(e),
            Ok((right, q2)) => {
                left = Expr::new(ExprKind::Binary(Box::new(left), Box::new(right), op), t.duplicate());
                q = q2;
            },
        }
    }
}

// unary → ( "!" | "-" ) unary | primary
fn parse_unary(tokens: &Vec<Token>, pos: usize) -> (r: Result<(Expr, usize), LoxError>)
    requires
        tokens_wf(tokens_view(tokens@)),
        pos < tokens.len(),
    ensures
        parse_view(r) == parse_unary_at(tokens_view(tokens@), pos as int),
        ends_within(r, pos as int, tokens.len() as int),
    decreases tokens.len() - pos, 1nat,
{
    proof {
        lemma_token_view(tokens@, pos as int);
    }
    let t = &tokens[pos];
    let op = if t.token_type == TokenType::Bang {
        UnOp::Bang
    } else if t.token_type == TokenType::Minus {
        UnOp::Minus
    } else {
        return parse_primary(tokens, pos);
    };
    match parse_unary(tokens, pos + 1) {
        Err(e) => Err(e),
        Ok((operand, q)) => Ok((Expr::new(ExprKind::Unary(Box::new(operand), op), t.duplicate()), q)),
    }
}

// primary → NUMBER | STRING | "true" | "false" | "nil" | "(" expression ")"
fn parse_primary(tokens: &Vec<Token>, pos: usize) -> (r: Result<(Expr, usize), LoxError>)
    requires
        tokens_wf(tokens_view(tokens@)),
        pos < tokens.len(),
    ensures
        parse_view(r) == parse_primary_at(tokens_view(tokens@), pos as int),
        ends_within(r, pos as int, tokens.len() as int),
    decreases tokens.len() - pos, 0nat,
{
    let ghost ts = tokens_view(tokens@);
    proof {
        lemma_token_view(tokens@, pos as int);
    }
    let t = &tokens[pos];
    let tt = t.token_type;
    if tt == TokenType::True || tt == TokenType::False || tt == TokenType::Nil || tt
        == TokenType::Number || tt == TokenType::String {
        proof {
            assert(ts[ts.len() - 1].token_type == TokenType::EOF);
        }
        Ok((Expr::new(ExprKind::Literal(literal_of(t)), t.duplicate()), pos + 1))
    } else if tt == TokenType::LeftParen {
        proof {
            assert(ts[ts.len() - 1].token_type == TokenType::EOF);
        }
        match parse_expr(tokens, pos + 1) {
            Err(e) => Err(e),
            Ok((inner, q)) => {
                proof {
                    lemma_token_view(tokens@, q as int);
                }
                let close = &tokens[q];
                if close.token_type == TokenType::RightParen {
                    Ok((Expr::new(ExprKind::Grouping(Box::new(inner)), t.duplicate()), q + 1))
                } else {
                    Err(LoxError::new_parse(close, "expected closing )"))
                }
            },
        }
    } else {
        Err(LoxError::new_parse(t, "expected expression"))
    }
}

/// Parses a whole token sequence into one expression tree, which must be
/// followed by the end-of-input token; fails with the parse error at the first
/// token that does not fit the grammar.
pub fn parse_tokens(tokens: &Vec<Token>) -> (r: Result<Expr, LoxError>)
    requires
        tokens_wf(tokens_view(tokens@)),
    ensures
        parse_result_view(r) == parse(tokens_view(tokens@)),
{
    match parse_expr(tokens, 0) {
        Err(e) => Err(e),
        Ok((e, q)) => {
            proof {
                lemma_token_view(tokens@, q as int);
            }
            let t = &tokens[q];
            if t.token_type == TokenType::EOF {
                Ok(e)
            } else {
                Err(LoxError::new_parse(t, "expected end of expression"))
            }
        },
    }
}

} // verus!
