//! Tokens: their categories, texts, decoded literals and lines.

use vstd::prelude::*;

verus! {

/// The syntactic category of a token.
#[derive(Clone, Copy, Debug, PartialEq, Eq, Structural)]
pub enum TokenType {
    // Single-character tokens.
    LeftParen,
    RightParen,
    LeftBrace,
    RightBrace,
    Comma,
    Dot,
    Minus,
    Plus,
    Semicolon,
    Slash,
    Star,
    // One or two character tokens.
    Bang,
    BangEqual,
    Equal,
    EqualEqual,
    Greater,
    GreaterEqual,
    Less,
    LessEqual,
    // Literals.
    Identifier,
    String,
    Number,
    // Keywords.
    And,
    Class,
    Else,
    False,
    Fun,
    For,
    If,
    Nil,
    Or,
    Print,
    Return,
    Super,
    This,
    True,
    Var,
    While,
    EOF,
}

/// The category of an identifier-shaped word: its keyword, or `Identifier`.
pub open spec fn keyword_type(w: Seq<char>) -> TokenType {
    if w == seq!['a', 'n', 'd'] {
        TokenType::And
    } else if w == seq!['c', 'l', 'a', 's', 's'] {
        TokenType::Class
    } else if w == seq!['e', 'l', 's', 'e'] {
        TokenType::Else
    } else if w == seq!['f', 'a', 'l', 's', 'e'] {
        TokenType::False
    } else if w == seq!['f', 'o', 'r'] {
        TokenType::For
    } else if w == seq!['f', 'u', 'n'] {
        TokenType::Fun
    } else if w == seq!['i', 'f'] {
        TokenType::If
    } else if w == seq!['n', 'i', 'l'] {
        TokenType::Nil
    } else if w == seq!['o', 'r'] {
        TokenType::Or
    } else if w == seq!['p', 'r', 'i', 'n', 't'] {
        TokenType::Print
    } else if w == seq!['r', 'e', 't', 'u', 'r', 'n'] {
        TokenType::Return
    } else if w == seq!['s', 'u', 'p', 'e', 'r'] {
        TokenType::Super
    } else if w == seq!['t', 'h', 'i', 's'] {
        TokenType::This
    } else if w == seq!['t', 'r', 'u', 'e'] {
        TokenType::True
    } else if w == seq!['v', 'a', 'r'] {
        TokenType::Var
    } else if w == seq!['w', 'h', 'i', 'l', 'e'] {
        TokenType::While
    } else {
        TokenType::Identifier
    }
}

/// Whether the `n` characters of `s` spell `word`.
fn spells(s: &str, n: usize, word: &[char]) -> (r: bool)
    requires
        n == s@.len(),
    ensures
        r == (s@ == word@),
{
    if n != word.len() {
        return false;
    }
    let mut k: usize = 0;
    while k < n
        invariant
            n == s@.len(),
            n == word@.len(),
            k <= n,
            forall|m: int| 0 <= m < k ==> s@[m] == word@[m],
        decreases n - k,
    {
        if s.get_char(k) != word[k] {
            return false;
        }
        k = k + 1;
    }
    assert(s@ == word@);
    true
}

impl TokenType {
    /// The keyword that `identifier` spells, or `Identifier` when it spells none.
    pub fn from_keyword(identifier: &str) -> (r: TokenType)
        ensures
            r == keyword_type(identifier@),
    {
        let n = identifier.unicode_len();
        if spells(identifier, n, &['a', 'n', 'd']) {
            TokenType::And
        } else if spells(identifier, n, &['c', 'l', 'a', 's', 's']) {
            TokenType::Class
        } else if spells(identifier, n, &['e', 'l', 's', 'e']) {
            TokenType::Else
        } else if spells(identifier, n, &['f', 'a', 'l', 's', 'e']) {
            TokenType::False
        } else if spells(identifier, n, &['f', 'o', 'r']) {
            TokenType::For
        } else if spells(identifier, n, &['f', 'u', 'n']) {
            TokenType::Fun
        } else if spells(identifier, n, &['i', 'f']) {
            TokenType::If
        } else if spells(identifier, n, &['n', 'i', 'l']) {
            TokenType::Nil
        } else if spells(identifier, n, &['o', 'r']) {
            TokenType::Or
        } else if spells(identifier, n, &['p', 'r', 'i', 'n', 't']) {
            TokenType::Print
        } else if spells(identifier, n, &['r', 'e', 't', 'u', 'r', 'n']) {
            TokenType::Return
        } else if spells(identifier, n, &['s', 'u', 'p', 'e', 'r']) {
            TokenType::Super
        } else if spells(identifier, n, &['t', 'h', 'i', 's']) {
            TokenType::This
        } else if spells(identifier, n, &['t', 'r', 'u', 'e']) {
            TokenType::True
        } else if spells(identifier, n, &['v', 'a', 'r']) {
            TokenType::Var
        } else if spells(identifier, n, &['w', 'h', 'i', 'l', 'e']) {
            TokenType::While
        } else {
            TokenType::Identifier
        }
    }
}

/// A number literal as written: its digits before the point, and those after it
/// (empty where the literal has no point).
#[derive(Clone, Debug, PartialEq)]
pub struct Decimal {
    pub whole: String,
    pub fraction: String,
}

/// The digits of a number literal, before and after the point.
pub struct DecimalView {
    pub whole: Seq<char>,
    pub fraction: Seq<char>,
}

impl View for Decimal {
    type V = DecimalView;

    open spec fn view(&self) -> DecimalView {
        DecimalView { whole: self.whole@, fraction: self.fraction@ }
    }
}

impl Decimal {
    /// The number literal with these digits before and after the point.
    pub fn new(whole: &str, fraction: &str) -> (r: Decimal)
        ensures
            r@ == (DecimalView { whole: whole@, fraction: fraction@ }),
    {
        Decimal { whole: String::from_str(whole), fraction: String::from_str(fraction) }
    }

    /// A copy of this literal.
    pub fn duplicate(&self) -> (r: Decimal)
        ensures
            r@ == self@,
    {
        Decimal { whole: self.whole.clone(), fraction: self.fraction.clone() }
    }
}

/// The decoded value a token carries: none, a text, or a number.
#[derive(Clone, Debug, PartialEq)]
pub enum Literal {
    Null,
    Text(String),
    Number(Decimal),
}

/// The decoded value of a token, as a mathematical value.
pub enum LiteralView {
    Null,
    Text(Seq<char>),
    Number(DecimalView),
}

impl View for Literal {
    type V = LiteralView;

    open spec fn view(&self) -> LiteralView {
        match self {
            Literal::Null => LiteralView::Null,
            Literal::Text(t) => LiteralView::Text(t@),
            Literal::Number(d) => LiteralView::Number(d@),
        }
    }
}

impl Literal {
    /// A copy of this literal.
    pub fn duplicate(&self) -> (r: Literal)
        ensures
            r@ == self@,
    {
        match self {
            Literal::Null => Literal::Null,
            Literal::Text(t) => Literal::Text(t.clone()),
            Literal::Number(d) => Literal::Number(d.duplicate()),
        }
    }
}

/// One token of the source: its category, its text, its decoded literal and
/// the line it stands on (the first line is 1).
#[derive(Clone, Debug, PartialEq)]
pub struct Token {
    pub token_type: TokenType,
    pub lexeme: String,
    pub literal: Literal,
    pub line: u32,
}

/// A token as a mathematical value.
pub struct TokenView {
    pub token_type: TokenType,
    pub lexeme: Seq<char>,
    pub literal: LiteralView,
    pub line: nat,
}

impl View for Token {
    type V = TokenView;

    open spec fn view(&self) -> TokenView {
        TokenView {
            token_type: self.token_type,
            lexeme: self.lexeme@,
            literal: self.literal@,
            line: self.line as nat,
        }
    }
}

/// The views of a sequence of tokens.
pub open spec fn tokens_view(ts: Seq<Token>) -> Seq<TokenView> {
    ts.map_values(|t: Token| t@)
}

impl Token {
    /// The token with these four parts.
    pub fn new(token_type: TokenType, lexeme: String, literal: Literal, line: u32) -> (r: Token)
        ensures
            r@ == (TokenView { token_type, lexeme: lexeme@, literal: literal@, line: line as nat }),
    {
        Token { token_type, lexeme, literal, line }
    }

    /// A token that carries no literal.
    pub fn new_simple(token_type: TokenType, lexeme: String, line: u32) -> (r: Token)
        ensures
            r@ == simple_token(token_type, lexeme@, line as nat),
    {
        Token { token_type, lexeme, literal: Literal::Null, line }
    }

    /// A number token with the given digits before and after the point.
    pub fn new_number(lexeme: String, whole: String, fraction: String, line: u32) -> (r: Token)
        ensures
            r@ == number_token(whole@, fraction@, lexeme@, line as nat),
    {
        Token {
            token_type: TokenType::Number,
            lexeme,
            literal: Literal::Number(Decimal { whole, fraction }),
            line,
        }
    }

    /// A copy of this token.
    pub fn duplicate(&self) -> (r: Token)
        ensures
            r@ == self@,
    {
        Token {
            token_type: self.token_type,
            lexeme: self.lexeme.clone(),
            literal: self.literal.duplicate(),
            line: self.line,
        }
    }
}

/// A token without a literal.
pub open spec fn simple_token(token_type: TokenType, lexeme: Seq<char>, line: nat) -> TokenView {
    TokenView { token_type, lexeme, literal: LiteralView::Null, line }
}

/// A number token.
pub open spec fn number_token(
    whole: Seq<char>,
    fraction: Seq<char>,
    lexeme: Seq<char>,
    line: nat,
) -> TokenView {
    TokenView {
        token_type: TokenType::Number,
        lexeme,
        literal: LiteralView::Number(DecimalView { whole, fraction }),
        line,
    }
}

/// Whether a token carries the literal its category calls for: a number for a
/// number token, a text for a string token, none for any other.
pub open spec fn literal_matches(t: TokenView) -> bool {
    if t.token_type == TokenType::Number {
        t.literal is Number
    } else if t.token_type == TokenType::String {
        t.literal is Text
    } else {
        t.literal is Null
    }
}

/// The end-of-input token on the given line.
pub open spec fn eof_token(line: nat) -> TokenView {
    simple_token(TokenType::EOF, Seq::empty(), line)
}

} // verus!
