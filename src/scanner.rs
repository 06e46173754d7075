//! Scanning a source text into tokens.

use vstd::prelude::*;

use itertools::Itertools;

use crate::errors::{parse_error, GenericError, LoxError, LoxErrorView};
use crate::token::{
    eof_token, keyword_type, literal_matches, number_token, simple_token, tokens_view, Literal,
    LiteralView, Token, TokenType, TokenView,
};

verus! {

/// Whether `c` has Unicode's Alphabetic property.
pub uninterp spec fn alphabetic(c: char) -> bool;

/// Whether `c` is alphabetic or numeric in Unicode's sense.
pub uninterp spec fn alphanumeric(c: char) -> bool;

/// Relies on `char::is_alphabetic`, a function of the character alone.
#[verifier::external_body]
fn is_alphabetic(c: char) -> (r: bool)
    ensures
        r == alphabetic(c),
{
    c.is_alphabetic()
}

/// Relies on `char::is_alphanumeric`, a function of the character alone.
#[verifier::external_body]
fn is_alphanumeric(c: char) -> (r: bool)
    ensures
        r == alphanumeric(c),
{
    c.is_alphanumeric()
}

/// The characters of `s` in order.
fn chars_of(s: &str) -> (r: Vec<char>)
    ensures
        r@ == s@,
{
    broadcast use vstd::string::axiom_spec_iter;

    let mut r: Vec<char> = Vec::new();
    for c in it: s.chars()
        invariant
            it.seq() == s@,
            r@ == it.seq().take(it.index() as int),
    {
        r.push(c);
    }
    assert(r@ =~= s@);
    r
}

/// Relies on collecting characters into a `String`: the text of `cs[from..to]`.
#[verifier::external_body]
fn string_of(cs: &[char], from: usize, to: usize) -> (r: String)
    requires
        from <= to <= cs@.len(),
    ensures
        r@ == cs@.subrange(from as int, to as int),
{
    cs[from..to].iter().collect()
}

/// A decimal digit.
pub open spec fn is_digit(c: char) -> bool {
    '0' <= c && c <= '9'
}

/// The characters that a run inside a token is made of.
#[derive(Clone, Copy, Debug, PartialEq, Eq, Structural)]
pub enum CharClass {
    /// Anything but a double quote: the body of a string literal.
    NotQuote,
    /// Anything but a newline: the body of a comment.
    NotNewline,
    /// A decimal digit.
    Digit,
    /// A letter, a digit or an underscore: the rest of an identifier.
    Word,
}

impl CharClass {
    /// Whether `c` belongs to this class.
    pub open spec fn spec_accepts(self, c: char) -> bool {
        match self {
            CharClass::NotQuote => c != '"',
            CharClass::NotNewline => c != '\n',
            CharClass::Digit => is_digit(c),
            CharClass::Word => alphanumeric(c) || c == '_',
        }
    }

    /// Whether `c` belongs to this class.
    pub fn accepts(&self, c: char) -> (r: bool)
        ensures
            r == self.spec_accepts(c),
    {
        match self {
            CharClass::NotQuote => c != '"',
            CharClass::NotNewline => c != '\n',
            CharClass::Digit => '0' <= c && c <= '9',
            CharClass::Word => is_alphanumeric(c) || c == '_',
        }
    }
}

/// The first index at or after `i` whose character `class` does not accept,
/// or the length of `s`.
pub open spec fn run_end(s: Seq<char>, i: int, class: CharClass) -> int
    decreases s.len() - i,
{
    if 0 <= i < s.len() && class.spec_accepts(s[i]) {
        run_end(s, i + 1, class)
    } else {
        i
    }
}

/// A run ends at or after its start, and within the text.
pub proof fn lemma_run_end(s: Seq<char>, i: int, class: CharClass)
    requires
        0 <= i,
    ensures
        i <= run_end(s, i, class),
        i <= s.len() ==> run_end(s, i, class) <= s.len(),
    decreases s.len() - i,
{
    if 0 <= i < s.len() && class.spec_accepts(s[i]) {
        lemma_run_end(s, i + 1, class);
    }
}

/// Relies on `Itertools::peeking_take_while` over a slice iterator: it yields
/// the characters from `start` on while `class` accepts them, and stops before
/// the first one it rejects; the result is how many it yielded.
#[verifier::external_body]
fn run_length(chars: &[char], start: usize, class: CharClass) -> (n: usize)
    requires
        start <= chars@.len(),
    ensures
        start + n == run_end(chars@, start as int, class),
{
    chars[start..].iter().peeking_take_while(|c| class.accepts(**c)).count()
}

/// The first index at or after `start` whose character `class` does not
/// accept, or the length of `chars`.
fn scan_run(chars: &[char], start: usize, class: CharClass) -> (end: usize)
    requires
        start <= chars@.len(),
    ensures
        end == run_end(chars@, start as int, class),
        start <= end <= chars@.len(),
{
    let len = chars.len();
    let n = run_length(chars, start, class);
    proof {
        lemma_run_end(chars@, start as int, class);
    }
    assert(start + n <= len);
    start + n
}

/// The number of newlines in `s`.
pub open spec fn newlines(s: Seq<char>) -> nat
    decreases s.len(),
{
    if s.len() == 0 {
        0
    } else {
        newlines(s.drop_last()) + if s.last() == '\n' {
            1nat
        } else {
            0nat
        }
    }
}

/// The category of a character that is a token by itself.
pub open spec fn single_char_type(c: char) -> Option<TokenType> {
    if c == '(' {
        Some(TokenType::LeftParen)
    } else if c == ')' {
        Some(TokenType::RightParen)
    } else if c == '{' {
        Some(TokenType::LeftBrace)
    } else if c == '}' {
        Some(TokenType::RightBrace)
    } else if c == ',' {
        Some(TokenType::Comma)
    } else if c == '.' {
        Some(TokenType::Dot)
    } else if c == '-' {
        Some(TokenType::Minus)
    } else if c == '+' {
        Some(TokenType::Plus)
    } else if c == ';' {
        Some(TokenType::Semicolon)
    } else if c == '*' {
        Some(TokenType::Star)
    } else {
        None
    }
}

/// For a character that may be followed by `=`: its category alone, and with `=`.
pub open spec fn equal_pair_type(c: char) -> Option<(TokenType, TokenType)> {
    if c == '!' {
        Some((TokenType::Bang, TokenType::BangEqual))
    } else if c == '=' {
        Some((TokenType::Equal, TokenType::EqualEqual))
    } else if c == '<' {
        Some((TokenType::Less, TokenType::LessEqual))
    } else if c == '>' {
        Some((TokenType::Greater, TokenType::GreaterEqual))
    } else {
        None
    }
}

/// `t` in front of the tokens of `rest`, or the error of `rest`.
pub open spec fn cons(
    t: TokenView,
    rest: Result<Seq<TokenView>, LoxErrorView>,
) -> Result<Seq<TokenView>, LoxErrorView> {
    match rest {
        Ok(ts) => Ok(seq![t] + ts),
        Err(e) => Err(e),
    }
}

/// `ts` in front of the tokens of `rest`, or the error of `rest`.
pub open spec fn prepend(
    ts: Seq<TokenView>,
    rest: Result<Seq<TokenView>, LoxErrorView>,
) -> Result<Seq<TokenView>, LoxErrorView> {
    match rest {
        Ok(us) => Ok(ts + us),
        Err(e) => Err(e),
    }
}

/// The tokens of `s` from index `i` on, where line `line` starts at or before
/// `i`, ending with the end-of-input token; or the first error.
pub open spec fn scan_from(s: Seq<char>, i: int, line: nat) -> Result<
    Seq<TokenView>,
    LoxErrorView,
>
    decreases s.len() - i,
{
    if i < 0 || i >= s.len() {
        Ok(seq![eof_token(line)])
    } else {
        let c = s[i];
        if c == ' ' || c == '\r' || c == '\t' {
            scan_from(s, i + 1, line)
        } else if c == '\n' {
            scan_from(s, i + 1, line + 1)
        } else if single_char_type(c) is Some {
            cons(simple_token(single_char_type(c)->0, seq![c], line), scan_from(s, i + 1, line))
        } else if equal_pair_type(c) is Some {
            let (alone, with_equal) = equal_pair_type(c)->0;
            if i + 1 < s.len() && s[i + 1] == '=' {
                cons(simple_token(with_equal, seq![c, '='], line), scan_from(s, i + 2, line))
            } else {
                cons(simple_token(alone, seq![c], line), scan_from(s, i + 1, line))
            }
        } else if c == '/' {
            if i + 1 < s.len() && s[i + 1] == '/' {
                proof {
                    lemma_run_end(s, i + 2, CharClass::NotNewline);
                }
                scan_from(s, run_end(s, i + 2, CharClass::NotNewline), line)
            } else {
                cons(simple_token(TokenType::Slash, seq![c], line), scan_from(s, i + 1, line))
            }
        } else if c == '"' {
            let j = run_end(s, i + 1, CharClass::NotQuote);
            proof {
                lemma_run_end(s, i + 1, CharClass::NotQuote);
            }
            if j >= s.len() {
                Err(parse_error(line, s.subrange(i, s.len() as int), "unterminated string"@))
            } else {
                let text = s.subrange(i + 1, j);
                let end_line = line + newlines(text);
                cons(
                    TokenView {
                        token_type: TokenType::String,
                        lexeme: s.subrange(i, j + 1),
                        literal: LiteralView::Text(text),
                        line: end_line,
                    },
                    scan_from(s, j + 1, end_line),
                )
            }
        } else if is_digit(c) {
            let j = run_end(s, i + 1, CharClass::Digit);
            proof {
                lemma_run_end(s, i + 1, CharClass::Digit);
            }
            if j < s.len() && s[j] == '.' {
                let k = run_end(s, j + 1, CharClass::Digit);
                proof {
                    lemma_run_end(s, j + 1, CharClass::Digit);
                }
                if k == j + 1 {
                    Err(parse_error(line, s.subrange(i, j + 1), "invalid number"@))
                } else {
                    cons(
                        number_token(s.subrange(i, j), s.subrange(j + 1, k), s.subrange(i, k), line),
                        scan_from(s, k, line),
                    )
                }
            } else {
                cons(
                    number_token(s.subrange(i, j), Seq::empty(), s.subrange(i, j), line),
                    scan_from(s, j, line),
                )
            }
        } else if alphabetic(c) || c == '_' {
            let j = run_end(s, i + 1, CharClass::Word);
            proof {
                lemma_run_end(s, i + 1, CharClass::Word);
            }
            let word = s.subrange(i, j);
            cons(simple_token(keyword_type(word), word, line), scan_from(s, j, line))
        } else {
            Err(parse_error(line, seq![c], "unexpected character"@))
        }
    }
}

/// The tokens of a whole source text, or the first error.
pub open spec fn scan(s: Seq<char>) -> Result<Seq<TokenView>, LoxErrorView> {
    scan_from(s, 0, 1)
}

/// The views of a scanning result.
pub open spec fn scan_result_view(r: Result<Vec<Token>, LoxError>) -> Result<
    Seq<TokenView>,
    LoxErrorView,
> {
    match r {
        Ok(ts) => Ok(tokens_view(ts@)),
        Err(e) => Err(e@),
    }
}

/// The category of a character that is a token by itself.
fn single_char(c: char) -> (r: Option<TokenType>)
    ensures
        r == single_char_type(c),
{
    if c == '(' {
        Some(TokenType::LeftParen)
    } else if c == ')' {
        Some(TokenType::RightParen)
    } else if c == '{' {
        Some(TokenType::LeftBrace)
    } else if c == '}' {
        Some(TokenType::RightBrace)
    } else if c == ',' {
        Some(TokenType::Comma)
    } else if c == '.' {
        Some(TokenType::Dot)
    } else if c == '-' {
        Some(TokenType::Minus)
    } else if c == '+' {
        Some(TokenType::Plus)
    } else if c == ';' {
        Some(TokenType::Semicolon)
    } else if c == '*' {
        Some(TokenType::Star)
    } else {
        None
    }
}

/// For a character that may be followed by `=`: its category alone, and with `=`.
fn equal_pair(c: char) -> (r: Option<(TokenType, TokenType)>)
    ensures
        r == equal_pair_type(c),
{
    if c == '!' {
        Some((TokenType::Bang, TokenType::BangEqual))
    } else if c == '=' {
        Some((TokenType::Equal, TokenType::EqualEqual))
    } else if c == '<' {
        Some((TokenType::Less, TokenType::LessEqual))
    } else if c == '>' {
        Some((TokenType::Greater, TokenType::GreaterEqual))
    } else {
        None
    }
}

/// The number of newlines in `cs[from..to]`.
fn count_newlines(cs: &[char], from: usize, to: usize) -> (r: usize)
    requires
        from <= to <= cs@.len(),
    ensures
        r == newlines(cs@.subrange(from as int, to as int)),
        r <= to - from,
{
    let mut count: usize = 0;
    let mut k: usize = from;
    while k < to
        invariant
            from <= k <= to <= cs@.len(),
            count == newlines(cs@.subrange(from as int, k as int)),
            count <= k - from,
        decreases to - k,
    {
        assert(cs@.subrange(from as int, k + 1).drop_last() =~= cs@.subrange(from as int, k as int));
        if cs[k] == '\n' {
            count = count + 1;
        }
        k = k + 1;
    }
    count
}

proof fn lemma_push_token(tokens: Seq<Token>, t: Token, rest: Result<Seq<TokenView>, LoxErrorView>)
    ensures
        prepend(tokens_view(tokens), cons(t@, rest)) == prepend(tokens_view(tokens.push(t)), rest),
{
    assert(tokens_view(tokens.push(t)) =~= tokens_view(tokens).push(t@));
    if let Ok(us) = rest {
        assert(tokens_view(tokens) + (seq![t@] + us) =~= tokens_view(tokens).push(t@) + us);
    }
}

/// A scanned token sequence: the end-of-input token, with an empty lexeme,
/// comes last and nowhere else, and each token carries the literal its
/// category calls for.
pub open spec fn scanned_wf(ts: Seq<TokenView>) -> bool {
    &&& ts.len() > 0
    &&& ts.last().token_type == TokenType::EOF
    &&& ts.last().lexeme == Seq::<char>::empty()
    &&& forall|k: int| 0 <= k < ts.len() - 1 ==> (#[trigger] ts[k]).token_type != TokenType::EOF
    &&& forall|k: int| 0 <= k < ts.len() ==> literal_matches(#[trigger] ts[k])
}

proof fn lemma_cons_wf(t: TokenView, rest: Result<Seq<TokenView>, LoxErrorView>)
    requires
        t.token_type != TokenType::EOF,
        literal_matches(t),
        rest is Ok ==> scanned_wf(rest->Ok_0),
    ensures
        cons(t, rest) is Ok ==> scanned_wf(cons(t, rest)->Ok_0),
{
    if let Ok(us) = rest {
        let ts = seq![t] + us;
        assert forall|k: int| 0 <= k < ts.len() - 1 implies (#[trigger] ts[k]).token_type
            != TokenType::EOF by {
            if k > 0 {
                assert(ts[k] == us[k - 1]);
            }
        }
        assert forall|k: int| 0 <= k < ts.len() implies literal_matches(#[trigger] ts[k]) by {
            if k > 0 {
                assert(ts[k] == us[k - 1]);
            }
        }
        assert(ts.last() == us.last());
    }
}

proof fn lemma_scan_from_wf(s: Seq<char>, i: int, line: nat)
    ensures
        scan_from(s, i, line) is Ok ==> scanned_wf(scan_from(s, i, line)->Ok_0),
    decreases s.len() - i,
{
    if i < 0 || i >= s.len() {
        return;
    }
    let c = s[i];
    if c == ' ' || c == '\r' || c == '\t' {
        lemma_scan_from_wf(s, i + 1, line);
    } else if c == '\n' {
        lemma_scan_from_wf(s, i + 1, line + 1);
    } else if single_char_type(c) is Some {
        lemma_scan_from_wf(s, i + 1, line);
        lemma_cons_wf(simple_token(single_char_type(c)->0, seq![c], line), scan_from(s, i + 1, line));
    } else if equal_pair_type(c) is Some {
        let (alone, with_equal) = equal_pair_type(c)->0;
        if i + 1 < s.len() && s[i + 1] == '=' {
            lemma_scan_from_wf(s, i + 2, line);
            lemma_cons_wf(simple_token(with_equal, seq![c, '='], line), scan_from(s, i + 2, line));
        } else {
            lemma_scan_from_wf(s, i + 1, line);
            lemma_cons_wf(simple_token(alone, seq![c], line), scan_from(s, i + 1, line));
        }
    } else if c == '/' {
        if i + 1 < s.len() && s[i + 1] == '/' {
            lemma_run_end(s, i + 2, CharClass::NotNewline);
            lemma_scan_from_wf(s, run_end(s, i + 2, CharClass::NotNewline), line);
        } else {
            lemma_scan_from_wf(s, i + 1, line);
            lemma_cons_wf(simple_token(TokenType::Slash, seq![c], line), scan_from(s, i + 1, line));
        }
    } else if c == '"' {
        let j = run_end(s, i + 1, CharClass::NotQuote);
        lemma_run_end(s, i + 1, CharClass::NotQuote);
        if j < s.len() {
            let text = s.subrange(i + 1, j);
            let end_line = line + newlines(text);
            lemma_scan_from_wf(s, j + 1, end_line);
            lemma_cons_wf(
                TokenView {
                    token_type: TokenType::String,
                    lexeme: s.subrange(i, j + 1),
                    literal: LiteralView::Text(text),
                    line: end_line,
                },
                scan_from(s, j + 1, end_line),
            );
        }
    } else if is_digit(c) {
        let j = run_end(s, i + 1, CharClass::Digit);
        lemma_run_end(s, i + 1, CharClass::Digit);
        if j < s.len() && s[j] == '.' {
            let k = run_end(s, j + 1, CharClass::Digit);
            lemma_run_end(s, j + 1, CharClass::Digit);
            if k != j + 1 {
                lemma_scan_from_wf(s, k, line);
                lemma_cons_wf(
                    number_token(s.subrange(i, j), s.subrange(j + 1, k), s.subrange(i, k), line),
                    scan_from(s, k, line),
                );
            }
        } else {
            lemma_scan_from_wf(s, j, line);
            lemma_cons_wf(
                number_token(s.subrange(i, j), Seq::empty(), s.subrange(i, j), line),
                scan_from(s, j, line),
            );
        }
    } else if alphabetic(c) || c == '_' {
        let j = run_end(s, i + 1, CharClass::Word);
        lemma_run_end(s, i + 1, CharClass::Word);
        let word = s.subrange(i, j);
        lemma_scan_from_wf(s, j, line);
        lemma_cons_wf(simple_token(keyword_type(word), word, line), scan_from(s, j, line));
    }
}

/// Every successful scan ends with the end-of-input token, has it nowhere
/// else, and gives each token the literal its category calls for.
pub proof fn lemma_scan_wf(s: Seq<char>)
    ensures
        scan(s) is Ok ==> scanned_wf(scan(s)->Ok_0),
{
    lemma_scan_from_wf(s, 0, 1);
}

/// Whether tokens of this category come from a string, a number or a word
/// (an identifier or a keyword).
pub open spec fn is_literal_or_word(t: TokenType) -> bool {
    match t {
        TokenType::String | TokenType::Number | TokenType::Identifier | TokenType::And
        | TokenType::Class | TokenType::Else | TokenType::False | TokenType::Fun | TokenType::For
        | TokenType::If | TokenType::Nil | TokenType::Or | TokenType::Print | TokenType::Return
        | TokenType::Super | TokenType::This | TokenType::True | TokenType::Var
        | TokenType::While => true,
        _ => false,
    }
}

/// The text of a punctuation or operator token of category `t`.
pub open spec fn operator_text(t: TokenType) -> Seq<char> {
    match t {
        TokenType::LeftParen => seq!['('],
        TokenType::RightParen => seq![')'],
        TokenType::LeftBrace => seq!['{'],
        TokenType::RightBrace => seq!['}'],
        TokenType::Comma => seq![','],
        TokenType::Dot => seq!['.'],
        TokenType::Minus => seq!['-'],
        TokenType::Plus => seq!['+'],
        TokenType::Semicolon => seq![';'],
        TokenType::Slash => seq!['/'],
        TokenType::Star => seq!['*'],
        TokenType::Bang => seq!['!'],
        TokenType::BangEqual => seq!['!', '='],
        TokenType::Equal => seq!['='],
        TokenType::EqualEqual => seq!['=', '='],
        TokenType::Greater => seq!['>'],
        TokenType::GreaterEqual => seq!['>', '='],
        TokenType::Less => seq!['<'],
        TokenType::LessEqual => seq!['<', '='],
        _ => Seq::empty(),
    }
}

/// The newlines of two texts add up.
pub proof fn lemma_newlines_concat(a: Seq<char>, b: Seq<char>)
    ensures
        newlines(a + b) == newlines(a) + newlines(b),
    decreases b.len(),
{
    if b.len() > 0 {
        assert((a + b).drop_last() =~= a + b.drop_last());
        lemma_newlines_concat(a, b.drop_last());
    } else {
        assert(a + b =~= a);
    }
}

proof fn lemma_newlines_free(a: Seq<char>)
    requires
        forall|k: int| 0 <= k < a.len() ==> a[k] != '\n',
    ensures
        newlines(a) == 0,
    decreases a.len(),
{
    if a.len() > 0 {
        lemma_newlines_free(a.drop_last());
    }
}

/// The newlines from `i` on are those of `s[i..j]` and those from `j` on.
proof fn lemma_newlines_split(s: Seq<char>, i: int, j: int)
    requires
        0 <= i <= j <= s.len(),
    ensures
        newlines(s.subrange(i, s.len() as int)) == newlines(s.subrange(i, j)) + newlines(
            s.subrange(j, s.len() as int),
        ),
{
    assert(s.subrange(i, s.len() as int) =~= s.subrange(i, j) + s.subrange(j, s.len() as int));
    lemma_newlines_concat(s.subrange(i, j), s.subrange(j, s.len() as int));
}

/// A scan result made of operator tokens only: each but the last has its
/// operator's text and no literal.
pub open spec fn operators_only(ts: Seq<TokenView>) -> bool {
    forall|k: int|
        0 <= k < ts.len() - 1 ==> {
            &&& (#[trigger] ts[k]).lexeme == operator_text(ts[k].token_type)
            &&& ts[k].literal is Null
            &&& ts[k].lexeme.len() > 0
        }
}

proof fn lemma_cons_operator(t: TokenView, rest: Result<Seq<TokenView>, LoxErrorView>)
    requires
        cons(t, rest) is Ok,
        forall|k: int|
            0 <= k < cons(t, rest)->Ok_0.len() ==> !is_literal_or_word(
                (#[trigger] cons(t, rest)->Ok_0[k]).token_type,
            ),
    ensures
        rest is Ok,
        forall|k: int|
            0 <= k < rest->Ok_0.len() ==> !is_literal_or_word((#[trigger] rest->Ok_0[k]).token_type),
        !is_literal_or_word(t.token_type),
        cons(t, rest)->Ok_0.last() == rest->Ok_0.last() || rest->Ok_0.len() == 0,
{
    let ts = cons(t, rest)->Ok_0;
    let us = rest->Ok_0;
    assert(ts[0] == t);
    assert forall|k: int| 0 <= k < us.len() implies !is_literal_or_word(
        (#[trigger] us[k]).token_type,
    ) by {
        assert(ts[k + 1] == us[k]);
    }
}

proof fn lemma_operators_cons(t: TokenView, rest: Result<Seq<TokenView>, LoxErrorView>)
    requires
        cons(t, rest) is Ok,
        t.lexeme == operator_text(t.token_type),
        t.literal is Null,
        t.lexeme.len() > 0,
        operators_only(rest->Ok_0),
        rest->Ok_0.len() > 0,
    ensures
        operators_only(cons(t, rest)->Ok_0),
        cons(t, rest)->Ok_0.last() == rest->Ok_0.last(),
{
    let ts = cons(t, rest)->Ok_0;
    let us = rest->Ok_0;
    assert forall|k: int| 0 <= k < ts.len() - 1 implies {
        &&& (#[trigger] ts[k]).lexeme == operator_text(ts[k].token_type)
        &&& ts[k].literal is Null
        &&& ts[k].lexeme.len() > 0
    } by {
        if k > 0 {
            assert(ts[k] == us[k - 1]);
        }
    }
}

#[verifier::rlimit(40)]
proof fn lemma_scan_from_operators(s: Seq<char>, i: int, line: nat)
    requires
        0 <= i <= s.len(),
        scan_from(s, i, line) is Ok,
        forall|k: int|
            0 <= k < scan_from(s, i, line)->Ok_0.len() ==> !is_literal_or_word(
                (#[trigger] scan_from(s, i, line)->Ok_0[k]).token_type,
            ),
    ensures
        scan_from(s, i, line)->Ok_0.len() > 0,
        scan_from(s, i, line)->Ok_0.last() == eof_token(
            line + newlines(s.subrange(i, s.len() as int)),
        ),
        operators_only(scan_from(s, i, line)->Ok_0),
    decreases s.len() - i,
{
    let n = s.len() as int;
    if i >= n {
        assert(s.subrange(i, n) =~= Seq::<char>::empty());
        return;
    }
    let c = s[i];
    assert(s.subrange(i, i + 1) =~= seq![c]);
    assert(newlines(seq![c]) == if c == '\n' { 1nat } else { 0nat }) by {
        assert(seq![c].drop_last() =~= Seq::<char>::empty());
        assert(newlines(Seq::<char>::empty()) == 0);
        assert(seq![c].last() == c);
    }
    if c == ' ' || c == '\r' || c == '\t' || c == '\n' {
        let next_line = if c == '\n' { line + 1 } else { line };
        lemma_newlines_split(s, i, i + 1);
        lemma_scan_from_operators(s, i + 1, next_line);
    } else if single_char_type(c) is Some {
        let t = simple_token(single_char_type(c)->0, seq![c], line);
        lemma_cons_operator(t, scan_from(s, i + 1, line));
        lemma_newlines_split(s, i, i + 1);
        lemma_scan_from_operators(s, i + 1, line);
        lemma_operators_cons(t, scan_from(s, i + 1, line));
    } else if equal_pair_type(c) is Some {
        let (alone, with_equal) = equal_pair_type(c)->0;
        if i + 1 < n && s[i + 1] == '=' {
            let t = simple_token(with_equal, seq![c, '='], line);
            lemma_cons_operator(t, scan_from(s, i + 2, line));
            assert(s.subrange(i, i + 2) =~= seq![c, '=']);
            lemma_newlines_free(s.subrange(i, i + 2));
            lemma_newlines_split(s, i, i + 2);
            lemma_scan_from_operators(s, i + 2, line);
            lemma_operators_cons(t, scan_from(s, i + 2, line));
        } else {
            let t = simple_token(alone, seq![c], line);
            lemma_cons_operator(t, scan_from(s, i + 1, line));
            lemma_newlines_split(s, i, i + 1);
            lemma_scan_from_operators(s, i + 1, line);
            lemma_operators_cons(t, scan_from(s, i + 1, line));
        }
    } else if c == '/' {
        if i + 1 < n && s[i + 1] == '/' {
            let j = run_end(s, i + 2, CharClass::NotNewline);
            lemma_run_end(s, i + 2, CharClass::NotNewline);
            assert forall|k: int| i + 2 <= k < j implies s[k] != '\n' by {
                lemma_run_end_accepts(s, i + 2, CharClass::NotNewline, k);
            }
            lemma_newlines_free(s.subrange(i, j));
            lemma_newlines_split(s, i, j);
            lemma_scan_from_operators(s, j, line);
        } else {
            let t = simple_token(TokenType::Slash, seq![c], line);
            lemma_cons_operator(t, scan_from(s, i + 1, line));
            lemma_newlines_split(s, i, i + 1);
            lemma_scan_from_operators(s, i + 1, line);
            lemma_operators_cons(t, scan_from(s, i + 1, line));
        }
    } else if c == '"' {
        let j = run_end(s, i + 1, CharClass::NotQuote);
        lemma_run_end(s, i + 1, CharClass::NotQuote);
        let text = s.subrange(i + 1, j);
        let t = TokenView {
            token_type: TokenType::String,
            lexeme: s.subrange(i, j + 1),
            literal: LiteralView::Text(text),
            line: line + newlines(text),
        };
        lemma_cons_operator(t, scan_from(s, j + 1, line + newlines(text)));
    } else if is_digit(c) {
        let j = run_end(s, i + 1, CharClass::Digit);
        lemma_run_end(s, i + 1, CharClass::Digit);
        if j < n && s[j] == '.' {
            let k = run_end(s, j + 1, CharClass::Digit);
            let t = number_token(s.subrange(i, j), s.subrange(j + 1, k), s.subrange(i, k), line);
            lemma_cons_operator(t, scan_from(s, k, line));
        } else {
            let t = number_token(s.subrange(i, j), Seq::empty(), s.subrange(i, j), line);
            lemma_cons_operator(t, scan_from(s, j, line));
        }
    } else if alphabetic(c) || c == '_' {
        let j = run_end(s, i + 1, CharClass::Word);
        let word = s.subrange(i, j);
        let t = simple_token(keyword_type(word), word, line);
        lemma_cons_operator(t, scan_from(s, j, line));
    }
}

proof fn lemma_run_end_accepts(s: Seq<char>, i: int, class: CharClass, k: int)
    requires
        0 <= i <= k < run_end(s, i, class),
    ensures
        class.spec_accepts(s[k]),
        k < s.len(),
    decreases s.len() - i,
{
    if 0 <= i < s.len() && class.spec_accepts(s[i]) {
        if k > i {
            lemma_run_end_accepts(s, i + 1, class, k);
        }
    }
}

/// Scanning a source that holds no string, number or word gives one token for
/// each operator or punctuation mark in it, in order, each with its operator's
/// text and no literal, and then the end-of-input token, on the line after the
/// last newline of the source.
pub proof fn lemma_scan_operators(s: Seq<char>)
    requires
        scan(s) is Ok,
        forall|k: int|
            0 <= k < scan(s)->Ok_0.len() ==> !is_literal_or_word(
                (#[trigger] scan(s)->Ok_0[k]).token_type,
            ),
    ensures
        scanned_wf(scan(s)->Ok_0),
        operators_only(scan(s)->Ok_0),
        scan(s)->Ok_0.last() == eof_token(1 + newlines(s)),
{
    lemma_scan_wf(s);
    lemma_scan_from_operators(s, 0, 1);
    assert(s.subrange(0, s.len() as int) =~= s);
}

/// A character an operator-only source may hold: punctuation, an operator
/// character, or a blank.
pub open spec fn is_operator_char(c: char) -> bool {
    single_char_type(c) is Some || equal_pair_type(c) is Some || c == '/' || is_blank(c)
}

/// A blank: space, carriage return, tab or newline.
pub open spec fn is_blank(c: char) -> bool {
    c == ' ' || c == '\r' || c == '\t' || c == '\n'
}

/// A source of operators, punctuation and blanks only, without comments.
pub open spec fn operator_source(s: Seq<char>) -> bool {
    &&& forall|k: int| 0 <= k < s.len() ==> is_operator_char(#[trigger] s[k])
    &&& forall|k: int| 0 <= k < s.len() - 1 ==> !(#[trigger] s[k] == '/' && s[k + 1] == '/')
}

/// The characters of `s` from `i` on, blanks left out.
pub open spec fn blanks_removed(s: Seq<char>, i: int) -> Seq<char>
    decreases s.len() - i,
{
    if i < 0 || i >= s.len() {
        Seq::empty()
    } else if is_blank(s[i]) {
        blanks_removed(s, i + 1)
    } else {
        seq![s[i]] + blanks_removed(s, i + 1)
    }
}

/// The lexemes of `ts`, one after another.
pub open spec fn lexemes(ts: Seq<TokenView>) -> Seq<char>
    decreases ts.len(),
{
    if ts.len() == 0 {
        Seq::empty()
    } else {
        ts[0].lexeme + lexemes(ts.drop_first())
    }
}

/// The scan of an operator-only source succeeds with no string, number or word.
pub open spec fn scans_to_operators(r: Result<Seq<TokenView>, LoxErrorView>, text: Seq<char>) -> bool {
    &&& r is Ok
    &&& forall|k: int| 0 <= k < r->Ok_0.len() ==> !is_literal_or_word(#[trigger] r->Ok_0[k].token_type)
    &&& lexemes(r->Ok_0) == text
}

proof fn lemma_cons_operator_source(t: TokenView, rest: Result<Seq<TokenView>, LoxErrorView>, text: Seq<char>)
    requires
        !is_literal_or_word(t.token_type),
        scans_to_operators(rest, text),
    ensures
        scans_to_operators(cons(t, rest), t.lexeme + text),
{
    let us = rest->Ok_0;
    let ts = seq![t] + us;
    assert(ts.drop_first() =~= us);
    assert forall|k: int| 0 <= k < ts.len() implies !is_literal_or_word(#[trigger] ts[k].token_type) by {
        if k > 0 {
            assert(ts[k] == us[k - 1]);
        }
    }
}

proof fn lemma_scan_from_operator_source(s: Seq<char>, i: int, line: nat)
    requires
        0 <= i <= s.len(),
        operator_source(s),
    ensures
        scans_to_operators(scan_from(s, i, line), blanks_removed(s, i)),
    decreases s.len() - i,
{
    if i >= s.len() {
        let ts = seq![eof_token(line)];
        assert(ts.drop_first() =~= Seq::<TokenView>::empty());
        assert(lexemes(Seq::<TokenView>::empty()) == Seq::<char>::empty());
        assert(ts[0].lexeme + Seq::<char>::empty() =~= Seq::<char>::empty());
        return;
    }
    let c = s[i];
    assert(is_operator_char(c));
    if c == ' ' || c == '\r' || c == '\t' || c == '\n' {
        let next_line = if c == '\n' { line + 1 } else { line };
        lemma_scan_from_operator_source(s, i + 1, next_line);
    } else if single_char_type(c) is Some {
        lemma_scan_from_operator_source(s, i + 1, line);
        lemma_cons_operator_source(
            simple_token(single_char_type(c)->0, seq![c], line),
            scan_from(s, i + 1, line),
            blanks_removed(s, i + 1),
        );
    } else if equal_pair_type(c) is Some {
        let (alone, with_equal) = equal_pair_type(c)->0;
        if i + 1 < s.len() && s[i + 1] == '=' {
            lemma_scan_from_operator_source(s, i + 2, line);
            lemma_cons_operator_source(
                simple_token(with_equal, seq![c, '='], line),
                scan_from(s, i + 2, line),
                blanks_removed(s, i + 2),
            );
            assert(blanks_removed(s, i + 1) == seq!['='] + blanks_removed(s, i + 2));
            assert(seq![c, '='] + blanks_removed(s, i + 2) =~= seq![c] + (seq!['='] + blanks_removed(
                s,
                i + 2,
            )));
        } else {
            lemma_scan_from_operator_source(s, i + 1, line);
            lemma_cons_operator_source(
                simple_token(alone, seq![c], line),
                scan_from(s, i + 1, line),
                blanks_removed(s, i + 1),
            );
        }
    } else {
        assert(c == '/');
        assert(!(i + 1 < s.len() && s[i + 1] == '/')) by {
            if i + 1 < s.len() {
                assert(!(s[i] == '/' && s[i + 1] == '/'));
            }
        }
        lemma_scan_from_operator_source(s, i + 1, line);
        lemma_cons_operator_source(
            simple_token(TokenType::Slash, seq![c], line),
            scan_from(s, i + 1, line),
            blanks_removed(s, i + 1),
        );
    }
}

/// A source of operators, punctuation and blanks, without comments, always
/// scans: into one token for each operator or punctuation mark, in order,
/// whose lexemes put together give the source without its blanks, each with
/// its operator's text and no literal; and then the end-of-input token, with
/// an empty lexeme, on the line after the last newline of the source.
pub proof fn lemma_scan_operator_source(s: Seq<char>)
    requires
        operator_source(s),
    ensures
        scan(s) is Ok,
        scanned_wf(scan(s)->Ok_0),
        operators_only(scan(s)->Ok_0),
        lexemes(scan(s)->Ok_0) == blanks_removed(s, 0),
        scan(s)->Ok_0.last() == eof_token(1 + newlines(s)),
{
    lemma_scan_from_operator_source(s, 0, 1);
    lemma_scan_operators(s);
}

/// Scans a whole source text into its tokens, ending with the end-of-input
/// token; fails with a parse error at the first unexpected character,
/// unterminated string or number with a point and no digit after it.
pub fn scan_tokens(source: &str) -> (r: Result<Vec<Token>, LoxError>)
    requires
        source@.len() < u32::MAX,
    ensures
        scan_result_view(r) == scan(source@),
{
    let chars = chars_of(source);
    let n = chars.len();
    let mut tokens: Vec<Token> = Vec::new();
    let mut i: usize = 0;
    let mut line: u32 = 1;
    while i < n
        invariant
            n == chars@.len(),
            chars@ == source@,
            n < u32::MAX,
            i <= n,
            line <= i + 1,
            scan(source@) == prepend(tokens_view(tokens@), scan_from(source@, i as int, line as nat)),
        decreases n - i,
    {
        let ghost s = chars@;
        let ghost before = tokens@;
        let c = chars[i];
        if c == ' ' || c == '\r' || c == '\t' {
            i = i + 1;
        } else if c == '\n' {
            line = line + 1;
            i = i + 1;
        } else if let Some(tt) = single_char(c) {
            let t = Token::new_simple(tt, string_of(chars.as_slice(), i, i + 1), line);
            assert(s.subrange(i as int, i + 1) =~= seq![c]);
            proof {
                lemma_push_token(before, t, scan_from(s, i + 1, line as nat));
            }
            tokens.push(t);
            i = i + 1;
        } else if let Some(pair) = equal_pair(c) {
            let t;
            if i + 1 < n && chars[i + 1] == '=' {
                t = Token::new_simple(pair.1, string_of(chars.as_slice(), i, i + 2), line);
                assert(s.subrange(i as int, i + 2) =~= seq![c, '=']);
                proof {
                    lemma_push_token(before, t, scan_from(s, i + 2, line as nat));
                }
                i = i + 2;
            } else {
                t = Token::new_simple(pair.0, string_of(chars.as_slice(), i, i + 1), line);
                assert(s.subrange(i as int, i + 1) =~= seq![c]);
                proof {
                    lemma_push_token(before, t, scan_from(s, i + 1, line as nat));
                }
                i = i + 1;
            }
            tokens.push(t);
        } else if c == '/' {
            if i + 1 < n && chars[i + 1] == '/' {
                let j = scan_run(chars.as_slice(), i + 2, CharClass::NotNewline);
                proof {
                    lemma_run_end(s, i + 2, CharClass::NotNewline);
                }
                i = j;
            } else {
                let t = Token::new_simple(TokenType::Slash, string_of(chars.as_slice(), i, i + 1), line);
                assert(s.subrange(i as int, i + 1) =~= seq![c]);
                proof {
                    lemma_push_token(before, t, scan_from(s, i + 1, line as nat));
                }
                tokens.push(t);
                i = i + 1;
            }
        } else if c == '"' {
            let j = scan_run(chars.as_slice(), i + 1, CharClass::NotQuote);
            proof {
                lemma_run_end(s, i + 1, CharClass::NotQuote);
            }
            if j >= n {
                return Err(
                    LoxError::ParseError(
                        GenericError {
                            line,
                            lexeme: string_of(chars.as_slice(), i, n),
                            message: String::from_str("unterminated string"),
                        },
                    ),
                );
            }
            let end_line = line + count_newlines(chars.as_slice(), i + 1, j) as u32;
            let t = Token::new(
                TokenType::String,
                string_of(chars.as_slice(), i, j + 1),
                Literal::Text(string_of(chars.as_slice(), i + 1, j)),
                end_line,
            );
            proof {
                lemma_push_token(before, t, scan_from(s, j + 1, end_line as nat));
            }
            tokens.push(t);
            line = end_line;
            i = j + 1;
        } else if '0' <= c && c <= '9' {
            let j = scan_run(chars.as_slice(), i + 1, CharClass::Digit);
            proof {
                lemma_run_end(s, i + 1, CharClass::Digit);
            }
            if j < n && chars[j] == '.' {
                let k = scan_run(chars.as_slice(), j + 1, CharClass::Digit);
                proof {
                    lemma_run_end(s, j + 1, CharClass::Digit);
                }
                if k == j + 1 {
                    return Err(
                        LoxError::ParseError(
                            GenericError {
                                line,
                                lexeme: string_of(chars.as_slice(), i, j + 1),
                                message: String::from_str("invalid number"),
                            },
                        ),
                    );
                }
                let t = Token::new_number(
                    string_of(chars.as_slice(), i, k),
                    string_of(chars.as_slice(), i, j),
                    string_of(chars.as_slice(), j + 1, k),
                    line,
                );
                proof {
                    lemma_push_token(before, t, scan_from(s, k as int, line as nat));
                }
                tokens.push(t);
                i = k;
            } else {
                let t = Token::new_number(
                    string_of(chars.as_slice(), i, j),
                    string_of(chars.as_slice(), i, j),
                    String::new(),
                    line,
                );
                proof {
                    lemma_push_token(before, t, scan_from(s, j as int, line as nat));
                }
                tokens.push(t);
                i = j;
            }
        } else if c == '_' || is_alphabetic(c) {
            let j = scan_run(chars.as_slice(), i + 1, CharClass::Word);
            proof {
                lemma_run_end(s, i + 1, CharClass::Word);
            }
            let word = string_of(chars.as_slice(), i, j);
            let tt = TokenType::from_keyword(word.as_str());
            let t = Token::new_simple(tt, word, line);
            proof {
                lemma_push_token(before, t, scan_from(s, j as int, line as nat));
            }
            tokens.push(t);
            i = j;
        } else {
            assert(s.subrange(i as int, i + 1) =~= seq![c]);
            return Err(
                LoxError::ParseError(
                    GenericError {
                        line,
                        lexeme: string_of(chars.as_slice(), i, i + 1),
                        message: String::from_str("unexpected character"),
                    },
                ),
            );
        }
    }
    let eof = Token::new_simple(TokenType::EOF, String::new(), line);
    proof {
        lemma_push_token(tokens@, eof, Ok(Seq::empty()));
        assert(seq![eof@] + Seq::<TokenView>::empty() =~= seq![eof@]);
        assert(eof@.lexeme =~= Seq::<char>::empty());
    }
    tokens.push(eof);
    Ok(tokens)
}

} // verus!
