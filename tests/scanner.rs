use jilox::errors::{GenericError, LoxError};
use jilox::scanner::scan_tokens;
use jilox::token::{Decimal, Literal, Token, TokenType};

fn simple(token_type: TokenType, lexeme: &str, line: u32) -> Token {
    Token::new(token_type, String::from(lexeme), Literal::Null, line)
}

fn number_value(d: &Decimal) -> f32 {
    if d.fraction.is_empty() {
        d.whole.parse().unwrap()
    } else {
        format!("{}.{}", d.whole, d.fraction).parse().unwrap()
    }
}

fn parse_error(line: u32, lexeme: &str, message: &str) -> LoxError {
    LoxError::ParseError(GenericError {
        line,
        lexeme: String::from(lexeme),
        message: String::from(message),
    })
}

#[test]
fn test_string() {
    let input = " \"abc\"";
    let tokens = scan_tokens(input).unwrap();
    let token = Token::new(
        TokenType::String,
        String::from("\"abc\""),
        Literal::Text(String::from("abc")),
        1,
    );
    assert_eq!(tokens.len(), 2);
    assert_eq!(tokens[0], token);
}

#[test]
fn test_misc_tokens() {
    let input = "! != = == () \n <=<.";
    let want: Vec<Token> = vec![
        simple(TokenType::Bang, "!", 1),
        simple(TokenType::BangEqual, "!=", 1),
        simple(TokenType::Equal, "=", 1),
        simple(TokenType::EqualEqual, "==", 1),
        simple(TokenType::LeftParen, "(", 1),
        simple(TokenType::RightParen, ")", 1),
        simple(TokenType::LessEqual, "<=", 2),
        simple(TokenType::Less, "<", 2),
        simple(TokenType::Dot, ".", 2),
        simple(TokenType::EOF, "", 2),
    ];
    let tokens = scan_tokens(input).unwrap();
    assert_eq!(want, tokens);
}

#[test]
fn test_number() {
    let input = "123 123.23";
    let want: Vec<Token> = vec![
        Token::new(
            TokenType::Number,
            "123".to_string(),
            Literal::Number(Decimal::new("123", "")),
            1,
        ),
        Token::new(
            TokenType::Number,
            "123.23".to_string(),
            Literal::Number(Decimal::new("123", "23")),
            1,
        ),
        Token::new(TokenType::EOF, "".to_string(), Literal::Null, 1),
    ];
    let tokens = scan_tokens(input).unwrap();
    assert_eq!(want, tokens);
    match (&tokens[0].literal, &tokens[1].literal) {
        (Literal::Number(a), Literal::Number(b)) => {
            assert_eq!(number_value(a), 123.);
            assert_eq!(number_value(b), 123.23);
        }
        _ => panic!("number tokens carry numbers"),
    }
}

#[test]
fn test_identifier() {
    let input = "while if true xy_zt\n__x1";
    let want: Vec<Token> = vec![
        simple(TokenType::While, "while", 1),
        simple(TokenType::If, "if", 1),
        simple(TokenType::True, "true", 1),
        simple(TokenType::Identifier, "xy_zt", 1),
        simple(TokenType::Identifier, "__x1", 2),
        simple(TokenType::EOF, "", 2),
    ];
    let tokens = scan_tokens(input).unwrap();
    assert_eq!(want, tokens);
}

#[test]
fn string_token_then_end_of_input() {
    let tokens = scan_tokens(" \"abc\" ").unwrap();
    assert_eq!(
        tokens,
        vec![
            Token::new(
                TokenType::String,
                String::from("\"abc\""),
                Literal::Text(String::from("abc")),
                1,
            ),
            simple(TokenType::EOF, "", 1),
        ]
    );
}

#[test]
fn operators_only_one_token_each_and_final_line() {
    let tokens = scan_tokens("(){},.-+;*/\n!<>=\n\n>=").unwrap();
    let kinds: Vec<TokenType> = tokens.iter().map(|t| t.token_type).collect();
    assert_eq!(
        kinds,
        vec![
            TokenType::LeftParen,
            TokenType::RightParen,
            TokenType::LeftBrace,
            TokenType::RightBrace,
            TokenType::Comma,
            TokenType::Dot,
            TokenType::Minus,
            TokenType::Plus,
            TokenType::Semicolon,
            TokenType::Star,
            TokenType::Slash,
            TokenType::Bang,
            TokenType::Less,
            TokenType::GreaterEqual,
            TokenType::GreaterEqual,
            TokenType::EOF,
        ]
    );
    assert_eq!(tokens[13], simple(TokenType::GreaterEqual, ">=", 2));
    assert_eq!(tokens[15], simple(TokenType::EOF, "", 4));
    assert!(tokens.iter().all(|t| t.literal == Literal::Null));
}

#[test]
fn operator_at_end_of_input_is_kept() {
    let tokens = scan_tokens("! /").unwrap();
    assert_eq!(
        tokens,
        vec![
            simple(TokenType::Bang, "!", 1),
            simple(TokenType::Slash, "/", 1),
            simple(TokenType::EOF, "", 1),
        ]
    );
}

#[test]
fn comment_runs_to_end_of_line() {
    let tokens = scan_tokens("+ // a comment ) \"\n-").unwrap();
    assert_eq!(
        tokens,
        vec![
            simple(TokenType::Plus, "+", 1),
            simple(TokenType::Minus, "-", 2),
            simple(TokenType::EOF, "", 2),
        ]
    );
}

#[test]
fn empty_source_is_end_of_input_alone() {
    assert_eq!(scan_tokens("").unwrap(), vec![simple(TokenType::EOF, "", 1)]);
}

#[test]
fn string_over_lines_counts_its_newlines() {
    let tokens = scan_tokens("\"a\nb\" x").unwrap();
    assert_eq!(
        tokens[0],
        Token::new(
            TokenType::String,
            String::from("\"a\nb\""),
            Literal::Text(String::from("a\nb")),
            2,
        )
    );
    assert_eq!(tokens[1], simple(TokenType::Identifier, "x", 2));
}

#[test]
fn every_keyword_is_recognised() {
    let words = [
        ("and", TokenType::And),
        ("class", TokenType::Class),
        ("else", TokenType::Else),
        ("false", TokenType::False),
        ("fun", TokenType::Fun),
        ("for", TokenType::For),
        ("if", TokenType::If),
        ("nil", TokenType::Nil),
        ("or", TokenType::Or),
        ("print", TokenType::Print),
        ("return", TokenType::Return),
        ("super", TokenType::Super),
        ("this", TokenType::This),
        ("true", TokenType::True),
        ("var", TokenType::Var),
        ("while", TokenType::While),
        ("whiles", TokenType::Identifier),
        ("An", TokenType::Identifier),
    ];
    for (w, t) in words {
        assert_eq!(TokenType::from_keyword(w), t);
    }
}

#[test]
fn unterminated_string_is_an_error() {
    assert_eq!(
        scan_tokens("1 \"abc").unwrap_err(),
        parse_error(1, "\"abc", "unterminated string")
    );
}

#[test]
fn point_without_digits_is_an_error() {
    assert_eq!(
        scan_tokens("\n12. + 1").unwrap_err(),
        parse_error(2, "12.", "invalid number")
    );
}

#[test]
fn unexpected_character_is_an_error() {
    assert_eq!(
        scan_tokens("1 + @").unwrap_err(),
        parse_error(1, "@", "unexpected character")
    );
}

#[test]
fn number_followed_by_dot_and_digits_twice() {
    let tokens = scan_tokens("1.5.2").unwrap();
    assert_eq!(
        tokens,
        vec![
            Token::new(
                TokenType::Number,
                String::from("1.5"),
                Literal::Number(Decimal::new("1", "5")),
                1,
            ),
            simple(TokenType::Dot, ".", 1),
            Token::new(
                TokenType::Number,
                String::from("2"),
                Literal::Number(Decimal::new("2", "")),
                1,
            ),
            simple(TokenType::EOF, "", 1),
        ]
    );
}

#[test]
fn unicode_letters_make_identifiers() {
    let tokens = scan_tokens("\u{e9}t\u{e9}2").unwrap();
    assert_eq!(tokens[0], simple(TokenType::Identifier, "\u{e9}t\u{e9}2", 1));
}
