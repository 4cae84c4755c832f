use rlox::token::{pascal_to_upper_snake, Span, Token, TokenType};

#[test]
fn upper_snake_names() {
    assert_eq!(pascal_to_upper_snake("LeftParen".to_string()), "LEFT_PAREN");
    assert_eq!(pascal_to_upper_snake("EqualEqual".to_string()), "EQUAL_EQUAL");
    assert_eq!(pascal_to_upper_snake("Eof".to_string()), "EOF");
    assert_eq!(pascal_to_upper_snake("".to_string()), "");
    assert_eq!(pascal_to_upper_snake("ÄbcDé".to_string()), "ÄBC_Dé");
}

#[test]
fn token_type_display() {
    assert_eq!(TokenType::LeftParen.to_string(), "LEFT_PAREN");
    assert_eq!(TokenType::GreaterEqual.to_string(), "GREATER_EQUAL");
    assert_eq!(TokenType::Identifier.to_string(), "IDENTIFIER");
    assert_eq!(TokenType::Eof.to_string(), "EOF");
}

#[test]
fn token_display() {
    let span = Span { line_start: 1, col_start: 1, line_end: 1, col_end: 3 };
    let number = Token {
        token_type: TokenType::Number,
        lexeme: "42".to_string(),
        literal: Some("42.0".to_string()),
        span,
    };
    assert_eq!(number.to_string(), "NUMBER 42 42.0");
    let plus = Token { token_type: TokenType::Plus, lexeme: "+".to_string(), literal: None, span };
    assert_eq!(plus.to_string(), "PLUS + null");
}
