use rlox::dump::{dump_tokens, show, truncate};
use rlox::lexer::Lexer;
use rlox::token::{Span, Token, TokenType};

#[test]
fn show_escapes_control_characters() {
    assert_eq!(show("plain"), "plain");
    assert_eq!(show("a\nb\tc\rd"), "a\\nb\\tc\\rd");
    assert_eq!(show("back\\slash"), "back\\\\slash");
    assert_eq!(show("\u{1}\u{1b}\u{7f}\u{85}"), "\\x1\\x1b\\x7f\\x85");
    assert_eq!(show("é"), "é");
}

#[test]
fn truncate_keeps_head_and_tail() {
    assert_eq!(truncate("short", 32), "short");
    let long = "abcdefghijklmnopqrstuvwxyz0123456789";
    assert_eq!(truncate(long, 32), "abcdefghijklmnopqrstuvw…456789");
    assert_eq!(truncate(long, 32).chars().count(), 30);
    assert_eq!(truncate("abcdef", 5), "a…f");
    assert_eq!(truncate("abcdef", 4), "…f");
    assert_eq!(truncate("abcdef", 3), "…f");
    assert_eq!(truncate("abcdef", 0), "…");
}

#[test]
fn token_table() {
    let tokens = vec![
        Token {
            token_type: TokenType::String,
            lexeme: "\"a\\b\"".to_string(),
            literal: Some("a\\b".to_string()),
            span: Span { line_start: 1, col_start: 1, line_end: 1, col_end: 6 },
        },
        Token {
            token_type: TokenType::Eof,
            lexeme: String::new(),
            literal: None,
            span: Span { line_start: 1, col_start: 6, line_end: 1, col_end: 6 },
        },
    ];
    let expected = "TYPE    LEXEME  LITERAL  SPAN\n\
                    STRING  \"a\\\\b\"  a\\\\b     1:1 - 1:6\n\
                    EOF             -        1:6 - 1:6\n";
    assert_eq!(dump_tokens(&tokens), expected);
}

#[test]
fn table_has_a_line_per_token() {
    let mut lexer = Lexer::new(&"var s = \"multi\nline\";\nprint s;".to_string());
    let tokens = lexer.analyze(|s: &str| format!("{}", s));
    let table = dump_tokens(&tokens);
    assert_eq!(table.matches('\n').count(), tokens.len() + 1);
}

#[test]
fn shown_text_has_no_control_characters() {
    let shown = show("tab\there\u{0}\u{9f}\nend\u{7}");
    assert!(shown.chars().all(|c| !c.is_control()));
    assert_eq!(shown, "tab\\there\\x0\\x9f\\nend\\x7");
}

#[test]
fn truncation_fits_its_width() {
    let text = "the quick brown fox jumps over the lazy dog";
    for max in 1..60 {
        let cut = truncate(text, max);
        assert!(cut.chars().count() <= max);
        if text.chars().count() <= max {
            assert_eq!(cut, text);
        }
    }
    assert_eq!(truncate(text, 0), "…");
}
