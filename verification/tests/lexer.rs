use rlox::lexer::{get_token_type_for_identifier, LexError, Lexer};
use rlox::token::{Span, Token, TokenType};

fn format_float(f: f64) -> String {
    let s = format!("{}", f);
    if s.contains('.') {
        s
    } else {
        s + ".0"
    }
}

fn number_text(lexeme: &str) -> String {
    format_float(lexeme.parse::<f64>().unwrap())
}

fn lex(source: &str) -> (Vec<Token>, Vec<LexError>, bool) {
    let mut lexer = Lexer::new(&source.to_string());
    let tokens = lexer.analyze(number_text);
    (tokens, lexer.errors.clone(), lexer.encountered_error)
}

fn kinds(tokens: &[Token]) -> Vec<TokenType> {
    tokens.iter().map(|t| t.token_type).collect()
}

fn span(line_start: u32, col_start: u32, line_end: u32, col_end: u32) -> Span {
    Span { line_start, col_start, line_end, col_end }
}

#[test]
fn var_declaration() {
    let (tokens, errors, failed) = lex("var x = 1.5;");
    assert!(errors.is_empty());
    assert!(!failed);
    assert_eq!(
        kinds(&tokens),
        vec![
            TokenType::Var,
            TokenType::Identifier,
            TokenType::Equal,
            TokenType::Number,
            TokenType::Semicolon,
            TokenType::Eof
        ]
    );
    assert_eq!(tokens[0].lexeme, "var");
    assert_eq!(tokens[0].span, span(1, 1, 1, 4));
    assert_eq!(tokens[1].lexeme, "x");
    assert_eq!(tokens[1].span, span(1, 5, 1, 6));
    assert_eq!(tokens[3].lexeme, "1.5");
    assert_eq!(tokens[3].literal, Some("1.5".to_string()));
    assert_eq!(tokens[3].span, span(1, 9, 1, 12));
    assert_eq!(tokens[5].lexeme, "");
    assert_eq!(tokens[5].literal, None);
    assert_eq!(tokens[5].span, span(1, 13, 1, 13));
}

#[test]
fn whole_numbers_get_a_decimal_point() {
    let (tokens, _, _) = lex("42 7.");
    assert_eq!(tokens[0].literal, Some("42.0".to_string()));
    assert_eq!(tokens[1].lexeme, "7.");
    assert_eq!(tokens[1].literal, Some("7.0".to_string()));
}

#[test]
fn string_literal() {
    let (tokens, errors, _) = lex("print \"hi there\";");
    assert!(errors.is_empty());
    assert_eq!(tokens[1].token_type, TokenType::String);
    assert_eq!(tokens[1].lexeme, "\"hi there\"");
    assert_eq!(tokens[1].literal, Some("hi there".to_string()));
    assert_eq!(tokens[1].span, span(1, 7, 1, 17));
}

#[test]
fn multi_line_string_moves_the_line() {
    let (tokens, _, _) = lex("\"a\nb\" x");
    assert_eq!(tokens[0].literal, Some("a\nb".to_string()));
    assert_eq!(tokens[0].span, span(1, 1, 2, 3));
    assert_eq!(tokens[1].span, span(2, 4, 2, 5));
}

#[test]
fn unterminated_string() {
    let (tokens, errors, failed) = lex("\"abc\ndef");
    assert!(failed);
    assert_eq!(kinds(&tokens), vec![TokenType::Eof]);
    assert_eq!(errors, vec![LexError { line: 2, message: "Unterminated string.".to_string() }]);
}

#[test]
fn invalid_number() {
    let (tokens, errors, failed) = lex("1.2.3 + 4");
    assert!(failed);
    assert_eq!(kinds(&tokens), vec![TokenType::Plus, TokenType::Number, TokenType::Eof]);
    assert_eq!(errors, vec![LexError { line: 1, message: "Invalid number literal: 1.2.3".to_string() }]);
}

#[test]
fn unexpected_characters() {
    let (tokens, errors, failed) = lex("a @\n# b\r");
    assert!(failed);
    assert_eq!(kinds(&tokens), vec![TokenType::Identifier, TokenType::Identifier, TokenType::Eof]);
    assert_eq!(
        errors,
        vec![
            LexError { line: 1, message: "Unexpected character: @".to_string() },
            LexError { line: 2, message: "Unexpected character: #".to_string() },
            LexError { line: 2, message: "Unexpected character: \r".to_string() },
        ]
    );
}

#[test]
fn operators() {
    let (tokens, _, _) = lex("(){};,.+-*/ = == ! != < <= > >=");
    assert_eq!(
        kinds(&tokens),
        vec![
            TokenType::LeftParen,
            TokenType::RightParen,
            TokenType::LeftBrace,
            TokenType::RightBrace,
            TokenType::Semicolon,
            TokenType::Comma,
            TokenType::Dot,
            TokenType::Plus,
            TokenType::Minus,
            TokenType::Star,
            TokenType::Slash,
            TokenType::Equal,
            TokenType::EqualEqual,
            TokenType::Bang,
            TokenType::BangEqual,
            TokenType::Less,
            TokenType::LessEqual,
            TokenType::Greater,
            TokenType::GreaterEqual,
            TokenType::Eof
        ]
    );
    assert_eq!(tokens[12].lexeme, "==");
    assert_eq!(tokens[12].span, span(1, 15, 1, 17));
}

#[test]
fn comments_are_skipped() {
    let (tokens, errors, _) = lex("// line comment\n/* a /* nested */ still\n comment */ + /");
    assert!(errors.is_empty());
    assert_eq!(kinds(&tokens), vec![TokenType::Plus, TokenType::Slash, TokenType::Eof]);
    assert_eq!(tokens[0].span, span(3, 13, 3, 14));
}

#[test]
fn unclosed_block_comment_runs_to_the_end() {
    let (tokens, errors, _) = lex("+ /* never closed");
    assert!(errors.is_empty());
    assert_eq!(kinds(&tokens), vec![TokenType::Plus, TokenType::Eof]);
    assert_eq!(tokens[1].span, span(1, 18, 1, 18));
}

#[test]
fn keywords_and_identifiers() {
    let (tokens, _, _) =
        lex("and class else false for fun if nil or print return super this true var while _x1 classy");
    assert_eq!(
        kinds(&tokens),
        vec![
            TokenType::And,
            TokenType::Class,
            TokenType::Else,
            TokenType::False,
            TokenType::For,
            TokenType::Fun,
            TokenType::If,
            TokenType::Nil,
            TokenType::Or,
            TokenType::Print,
            TokenType::Return,
            TokenType::Super,
            TokenType::This,
            TokenType::True,
            TokenType::Var,
            TokenType::While,
            TokenType::Identifier,
            TokenType::Identifier,
            TokenType::Eof
        ]
    );
}

#[test]
fn keyword_lookup() {
    assert_eq!(get_token_type_for_identifier("while"), TokenType::While);
    assert_eq!(get_token_type_for_identifier("nil"), TokenType::Nil);
    assert_eq!(get_token_type_for_identifier("While"), TokenType::Identifier);
    assert_eq!(get_token_type_for_identifier(""), TokenType::Identifier);
}

#[test]
fn empty_source_is_just_eof() {
    let (tokens, errors, failed) = lex("");
    assert!(!failed);
    assert!(errors.is_empty());
    assert_eq!(tokens.len(), 1);
    assert_eq!(tokens[0].token_type, TokenType::Eof);
    assert_eq!(tokens[0].span, span(1, 1, 1, 1));
}

#[test]
fn eof_line_counts_newlines() {
    let (tokens, _, _) = lex("a\n\nb\n");
    let eof = tokens.last().unwrap();
    assert_eq!(eof.token_type, TokenType::Eof);
    assert_eq!(eof.span, span(4, 1, 4, 1));
}

#[test]
fn analyze_resets_and_repeats() {
    let mut lexer = Lexer::new(&"x = \"s\" 3;".to_string());
    let first = lexer.analyze(number_text);
    assert_eq!(lexer.current, 0);
    assert_eq!(lexer.line, 1);
    assert_eq!(lexer.column, 1);
    let second = lexer.analyze(number_text);
    assert_eq!(first, second);
}

#[test]
fn errors_are_cleared_on_each_run() {
    let mut lexer = Lexer::new(&"@".to_string());
    lexer.analyze(number_text);
    assert!(lexer.encountered_error);
    lexer.source = vec!['1'];
    lexer.analyze(number_text);
    assert!(!lexer.encountered_error);
    assert!(lexer.errors.is_empty());
}

#[test]
fn spans_come_in_source_order() {
    let (tokens, _, _) = lex("fun f(a) {\n  return a * 2;\n}\n");
    for pair in tokens.windows(2) {
        let a = pair[0].span;
        let b = pair[1].span;
        assert!((a.line_end, a.col_end) <= (b.line_start, b.col_start));
        assert!((a.line_start, a.col_start) <= (a.line_end, a.col_end));
    }
}

#[test]
fn new_lexer_starts_at_the_beginning() {
    let lexer = Lexer::new(&"héllo".to_string());
    assert_eq!(lexer.source, vec!['h', 'é', 'l', 'l', 'o']);
    assert_eq!(lexer.current, 0);
    assert_eq!((lexer.line, lexer.column), (1, 1));
    assert!(!lexer.encountered_error);
    assert!(lexer.errors.is_empty());
}

#[test]
fn lexemes_have_the_shape_of_their_type() {
    let (tokens, _, _) = lex("x_1 = \"q\" + 10.25 * y;");
    for t in &tokens {
        match t.token_type {
            TokenType::String => {
                let literal = t.literal.clone().unwrap();
                assert_eq!(t.lexeme, format!("\"{}\"", literal));
            }
            TokenType::Number => {
                assert!(t.lexeme.chars().all(|c| c.is_ascii_digit() || c == '.'));
                assert!(t.lexeme.matches('.').count() <= 1);
            }
            TokenType::Identifier => {
                assert!(t.lexeme.chars().all(|c| c.is_ascii_alphanumeric() || c == '_'));
                assert_eq!(get_token_type_for_identifier(&t.lexeme), TokenType::Identifier);
            }
            _ => {}
        }
    }
    assert_eq!(tokens[4].literal, Some("10.25".to_string()));
}
