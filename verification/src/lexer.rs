//! The lexer: reads a source text and returns its tokens, and the errors it
//! found on the way.

use vstd::prelude::*;
use crate::text::{digit, alpha, ident_char, number_char, push_char, push_all, str_eq, chars_of,
    count_in_range};
use crate::token::{TokenType, Token, TokenView, Span};
use crate::scan::{keyword_type, double_char_type, single_char_type, LexErrorView, peek_char, advance,
    position_after, step, step_output, span_of, lex_from, end_position, CharClass, in_class,
    comment_end, eof_token, lemma_scan_while_at, lemma_step_advances, lemma_position_step,
    lemma_lex_unfold, lemma_position_concat, is_number_literal};

verus! {

/// The type of an identifier-shaped word: its keyword, or `Identifier`.
pub fn get_token_type_for_identifier(identifier: &str) -> (r: TokenType)
    ensures
        r == keyword_type(identifier@),
{
    if str_eq(identifier, "and") {
        TokenType::And
    } else
    if str_eq(identifier, "class") {
        TokenType::Class
    } else
    if str_eq(identifier, "else") {
        TokenType::Else
    } else
    if str_eq(identifier, "false") {
        TokenType::False
    } else
    if str_eq(identifier, "for") {
        TokenType::For
    } else
    if str_eq(identifier, "fun") {
        TokenType::Fun
    } else
    if str_eq(identifier, "if") {
        TokenType::If
    } else
    if str_eq(identifier, "nil") {
        TokenType::Nil
    } else
    if str_eq(identifier, "or") {
        TokenType::Or
    } else
    if str_eq(identifier, "print") {
        TokenType::Print
    } else
    if str_eq(identifier, "return") {
        TokenType::Return
    } else
    if str_eq(identifier, "super") {
        TokenType::Super
    } else
    if str_eq(identifier, "this") {
        TokenType::This
    } else
    if str_eq(identifier, "true") {
        TokenType::True
    } else
    if str_eq(identifier, "var") {
        TokenType::Var
    } else
    if str_eq(identifier, "while") {
        TokenType::While
    } else {
        TokenType::Identifier
    }
}

fn double_char(c: char, d: char) -> (r: Option<TokenType>)
    ensures
        r == double_char_type(c, d),
{
    if d != '=' {
        None
    } else if c == '=' {
        Some(TokenType::EqualEqual)
    } else if c == '!' {
        Some(TokenType::BangEqual)
    } else if c == '<' {
        Some(TokenType::LessEqual)
    } else if c == '>' {
        Some(TokenType::GreaterEqual)
    } else {
        None
    }
}

fn single_char(c: char) -> (r: Option<TokenType>)
    ensures
        r == single_char_type(c),
{
    if c == '(' {
        Some(TokenType::LeftParen)
    } else
    if c == ')' {
        Some(TokenType::RightParen)
    } else
    if c == '{' {
        Some(TokenType::LeftBrace)
    } else
    if c == '}' {
        Some(TokenType::RightBrace)
    } else
    if c == '*' {
        Some(TokenType::Star)
    } else
    if c == '.' {
        Some(TokenType::Dot)
    } else
    if c == ',' {
        Some(TokenType::Comma)
    } else
    if c == '+' {
        Some(TokenType::Plus)
    } else
    if c == '-' {
        Some(TokenType::Minus)
    } else
    if c == ';' {
        Some(TokenType::Semicolon)
    } else
    if c == '=' {
        Some(TokenType::Equal)
    } else
    if c == '!' {
        Some(TokenType::Bang)
    } else
    if c == '<' {
        Some(TokenType::Less)
    } else
    if c == '>' {
        Some(TokenType::Greater)
    } else {
        None
    }
}

/// An error found while reading the source: the line the lexer had reached
/// and what went wrong.
#[derive(Clone, Debug, PartialEq, Eq)]
pub struct LexError {
    pub line: u32,
    pub message: String,
}

impl View for LexError {
    type V = LexErrorView;

    open spec fn view(&self) -> LexErrorView {
        LexErrorView { line: self.line as int, message: self.message@ }
    }
}

pub open spec fn errors_view(v: Seq<LexError>) -> Seq<LexErrorView> {
    v.map_values(|e: LexError| e@)
}

/// `literal` is what `format_number` returns for a number written as `lexeme`.
pub open spec fn formats_number<F: Fn(&str) -> String>(format_number: F, lexeme: Seq<char>, literal: Seq<char>) -> bool {
    exists|s: &str, r: String| #[trigger] call_ensures(format_number, (s,), r) && s@ == lexeme && r@ == literal
}

/// The token `actual` is the token `expected` of the lexing model, a number
/// token having as its literal what `format_number` gave for its lexeme.
pub open spec fn agrees<F: Fn(&str) -> String>(format_number: F, actual: TokenView, expected: TokenView) -> bool {
    if expected.token_type == TokenType::Number {
        &&& actual.token_type == TokenType::Number
        &&& actual.lexeme == expected.lexeme
        &&& actual.span == expected.span
        &&& actual.literal is Some
        &&& formats_number(format_number, actual.lexeme, actual.literal.unwrap())
    } else {
        actual == expected
    }
}

pub open spec fn tokens_agree<F: Fn(&str) -> String>(format_number: F, actual: Seq<Token>, expected: Seq<TokenView>) -> bool {
    &&& actual.len() == expected.len()
    &&& forall|k: int| 0 <= k < actual.len() ==> agrees(format_number, #[trigger] actual[k]@, expected[k])
}

pub open spec fn views(tokens: Seq<Token>) -> Seq<TokenView> {
    tokens.map_values(|t: Token| t@)
}

pub open spec fn max1(c: u32) -> int {
    if c == 0 { 1 } else { c as int }
}

/// The lexer over one source text. `current` is the index of the next
/// character to read and (`line`, `column`) its position.
pub struct Lexer {
    pub source: Vec<char>,
    pub current: usize,
    pub line: u32,
    pub column: u32,
    pub tok_start_line: u32,
    pub tok_start_col: u32,
    pub encountered_error: bool,
    pub errors: Vec<LexError>,
}

impl Lexer {
    /// Where the token being read started.
    pub open spec fn token_start(&self) -> (int, int) {
        (self.tok_start_line as int, self.tok_start_col as int)
    }

    /// The position of the next character to read.
    pub open spec fn pos(&self) -> (int, int) {
        (self.line as int, self.column as int)
    }

    /// The line and column counters cannot overflow before the end of the
    /// source.
    pub open spec fn has_room(&self) -> bool {
        &&& self.current <= self.source.len()
        &&& self.line + (self.source.len() - self.current) < u32::MAX
        &&& max1(self.column) + (self.source.len() - self.current) < u32::MAX
    }

    /// Only the cursor moved from `self` to `other`.
    spec fn same_but_cursor(&self, other: &Lexer) -> bool {
        &&& other.source == self.source
        &&& other.errors == self.errors
        &&& other.encountered_error == self.encountered_error
        &&& other.token_start() == self.token_start()
    }

    /// From `self` to `other` the lexer took the step at `self.current`:
    /// the cursor is at the step's end and its errors were reported.
    spec fn took_step(&self, other: &Lexer) -> bool {
        let src = self.source@;
        let i = self.current as int;
        let end = step(src, i).1;
        let out = step_output(src, i, self.pos());
        &&& other.source == self.source
        &&& other.current == end
        &&& other.pos() == position_after(self.pos(), src.subrange(i, end))
        &&& other.has_room()
        &&& other.token_start() == self.token_start()
        &&& errors_view(other.errors@) == errors_view(self.errors@) + out.1
        &&& other.encountered_error == (self.encountered_error || out.1.len() > 0)
    }

    /// The tokens that the step at `self.current` produces, but a number.
    spec fn step_tokens(&self) -> Seq<TokenView> {
        step_output(self.source@, self.current as int, self.pos()).0
    }

    /// A lexer at the start of `source`, on line 1 and column 1.
    pub fn new(source: &String) -> (r: Self)
        ensures
            r.source@ == source@,
            r.current == 0,
            r.line == 1,
            r.column == 1,
            r.token_start() == (1int, 1int),
            !r.encountered_error,
            r.errors@.len() == 0,
    {
        Self {
            source: chars_of(source.as_str()),
            current: 0,
            line: 1,
            column: 1,
            tok_start_line: 1,
            tok_start_col: 1,
            encountered_error: false,
            errors: Vec::new(),
        }
    }

    fn eof(&self) -> (r: bool)
        ensures
            r == (self.current >= self.source.len()),
    {
        self.current >= self.source.len()
    }

    fn peek_at(&self, offset: usize) -> (r: char)
        ensures
            r == peek_char(self.source@, self.current + offset),
    {
        if self.current >= self.source.len() || offset >= self.source.len() - self.current {
            return '\0';
        }
        self.source[self.current + offset]
    }

    fn peek(&self) -> (r: char)
        ensures
            r == peek_char(self.source@, self.current as int),
    {
        self.peek_at(0)
    }

    fn consume(&mut self) -> (c: char)
        requires
            old(self).has_room(),
            old(self).current < old(self).source.len(),
        ensures
            c == old(self).source@[old(self).current as int],
            final(self).current == old(self).current + 1,
            final(self).pos() == advance(old(self).pos(), c),
            final(self).has_room(),
            old(self).same_but_cursor(final(self)),
    {
        let c = self.peek();
        self.current += 1;
        if c == '\n' {
            self.line += 1;
            self.column = 1;
        } else {
            self.column += 1;
        }
        c
    }

    fn current_span(&self) -> (r: Span)
        ensures
            r == span_of(self.token_start(), self.pos()),
    {
        Span {
            line_start: self.tok_start_line,
            col_start: self.tok_start_col,
            line_end: self.line,
            col_end: self.column,
        }
    }

    fn make_token(&self, token_type: TokenType, lexeme: String) -> (r: Token)
        ensures
            r@ == (TokenView {
                token_type,
                lexeme: lexeme@,
                literal: None,
                span: span_of(self.token_start(), self.pos()),
            }),
    {
        Token { token_type, lexeme, literal: None, span: self.current_span() }
    }

    fn make_token_with_literal(&self, token_type: TokenType, lexeme: String, literal: String) -> (r: Token)
        ensures
            r@ == (TokenView {
                token_type,
                lexeme: lexeme@,
                literal: Some(literal@),
                span: span_of(self.token_start(), self.pos()),
            }),
    {
        Token { token_type, lexeme, literal: Some(literal), span: self.current_span() }
    }
    fn string(&mut self) -> (r: Option<Token>)
        requires
            old(self).has_room(),
            old(self).current < old(self).source.len(),
            old(self).source@[old(self).current as int] == '"',
            old(self).token_start() == old(self).pos(),
        ensures
            old(self).took_step(final(self)),
            step(old(self).source@, old(self).current as int).0 is EmitString ==> (r matches Some(t)
                && seq![t@] == old(self).step_tokens()),
            step(old(self).source@, old(self).current as int).0 is Unterminated ==> r is None,
            step(old(self).source@, old(self).current as int).0 is EmitString
                || step(old(self).source@, old(self).current as int).0 is Unterminated,
    {
        let ghost src = self.source@;
        let ghost i = self.current as int;
        let ghost p = self.pos();
        let ghost start = *self;
        let mut s = String::new();
        self.consume();
        proof {
            lemma_position_step(p, src, i, i);
        }
        while !self.eof() && self.peek() != '"'
            invariant
                start.same_but_cursor(self),
                self.source@ == src,
                0 <= i < src.len(),
                src[i] == '"',
                i + 1 <= self.current <= src.len(),
                self.has_room(),
                s@ == src.subrange(i + 1, self.current as int),
                self.pos() == position_after(p, src.subrange(i, self.current as int)),
                forall|j: int| i + 1 <= j < self.current ==> in_class(CharClass::NotQuote, #[trigger] src[j]),
            decreases src.len() - self.current,
        {
            let ghost k = self.current as int;
            let c = self.consume();
            push_char(&mut s, c);
            proof {
                lemma_position_step(p, src, i, k);
            }
            assert(s@ =~= src.subrange(i + 1, k + 1));
        }
        proof {
            lemma_scan_while_at(src, i + 1, CharClass::NotQuote, self.current as int);
        }
        if self.eof() {
            let e = LexError { line: self.line, message: "Unterminated string.".to_owned() };
            self.errors.push(e);
            self.encountered_error = true;
            proof {
                assert(errors_view(self.errors@) =~= errors_view(start.errors@) + seq![e@]);
            }
            None
        } else {
            let ghost k = self.current as int;
            self.consume();
            proof {
                lemma_position_step(p, src, i, k);
            }
            let mut lexeme = String::new();
            push_char(&mut lexeme, '"');
            push_all(&mut lexeme, s.as_str());
            push_char(&mut lexeme, '"');
            assert(lexeme@ =~= src.subrange(i, k + 1));
            let t = self.make_token_with_literal(TokenType::String, lexeme, s);
            assert(errors_view(self.errors@) =~= errors_view(start.errors@) + seq![]);
            Some(t)
        }
    }
    fn number<F: Fn(&str) -> String>(&mut self, format_number: &F) -> (r: Option<Token>)
        requires
            old(self).has_room(),
            old(self).current < old(self).source.len(),
            crate::text::is_digit(old(self).source@[old(self).current as int]),
            old(self).token_start() == old(self).pos(),
            forall|s: &str| is_number_literal(s@) ==> call_requires(*format_number, (s,)),
        ensures
            old(self).took_step(final(self)),
            step(old(self).source@, old(self).current as int).0 is EmitNumber ==> (r matches Some(t)
                && agrees(*format_number, t@, old(self).step_tokens()[0])),
            step(old(self).source@, old(self).current as int).0 is BadNumber ==> r is None,
            step(old(self).source@, old(self).current as int).0 is EmitNumber
                || step(old(self).source@, old(self).current as int).0 is BadNumber,
    {
        let ghost src = self.source@;
        let ghost i = self.current as int;
        let ghost p = self.pos();
        let ghost start = *self;
        let start_index = self.current;
        let mut num_str = String::new();
        proof {
            lemma_position_step(p, src, i, i);
        }
        while !self.eof() && number_char(self.peek())
            invariant
                start.same_but_cursor(self),
                self.source@ == src,
                0 <= i < src.len(),
                start_index == i,
                i <= self.current <= src.len(),
                self.has_room(),
                num_str@ == src.subrange(i, self.current as int),
                self.pos() == position_after(p, src.subrange(i, self.current as int)),
                forall|j: int| i <= j < self.current ==> in_class(CharClass::NumberChar, #[trigger] src[j]),
            decreases src.len() - self.current,
        {
            let ghost k = self.current as int;
            let c = self.consume();
            push_char(&mut num_str, c);
            proof {
                lemma_position_step(p, src, i, k);
            }
            assert(num_str@ =~= src.subrange(i, k + 1));
        }
        proof {
            lemma_scan_while_at(src, i, CharClass::NumberChar, self.current as int);
        }
        let dots = count_in_range(&self.source, start_index, self.current, '.');
        if dots <= 1 {
            proof {
                let lexeme = src.subrange(i, self.current as int);
                assert(lexeme[0] == src[i]);
                assert forall|k: int| 0 <= k < lexeme.len() implies crate::text::is_number_char(#[trigger] lexeme[k]) by {
                    assert(lexeme[k] == src[i + k]);
                }
                assert(is_number_literal(num_str@));
            }
            let literal = format_number(num_str.as_str());
            let t = self.make_token_with_literal(TokenType::Number, num_str, literal);
            assert(errors_view(self.errors@) =~= errors_view(start.errors@) + seq![]);
            Some(t)
        } else {
            let mut message = "Invalid number literal: ".to_owned();
            push_all(&mut message, num_str.as_str());
            let e = LexError { line: self.line, message };
            self.errors.push(e);
            self.encountered_error = true;
            proof {
                assert(errors_view(self.errors@) =~= errors_view(start.errors@) + seq![e@]);
            }
            None
        }
    }

    fn identifier(&mut self) -> (r: Token)
        requires
            old(self).has_room(),
            old(self).current < old(self).source.len(),
            crate::text::is_alpha(old(self).source@[old(self).current as int])
                || old(self).source@[old(self).current as int] == '_',
            old(self).token_start() == old(self).pos(),
        ensures
            old(self).took_step(final(self)),
            seq![r@] == old(self).step_tokens(),
    {
        let ghost src = self.source@;
        let ghost i = self.current as int;
        let ghost p = self.pos();
        let ghost start = *self;
        let first = self.consume();
        let mut identifier = String::new();
        push_char(&mut identifier, first);
        proof {
            lemma_position_step(p, src, i, i);
        }
        assert(identifier@ =~= src.subrange(i, i + 1));
        while !self.eof() && ident_char(self.peek())
            invariant
                start.same_but_cursor(self),
                self.source@ == src,
                0 <= i < src.len(),
                i + 1 <= self.current <= src.len(),
                self.has_room(),
                identifier@ == src.subrange(i, self.current as int),
                self.pos() == position_after(p, src.subrange(i, self.current as int)),
                forall|j: int| i + 1 <= j < self.current ==> in_class(CharClass::IdentChar, #[trigger] src[j]),
            decreases src.len() - self.current,
        {
            let ghost k = self.current as int;
            let c = self.consume();
            push_char(&mut identifier, c);
            proof {
                lemma_position_step(p, src, i, k);
            }
            assert(identifier@ =~= src.subrange(i, k + 1));
        }
        proof {
            lemma_scan_while_at(src, i + 1, CharClass::IdentChar, self.current as int);
        }
        let token_type = get_token_type_for_identifier(identifier.as_str());
        let t = self.make_token(token_type, identifier);
        assert(errors_view(self.errors@) =~= errors_view(start.errors@) + seq![]);
        t
    }

    fn block_comment(&mut self)
        requires
            old(self).has_room(),
            old(self).current + 1 < old(self).source.len(),
            old(self).source@[old(self).current as int] == '/',
            old(self).source@[old(self).current + 1] == '*',
        ensures
            old(self).took_step(final(self)),
            old(self).step_tokens().len() == 0,
    {
        let ghost src = self.source@;
        let ghost i = self.current as int;
        let ghost p = self.pos();
        let ghost start = *self;
        let mut depth: usize = 0;
        proof {
            lemma_position_step(p, src, i, i);
        }
        loop
            invariant_except_break
                depth >= 1 || self.current == i,
                comment_end(src, i, 0) == comment_end(src, self.current as int, depth as int),
            invariant
                start.same_but_cursor(self),
                self.source@ == src,
                0 <= i,
                i + 1 < src.len(),
                src[i] == '/',
                src[i + 1] == '*',
                i <= self.current <= src.len(),
                depth <= self.current - i,
                self.has_room(),
                self.pos() == position_after(p, src.subrange(i, self.current as int)),
            ensures
                self.current == comment_end(src, i, 0),
            decreases src.len() - self.current,
        {
            if self.eof() {
                break;
            }
            let ghost k = self.current as int;
            let ghost d0 = depth as int;
            if self.peek() == '/' && self.peek_at(1) == '*' {
                self.consume();
                proof {
                    lemma_position_step(p, src, i, k);
                }
                depth += 1;
            } else if self.peek() == '*' && self.peek_at(1) == '/' {
                self.consume();
                proof {
                    lemma_position_step(p, src, i, k);
                }
                depth -= 1;
            }
            let ghost k2 = self.current as int;
            self.consume();
            proof {
                lemma_position_step(p, src, i, k2);
            }
            if depth == 0 {
                break;
            }
        }
        assert(errors_view(self.errors@) =~= errors_view(start.errors@) + seq![]);
    }

    /// Reads the whole source from `current` on and returns its tokens, the
    /// last one `Eof`; the errors found on the way are in `errors`, and
    /// `encountered_error` says whether there are any. A number token's
    /// literal is what `format_number` returns for its lexeme, which is called
    /// only on digits with at most one `.` among them. The lexer is left at
    /// the start of the source, on line 1 and column 1.
    pub fn analyze<F: Fn(&str) -> String>(&mut self, format_number: F) -> (tokens: Vec<Token>)
        requires
            old(self).line + old(self).source.len() < u32::MAX,
            old(self).column + old(self).source.len() + 1 < u32::MAX,
            forall|s: &str| is_number_literal(s@) ==> call_requires(format_number, (s,)),
        ensures
            tokens_agree(
                format_number,
                tokens@,
                lex_from(old(self).source@, old(self).current as int, old(self).pos()).0,
            ),
            errors_view(final(self).errors@) == lex_from(
                old(self).source@,
                old(self).current as int,
                old(self).pos(),
            ).1,
            final(self).encountered_error == (final(self).errors@.len() > 0),
            final(self).source@ == old(self).source@,
            final(self).current == 0,
            final(self).line == 1,
            final(self).column == 1,
            final(self).token_start() == end_position(
                old(self).source@,
                old(self).current as int,
                old(self).pos(),
            ),
    {
        self.encountered_error = false;
        self.errors = Vec::new();
        let ghost src = self.source@;
        let ghost i0 = self.current as int;
        let ghost p0 = self.pos();
        let ghost mut done: Seq<TokenView> = seq![];
        let mut tokens: Vec<Token> = Vec::new();
        proof {
            if i0 < src.len() {
                lemma_position_step(p0, src, i0, i0);
            } else if i0 == src.len() {
                assert(src.subrange(i0, i0).len() == 0);
            }
            assert(errors_view(self.errors@) =~= seq![]);
        }
        while !self.eof()
            invariant
                0 <= i0,
                self.source@ == src,
                forall|s: &str| is_number_literal(s@) ==> call_requires(format_number, (s,)),
                i0 <= src.len() ==> (i0 <= self.current <= src.len() && self.pos() == position_after(
                    p0,
                    src.subrange(i0, self.current as int),
                )),
                i0 > src.len() ==> (self.current == i0 && self.pos() == p0),
                self.current <= src.len() ==> self.has_room(),
                lex_from(src, i0, p0) == (
                    done + lex_from(src, self.current as int, self.pos()).0,
                    errors_view(self.errors@) + lex_from(src, self.current as int, self.pos()).1,
                ),
                tokens_agree(format_number, tokens@, done),
                self.encountered_error == (self.errors@.len() > 0),
            decreases src.len() - self.current,
        {
            self.tok_start_line = self.line;
            self.tok_start_col = self.column;
            let ghost before = *self;
            let ghost i = self.current as int;
            let ghost p = self.pos();
            let ghost produced: Seq<Token> = seq![];
            let ghost old_tokens = tokens@;
            proof {
                lemma_position_step(p, src, i, i);
            }
            let c = self.peek();
            let d = self.peek_at(1);
            let double_type = double_char(c, d);
            let single_type = single_char(c);
            if let Some(token_type) = double_type {
                let a = self.consume();
                proof {
                    lemma_position_step(p, src, i, i);
                }
                let b = self.consume();
                proof {
                    lemma_position_step(p, src, i, i + 1);
                }
                let mut lexeme = String::new();
                push_char(&mut lexeme, a);
                push_char(&mut lexeme, b);
                assert(lexeme@ =~= src.subrange(i, i + 2));
                let t = self.make_token(token_type, lexeme);
                tokens.push(t);
                proof {
                    produced = seq![t];
                    assert(errors_view(self.errors@) =~= errors_view(before.errors@) + seq![]);
                    }
            } else if let Some(token_type) = single_type {
                let a = self.consume();
                let mut lexeme = String::new();
                push_char(&mut lexeme, a);
                assert(lexeme@ =~= src.subrange(i, i + 1));
                let t = self.make_token(token_type, lexeme);
                tokens.push(t);
                proof {
                    produced = seq![t];
                    assert(errors_view(self.errors@) =~= errors_view(before.errors@) + seq![]);
                }
            } else if c == '"' {
                let r = self.string();
                if let Some(t) = r {
                    tokens.push(t);
                    proof {
                        produced = seq![t];
                    }
                }
            } else if digit(c) {
                let r = self.number(&format_number);
                if let Some(t) = r {
                    tokens.push(t);
                    proof {
                        produced = seq![t];
                    }
                }
            } else if alpha(c) || c == '_' {
                let t = self.identifier();
                tokens.push(t);
                proof {
                    produced = seq![t];
                }
            } else if c == ' ' || c == '\t' || c == '\n' {
                self.consume();
                proof {
                    assert(errors_view(self.errors@) =~= errors_view(before.errors@) + seq![]);
                }
            } else if c == '/' && d == '/' {
                while !self.eof() && self.peek() != '\n'
                    invariant
                        before.same_but_cursor(self),
                        self.source@ == src,
                        0 <= i < src.len(),
                        i <= self.current <= src.len(),
                        self.has_room(),
                        self.pos() == position_after(p, src.subrange(i, self.current as int)),
                        forall|j: int| i <= j < self.current ==> in_class(CharClass::NotNewline, #[trigger] src[j]),
                    decreases src.len() - self.current,
                {
                    let ghost k = self.current as int;
                    self.consume();
                    proof {
                        lemma_position_step(p, src, i, k);
                    }
                }
                proof {
                    lemma_scan_while_at(src, i, CharClass::NotNewline, self.current as int);
                    assert(errors_view(self.errors@) =~= errors_view(before.errors@) + seq![]);
                }
            } else if c == '/' && d == '*' {
                self.block_comment();
            } else if c == '/' {
                let a = self.consume();
                let mut lexeme = String::new();
                push_char(&mut lexeme, a);
                assert(lexeme@ =~= src.subrange(i, i + 1));
                let t = self.make_token(TokenType::Slash, lexeme);
                tokens.push(t);
                proof {
                    produced = seq![t];
                    assert(errors_view(self.errors@) =~= errors_view(before.errors@) + seq![]);
                }
            } else {
                let a = self.consume();
                let mut message = "Unexpected character: ".to_owned();
                push_char(&mut message, a);
                assert(message@ =~= "Unexpected character: "@ + seq![a]);
                let e = LexError { line: self.line, message };
                self.errors.push(e);
                self.encountered_error = true;
                proof {
                    assert(errors_view(self.errors@) =~= errors_view(before.errors@) + seq![e@]);
                }
            }
            proof {
                lemma_lex_unfold(src, i, p);
                lemma_step_advances(src, i);
                assert(errors_view(self.errors@) == errors_view(before.errors@) + step_output(src, i, p).1);
                assert(before.took_step(self));
                assert(tokens_agree(format_number, produced, before.step_tokens()));
                assert(tokens@ =~= old_tokens + produced);
                lemma_agree_concat(format_number, old_tokens, done, produced, before.step_tokens());
                let ghost rest = lex_from(src, self.current as int, self.pos());
                assert(done + before.step_tokens() + rest.0 =~= done + (before.step_tokens() + rest.0));
                let ghost out1 = step_output(src, i, p).1;
                assert(errors_view(before.errors@) + out1 + rest.1 =~= errors_view(before.errors@) + (out1 + rest.1));
                done = done + before.step_tokens();
                if i0 <= src.len() {
                    lemma_position_concat(p0, src, i0, i, self.current as int);
                }
            }
        }
        self.tok_start_line = self.line;
        self.tok_start_col = self.column;
        let t = self.make_token(TokenType::Eof, String::new());
        proof {
            assert(t@ == eof_token(self.pos()));
            lemma_agree_concat(format_number, tokens@, done, seq![t], seq![eof_token(self.pos())]);
            assert(tokens@.push(t) =~= tokens@ + seq![t]);
            if i0 <= src.len() {
                assert(self.current == src.len());
            }
        }
        tokens.push(t);
        self.current = 0;
        self.line = 1;
        self.column = 1;
        tokens
    }
}

/// Tokens that agree with two models agree with their concatenation.
pub proof fn lemma_agree_concat<F: Fn(&str) -> String>(
    format_number: F,
    a: Seq<Token>,
    x: Seq<TokenView>,
    b: Seq<Token>,
    y: Seq<TokenView>,
)
    requires
        tokens_agree(format_number, a, x),
        tokens_agree(format_number, b, y),
    ensures
        tokens_agree(format_number, a + b, x + y),
{
    assert forall|k: int| 0 <= k < (a + b).len() implies agrees(format_number, #[trigger] (a + b)[k]@, (x + y)[k]) by {
        if k < a.len() {
            assert((a + b)[k] == a[k]);
        } else {
            assert((a + b)[k] == b[k - a.len()]);
        }
    }
}

} // verus!
