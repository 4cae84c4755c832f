//! What the lexer produces, stated over sequences of characters: where each
//! token of a source text ends, what it holds, and which errors are reported.

use vstd::prelude::*;
use crate::text::{lower_seq, is_digit, is_alpha, is_ident_char, is_number_char, count_char};
use crate::token::{TokenType, TokenView, Span, declared_name};

verus! {

/// The character at `k`, or `'\0'` past either end of `src`.
pub open spec fn peek_char(src: Seq<char>, k: int) -> char {
    if 0 <= k < src.len() {
        src[k]
    } else {
        '\0'
    }
}

/// The (line, column) after reading `c` at (line, column) `p`: a newline
/// starts the next line at column 1, any other character moves one column on.
pub open spec fn advance(p: (int, int), c: char) -> (int, int) {
    if c == '\n' {
        (p.0 + 1, 1)
    } else {
        (p.0, p.1 + 1)
    }
}

/// The (line, column) after reading all of `s` from `p`.
pub open spec fn position_after(p: (int, int), s: Seq<char>) -> (int, int)
    decreases s.len(),
{
    if s.len() == 0 {
        p
    } else {
        advance(position_after(p, s.drop_last()), s.last())
    }
}

/// The classes of characters that the lexer reads runs of.
pub enum CharClass {
    /// Anything but `"`: the body of a string literal.
    NotQuote,
    /// Digits and `.`: a number literal.
    NumberChar,
    /// ASCII letters and digits and `_`: the rest of an identifier.
    IdentChar,
    /// Anything but a newline: a line comment.
    NotNewline,
}

pub open spec fn in_class(class: CharClass, c: char) -> bool {
    match class {
        CharClass::NotQuote => c != '"',
        CharClass::NumberChar => is_number_char(c),
        CharClass::IdentChar => is_ident_char(c),
        CharClass::NotNewline => c != '\n',
    }
}

/// The first index from `k` on whose character is not in `class`, or the
/// length.
pub open spec fn scan_while(src: Seq<char>, k: int, class: CharClass) -> int
    decreases src.len() - k,
{
    if k < 0 || k >= src.len() || !in_class(class, src[k]) {
        k
    } else {
        scan_while(src, k + 1, class)
    }
}

/// The index of the first `"` after the one at `i`, or the length.
pub open spec fn string_close(src: Seq<char>, i: int) -> int {
    scan_while(src, i + 1, CharClass::NotQuote)
}

/// The end of the run of digits and dots that starts at `i`.
pub open spec fn number_end(src: Seq<char>, i: int) -> int {
    scan_while(src, i, CharClass::NumberChar)
}

/// The end of the identifier whose first character is at `i`.
pub open spec fn ident_end(src: Seq<char>, i: int) -> int {
    scan_while(src, i + 1, CharClass::IdentChar)
}

/// The index of the first newline from `i` on, or the length.
pub open spec fn line_end(src: Seq<char>, i: int) -> int {
    scan_while(src, i, CharClass::NotNewline)
}

/// Where a block comment ends when reading resumes at `p` with `depth`
/// comments open: `/*` opens one more, `*/` closes one, and the comment ends
/// just after the character that brings the depth to zero, or at the end of
/// the source.
pub open spec fn comment_end(src: Seq<char>, p: int, depth: int) -> int
    decreases src.len() - p,
{
    if p < 0 || p >= src.len() {
        p
    } else {
        let opens = src[p] == '/' && peek_char(src, p + 1) == '*';
        let closes = src[p] == '*' && peek_char(src, p + 1) == '/';
        let next = if opens || closes { p + 2 } else { p + 1 };
        let d = if opens { depth + 1 } else if closes { depth - 1 } else { depth };
        if d == 0 {
            next
        } else {
            comment_end(src, next, d)
        }
    }
}

/// The operators of two characters.
pub open spec fn double_char_type(c: char, d: char) -> Option<TokenType> {
    if d != '=' {
        None
    } else if c == '=' {
        Some(TokenType::EqualEqual)
    } else if c == '!' {
        Some(TokenType::BangEqual)
    } else if c == '<' {
        Some(TokenType::LessEqual)
    } else if c == '>' {
        Some(TokenType::GreaterEqual)
    } else {
        None
    }
}

/// The tokens of one character, but for `/`.
pub open spec fn single_char_type(c: char) -> Option<TokenType> {
    if c == '(' {
        Some(TokenType::LeftParen)
    } else if c == ')' {
        Some(TokenType::RightParen)
    } else if c == '{' {
        Some(TokenType::LeftBrace)
    } else if c == '}' {
        Some(TokenType::RightBrace)
    } else if c == '*' {
        Some(TokenType::Star)
    } else if c == '.' {
        Some(TokenType::Dot)
    } else if c == ',' {
        Some(TokenType::Comma)
    } else if c == '+' {
        Some(TokenType::Plus)
    } else if c == '-' {
        Some(TokenType::Minus)
    } else if c == ';' {
        Some(TokenType::Semicolon)
    } else if c == '=' {
        Some(TokenType::Equal)
    } else if c == '!' {
        Some(TokenType::Bang)
    } else if c == '<' {
        Some(TokenType::Less)
    } else if c == '>' {
        Some(TokenType::Greater)
    } else {
        None
    }
}

/// The type of an identifier-shaped word: its keyword, or `Identifier`.
pub open spec fn keyword_type(s: Seq<char>) -> TokenType {
    if s == "and"@ {
        TokenType::And
    } else
    if s == "class"@ {
        TokenType::Class
    } else
    if s == "else"@ {
        TokenType::Else
    } else
    if s == "false"@ {
        TokenType::False
    } else
    if s == "for"@ {
        TokenType::For
    } else
    if s == "fun"@ {
        TokenType::Fun
    } else
    if s == "if"@ {
        TokenType::If
    } else
    if s == "nil"@ {
        TokenType::Nil
    } else
    if s == "or"@ {
        TokenType::Or
    } else
    if s == "print"@ {
        TokenType::Print
    } else
    if s == "return"@ {
        TokenType::Return
    } else
    if s == "super"@ {
        TokenType::Super
    } else
    if s == "this"@ {
        TokenType::This
    } else
    if s == "true"@ {
        TokenType::True
    } else
    if s == "var"@ {
        TokenType::Var
    } else
    if s == "while"@ {
        TokenType::While
    } else {
        TokenType::Identifier
    }
}

/// What the lexer does with the text at one position.
pub enum Step {
    /// A token of this type, with no literal.
    Emit(TokenType),
    /// A string literal.
    EmitString,
    /// A number literal.
    EmitNumber,
    /// White space or a comment.
    Skip,
    /// A `"` with no closing `"`.
    Unterminated,
    /// Digits and dots with more than one dot.
    BadNumber,
    /// A character that starts no token.
    Unexpected,
}

/// What the lexer does at `i` (where `0 <= i < src.len()`), and where the
/// next step starts.
pub open spec fn step(src: Seq<char>, i: int) -> (Step, int) {
    let c = src[i];
    let d = peek_char(src, i + 1);
    if double_char_type(c, d) is Some {
        (Step::Emit(double_char_type(c, d).unwrap()), i + 2)
    } else if single_char_type(c) is Some {
        (Step::Emit(single_char_type(c).unwrap()), i + 1)
    } else if c == '"' {
        let j = string_close(src, i);
        if j < src.len() {
            (Step::EmitString, j + 1)
        } else {
            (Step::Unterminated, src.len() as int)
        }
    } else if is_digit(c) {
        let e = number_end(src, i);
        if count_char(src.subrange(i, e), '.') <= 1 {
            (Step::EmitNumber, e)
        } else {
            (Step::BadNumber, e)
        }
    } else if is_alpha(c) || c == '_' {
        let e = ident_end(src, i);
        (Step::Emit(keyword_type(src.subrange(i, e))), e)
    } else if c == ' ' || c == '\t' || c == '\n' {
        (Step::Skip, i + 1)
    } else if c == '/' && d == '/' {
        (Step::Skip, line_end(src, i))
    } else if c == '/' && d == '*' {
        (Step::Skip, comment_end(src, i, 0))
    } else if c == '/' {
        (Step::Emit(TokenType::Slash), i + 1)
    } else {
        (Step::Unexpected, i + 1)
    }
}

/// A reported lexical error as plain values.
pub struct LexErrorView {
    pub line: int,
    pub message: Seq<char>,
}

/// The span from position `p` to position `q`.
pub open spec fn span_of(p: (int, int), q: (int, int)) -> Span {
    Span {
        line_start: p.0 as u32,
        col_start: p.1 as u32,
        line_end: q.0 as u32,
        col_end: q.1 as u32,
    }
}

pub open spec fn eof_token(p: (int, int)) -> TokenView {
    TokenView { token_type: TokenType::Eof, lexeme: seq![], literal: None, span: span_of(p, p) }
}

/// The tokens and errors of the step at `i` (where `0 <= i < src.len()`),
/// read at position `p`: at most one token and at most one error. A number
/// token stands here without its literal, which the lexer has from its
/// caller.
pub open spec fn step_output(src: Seq<char>, i: int, p: (int, int)) -> (Seq<TokenView>, Seq<LexErrorView>) {
    let (kind, end) = step(src, i);
    let lexeme = src.subrange(i, end);
    let q = position_after(p, lexeme);
    match kind {
        Step::Emit(t) => (
            seq![TokenView { token_type: t, lexeme, literal: None, span: span_of(p, q) }],
            seq![],
        ),
        Step::EmitString => (
            seq![TokenView {
                token_type: TokenType::String,
                lexeme,
                literal: Some(src.subrange(i + 1, end - 1)),
                span: span_of(p, q),
            }],
            seq![],
        ),
        Step::EmitNumber => (
            seq![TokenView { token_type: TokenType::Number, lexeme, literal: None, span: span_of(p, q) }],
            seq![],
        ),
        Step::Skip => (seq![], seq![]),
        Step::Unterminated => (seq![], seq![LexErrorView { line: q.0, message: "Unterminated string."@ }]),
        Step::BadNumber => (
            seq![],
            seq![LexErrorView { line: q.0, message: "Invalid number literal: "@ + lexeme }],
        ),
        Step::Unexpected => (
            seq![],
            seq![LexErrorView { line: q.0, message: "Unexpected character: "@ + seq![src[i]] }],
        ),
    }
}

/// The tokens and the errors of the source `src` read from index `i` at
/// position `p`, the last token being `Eof` at the position after the text.
pub open spec fn lex_from(src: Seq<char>, i: int, p: (int, int)) -> (Seq<TokenView>, Seq<LexErrorView>)
    decreases src.len() - i,
{
    if i < 0 || i >= src.len() {
        (seq![eof_token(p)], seq![])
    } else {
        let end = step(src, i).1;
        proof {
            lemma_step_advances(src, i);
        }
        let out = step_output(src, i, p);
        let rest = lex_from(src, end, position_after(p, src.subrange(i, end)));
        (out.0 + rest.0, out.1 + rest.1)
    }
}

/// The position after reading `src` from `i` on, starting at `p`.
pub open spec fn end_position(src: Seq<char>, i: int, p: (int, int)) -> (int, int) {
    if 0 <= i <= src.len() {
        position_after(p, src.subrange(i, src.len() as int))
    } else {
        p
    }
}

/// Reading one more character moves the position by that character.
pub proof fn lemma_position_step(p: (int, int), src: Seq<char>, i: int, k: int)
    requires
        0 <= i <= k < src.len(),
    ensures
        position_after(p, src.subrange(i, k + 1)) == advance(position_after(p, src.subrange(i, k)), src[k]),
        position_after(p, src.subrange(i, i)) == p,
{
    assert(src.subrange(i, k + 1).drop_last() =~= src.subrange(i, k));
    assert(src.subrange(i, i).len() == 0);
}

/// Reading `src[i..k]` and then `src[k..m]` is reading `src[i..m]`.
pub proof fn lemma_position_concat(p: (int, int), src: Seq<char>, i: int, k: int, m: int)
    requires
        0 <= i <= k <= m <= src.len(),
    ensures
        position_after(position_after(p, src.subrange(i, k)), src.subrange(k, m))
            == position_after(p, src.subrange(i, m)),
    decreases m - k,
{
    if k == m {
        assert(src.subrange(k, m).len() == 0);
    } else {
        lemma_position_concat(p, src, i, k, m - 1);
        lemma_position_step(position_after(p, src.subrange(i, k)), src, k, m - 1);
        lemma_position_step(p, src, i, m - 1);
    }
}

/// One step of the lexing model.
pub proof fn lemma_lex_unfold(src: Seq<char>, i: int, p: (int, int))
    requires
        0 <= i < src.len(),
    ensures
        lex_from(src, i, p) == ({
            let end = step(src, i).1;
            let out = step_output(src, i, p);
            let rest = lex_from(src, end, position_after(p, src.subrange(i, end)));
            (out.0 + rest.0, out.1 + rest.1)
        }),
{
}

pub proof fn lemma_scan_while(src: Seq<char>, k: int, class: CharClass)
    requires
        0 <= k <= src.len(),
    ensures
        k <= scan_while(src, k, class) <= src.len(),
        forall|j: int| k <= j < scan_while(src, k, class) ==> in_class(class, #[trigger] src[j]),
        scan_while(src, k, class) < src.len() ==> !in_class(class, src[scan_while(src, k, class)]),
    decreases src.len() - k,
{
    if k < src.len() && in_class(class, src[k]) {
        lemma_scan_while(src, k + 1, class);
    }
}

/// A run that stops at `e` ends at `e`.
pub proof fn lemma_scan_while_at(src: Seq<char>, k: int, class: CharClass, e: int)
    requires
        0 <= k <= e <= src.len(),
        forall|j: int| k <= j < e ==> in_class(class, #[trigger] src[j]),
        e == src.len() || !in_class(class, src[e]),
    ensures
        scan_while(src, k, class) == e,
    decreases e - k,
{
    if k < e {
        lemma_scan_while_at(src, k + 1, class, e);
    }
}

pub proof fn lemma_comment_end(src: Seq<char>, p: int, depth: int)
    requires
        0 <= p <= src.len(),
    ensures
        p <= comment_end(src, p, depth) <= src.len(),
        p < src.len() ==> p < comment_end(src, p, depth),
    decreases src.len() - p,
{
    if p < src.len() {
        let opens = src[p] == '/' && peek_char(src, p + 1) == '*';
        let closes = src[p] == '*' && peek_char(src, p + 1) == '/';
        let next = if opens || closes { p + 2 } else { p + 1 };
        lemma_comment_end(src, next, if opens { depth + 1 } else if closes { depth - 1 } else { depth });
    }
}

pub proof fn lemma_step_advances(src: Seq<char>, i: int)
    requires
        0 <= i < src.len(),
    ensures
        i < step(src, i).1 <= src.len(),
{
    lemma_scan_while(src, i + 1, CharClass::NotQuote);
    lemma_scan_while(src, i, CharClass::NumberChar);
    lemma_scan_while(src, i + 1, CharClass::IdentChar);
    lemma_scan_while(src, i, CharClass::NotNewline);
    lemma_comment_end(src, i, 0);
}

/// Reading `s` moves the line on by the number of newlines in `s`.
pub proof fn lemma_line_counts_newlines(p: (int, int), s: Seq<char>)
    ensures
        position_after(p, s).0 == p.0 + crate::text::count_char(s, '\n'),
    decreases s.len(),
{
    if s.len() > 0 {
        lemma_line_counts_newlines(p, s.drop_last());
    }
}

/// `a` is not after `b`, lines first, then columns.
pub open spec fn pos_le(a: (int, int), b: (int, int)) -> bool {
    a.0 < b.0 || (a.0 == b.0 && a.1 <= b.1)
}

pub open spec fn span_start(s: Span) -> (int, int) {
    (s.line_start as int, s.col_start as int)
}

pub open spec fn span_end(s: Span) -> (int, int) {
    (s.line_end as int, s.col_end as int)
}

/// Every token starts no later than it ends, and ends no later than the next
/// one starts.
pub open spec fn spans_ordered(tokens: Seq<TokenView>) -> bool {
    &&& forall|k: int| 0 <= k < tokens.len() ==> pos_le(span_start(#[trigger] tokens[k].span), span_end(tokens[k].span))
    &&& forall|k: int| 0 <= k < tokens.len() - 1 ==> pos_le(span_end(#[trigger] tokens[k].span), span_start(tokens[k + 1].span))
}

/// Reading text never moves the position back, and moves it by at most one
/// line or column per character.
pub proof fn lemma_position_bounds(p: (int, int), s: Seq<char>)
    requires
        p.0 >= 0,
        p.1 >= 0,
    ensures
        pos_le(p, position_after(p, s)),
        p.0 <= position_after(p, s).0 <= p.0 + s.len(),
        0 <= position_after(p, s).1 <= (if p.1 < 1 { 1 } else { p.1 }) + s.len(),
    decreases s.len(),
{
    if s.len() > 0 {
        lemma_position_bounds(p, s.drop_last());
    }
}

/// The position is inside the range of `u32`.
pub open spec fn small_pos(p: (int, int)) -> bool {
    0 <= p.0 < u32::MAX && 0 <= p.1 < u32::MAX
}

/// The tokens of a source text come in source order: each starts no later
/// than it ends and ends no later than the next one starts, all of them at
/// or after the position the lexer started from, and the last one is the
/// `Eof` token at the end of the text, the only `Eof` token.
pub proof fn lemma_lex_shape(src: Seq<char>, i: int, p: (int, int))
    requires
        0 <= i <= src.len(),
        p.0 >= 0,
        p.1 >= 0,
        p.0 + (src.len() - i) < u32::MAX,
        (if p.1 < 1 { 1 } else { p.1 }) + (src.len() - i) < u32::MAX,
    ensures
        lex_from(src, i, p).0.len() >= 1,
        lex_from(src, i, p).0.last() == eof_token(end_position(src, i, p)),
        forall|k: int| 0 <= k < lex_from(src, i, p).0.len() - 1
            ==> (#[trigger] lex_from(src, i, p).0[k]).token_type != TokenType::Eof,
        spans_ordered(lex_from(src, i, p).0),
        forall|k: int| 0 <= k < lex_from(src, i, p).0.len()
            ==> pos_le(p, span_start((#[trigger] lex_from(src, i, p).0[k]).span)),
    decreases src.len() - i,
{
    if i >= src.len() {
        if i == src.len() {
            assert(src.subrange(i, i).len() == 0);
        }
    } else {
        lemma_step_advances(src, i);
        let end = step(src, i).1;
        let lexeme = src.subrange(i, end);
        let q = position_after(p, lexeme);
        lemma_position_bounds(p, lexeme);
        lemma_lex_shape(src, end, q);
        lemma_position_concat(p, src, i, end, src.len() as int);
        let out = step_output(src, i, p).0;
        let rest = lex_from(src, end, q).0;
        assert(lex_from(src, i, p).0 == out + rest);
        assert(out.len() <= 1);
        if out.len() == 1 {
            assert(out[0].span == span_of(p, q));
            assert(out[0].token_type != TokenType::Eof) by {
                assert(keyword_type(src.subrange(i, ident_end(src, i))) != TokenType::Eof);
            }
            assert(span_start(out[0].span) == p);
            assert(span_end(out[0].span) == q);
            assert forall|k: int| 0 <= k < (out + rest).len() - 1 implies pos_le(
                span_end(#[trigger] (out + rest)[k].span),
                span_start((out + rest)[k + 1].span),
            ) by {
                if k > 0 {
                    assert((out + rest)[k] == rest[k - 1]);
                    assert((out + rest)[k + 1] == rest[k]);
                } else {
                    assert((out + rest)[1] == rest[0]);
                }
            }
            assert forall|k: int| 0 <= k < (out + rest).len() implies pos_le(
                span_start((#[trigger] (out + rest)[k]).span),
                span_end((out + rest)[k].span),
            ) by {
                if k > 0 {
                    assert((out + rest)[k] == rest[k - 1]);
                }
            }
            assert forall|k: int| 0 <= k < (out + rest).len() implies pos_le(
                p,
                span_start((#[trigger] (out + rest)[k]).span),
            ) by {
                if k > 0 {
                    assert((out + rest)[k] == rest[k - 1]);
                }
            }
            assert forall|k: int| 0 <= k < (out + rest).len() - 1 implies (#[trigger] (out + rest)[k]).token_type
                != TokenType::Eof by {
                if k > 0 {
                    assert((out + rest)[k] == rest[k - 1]);
                }
            }
        } else {
            assert(out + rest =~= rest);
            assert forall|k: int| 0 <= k < rest.len() implies pos_le(p, span_start((#[trigger] rest[k]).span)) by {
                assert(pos_le(q, span_start(rest[k].span)));
            }
        }
    }
}

/// Digits and dots, at most one of them a dot, the first a digit: the
/// number literals that the lexer accepts.
pub open spec fn is_number_literal(s: Seq<char>) -> bool {
    &&& s.len() >= 1
    &&& is_digit(s[0])
    &&& forall|k: int| 0 <= k < s.len() ==> is_number_char(#[trigger] s[k])
    &&& count_char(s, '.') <= 1
}

/// What the text of a token looks like: a string literal is its characters
/// between two `"`, none of them a `"`; a number is a digit followed by
/// digits and dots, at most one of them a dot; an identifier is a letter or
/// `_` followed by letters, digits and `_`, and is no keyword.
pub open spec fn lexeme_well_formed(t: TokenView) -> bool {
    match t.token_type {
        TokenType::String => t.literal matches Some(l) && t.lexeme == seq!['"'] + l + seq!['"']
            && forall|k: int| 0 <= k < l.len() ==> #[trigger] l[k] != '"',
        TokenType::Number => is_number_literal(t.lexeme),
        TokenType::Identifier => t.lexeme.len() >= 1 && (is_alpha(t.lexeme[0]) || t.lexeme[0] == '_')
            && (forall|k: int| 0 <= k < t.lexeme.len() ==> is_ident_char(#[trigger] t.lexeme[k]))
            && keyword_type(t.lexeme) == TokenType::Identifier,
        _ => true,
    }
}

/// Every token the lexer produces has text of the shape its type calls for.
pub proof fn lemma_lexemes_well_formed(src: Seq<char>, i: int, p: (int, int))
    requires
        0 <= i,
    ensures
        forall|k: int| 0 <= k < lex_from(src, i, p).0.len() ==> lexeme_well_formed(#[trigger] lex_from(src, i, p).0[k]),
    decreases src.len() - i,
{
    if i < src.len() {
        lemma_step_advances(src, i);
        let end = step(src, i).1;
        let q = position_after(p, src.subrange(i, end));
        lemma_lexemes_well_formed(src, end, q);
        let out = step_output(src, i, p).0;
        let rest = lex_from(src, end, q).0;
        assert(lex_from(src, i, p).0 == out + rest);
        if out.len() == 1 {
            let t = out[0];
            let lexeme = src.subrange(i, end);
            if t.token_type == TokenType::String {
                let j = string_close(src, i);
                lemma_scan_while(src, i + 1, CharClass::NotQuote);
                assert(j == end - 1);
                assert(lexeme =~= seq!['"'] + src.subrange(i + 1, end - 1) + seq!['"']);
                assert forall|k: int| 0 <= k < src.subrange(i + 1, end - 1).len() implies #[trigger] src.subrange(
                    i + 1,
                    end - 1,
                )[k] != '"' by {
                    assert(src.subrange(i + 1, end - 1)[k] == src[i + 1 + k]);
                }
            } else if t.token_type == TokenType::Number {
                lemma_scan_while(src, i, CharClass::NumberChar);
                assert forall|k: int| 0 <= k < lexeme.len() implies is_number_char(#[trigger] lexeme[k]) by {
                    assert(lexeme[k] == src[i + k]);
                }
            } else if t.token_type == TokenType::Identifier {
                lemma_scan_while(src, i + 1, CharClass::IdentChar);
                if is_alpha(src[i]) || src[i] == '_' {
                    assert forall|k: int| 0 <= k < lexeme.len() implies is_ident_char(#[trigger] lexeme[k]) by {
                        assert(lexeme[k] == src[i + k]);
                    }
                }
            }
            assert(lexeme_well_formed(t));
            assert forall|k: int| 0 <= k < (out + rest).len() implies lexeme_well_formed(#[trigger] (out + rest)[k]) by {
                if k > 0 {
                    assert((out + rest)[k] == rest[k - 1]);
                }
            }
        } else {
            assert(out + rest =~= rest);
        }
    }
}

/// Lexing a whole source text from line 1, column 1 ends with the `Eof`
/// token on the line after the last newline: line 1 plus the number of
/// newlines in the text.
pub proof fn lemma_eof_line(src: Seq<char>)
    requires
        src.len() + 2 < u32::MAX,
    ensures
        lex_from(src, 0, (1, 1)).0.last().token_type == TokenType::Eof,
        lex_from(src, 0, (1, 1)).0.last().span.line_start == 1 + count_char(src, '\n'),
{
    lemma_lex_shape(src, 0, (1, 1));
    assert(src.subrange(0, src.len() as int) =~= src);
    lemma_line_counts_newlines((1, 1), src);
    lemma_position_bounds((1, 1), src);
}

/// White space is skipped: where the source has a space, a tab or a newline
/// at `i`, lexing from `i` gives no token and no error for it, and the same
/// tokens and errors as lexing from `i + 1`, one character further on.
pub proof fn lemma_white_space_skipped(src: Seq<char>, i: int, p: (int, int))
    requires
        0 <= i < src.len(),
        src[i] == ' ' || src[i] == '\t' || src[i] == '\n',
    ensures
        lex_from(src, i, p) == lex_from(src, i + 1, advance(p, src[i])),
        step_output(src, i, p).0.len() == 0,
        step_output(src, i, p).1.len() == 0,
{
    lemma_lex_unfold(src, i, p);
    lemma_position_step(p, src, i, i);
    assert(step(src, i).1 == i + 1);
    assert(step_output(src, i, p).0 =~= seq![]);
    assert(step_output(src, i, p).1 =~= seq![]);
    let rest = lex_from(src, i + 1, advance(p, src[i]));
    assert(seq![] + rest.0 =~= rest.0);
    assert(seq![] + rest.1 =~= rest.1);
}

/// The token types of the keywords.
pub open spec fn is_keyword(t: TokenType) -> bool {
    t == TokenType::And || t == TokenType::Class || t == TokenType::Else || t == TokenType::False || t == TokenType::For || t == TokenType::Fun || t == TokenType::If || t == TokenType::Nil || t == TokenType::Or || t == TokenType::Print || t == TokenType::Return || t == TokenType::Super || t == TokenType::This || t == TokenType::True || t == TokenType::Var || t == TokenType::While
}

/// A word is a keyword exactly when it is the name of a keyword's token
/// type in lower case, and it then has that type; every other word, such as
/// any word of one letter, is an identifier.
pub proof fn lemma_keywords_are_their_names(s: Seq<char>, t: TokenType)
    ensures
        keyword_type(s) == TokenType::Identifier || is_keyword(keyword_type(s)),
        keyword_type(s) != TokenType::Identifier ==> s == lower_seq(declared_name(keyword_type(s))),
        is_keyword(t) ==> keyword_type(lower_seq(declared_name(t))) == t,
{
    reveal_strlit("and");
    reveal_strlit("class");
    reveal_strlit("else");
    reveal_strlit("false");
    reveal_strlit("for");
    reveal_strlit("fun");
    reveal_strlit("if");
    reveal_strlit("nil");
    reveal_strlit("or");
    reveal_strlit("print");
    reveal_strlit("return");
    reveal_strlit("super");
    reveal_strlit("this");
    reveal_strlit("true");
    reveal_strlit("var");
    reveal_strlit("while");
    if s == "and"@ {
        reveal_strlit("and");
        reveal_strlit("And");
        assert(lower_seq("And"@) =~= "and"@);
    } else if s == "class"@ {
        reveal_strlit("class");
        reveal_strlit("Class");
        assert(lower_seq("Class"@) =~= "class"@);
    } else if s == "else"@ {
        reveal_strlit("else");
        reveal_strlit("Else");
        assert(lower_seq("Else"@) =~= "else"@);
    } else if s == "false"@ {
        reveal_strlit("false");
        reveal_strlit("False");
        assert(lower_seq("False"@) =~= "false"@);
    } else if s == "for"@ {
        reveal_strlit("for");
        reveal_strlit("For");
        assert(lower_seq("For"@) =~= "for"@);
    } else if s == "fun"@ {
        reveal_strlit("fun");
        reveal_strlit("Fun");
        assert(lower_seq("Fun"@) =~= "fun"@);
    } else if s == "if"@ {
        reveal_strlit("if");
        reveal_strlit("If");
        assert(lower_seq("If"@) =~= "if"@);
    } else if s == "nil"@ {
        reveal_strlit("nil");
        reveal_strlit("Nil");
        assert(lower_seq("Nil"@) =~= "nil"@);
    } else if s == "or"@ {
        reveal_strlit("or");
        reveal_strlit("Or");
        assert(lower_seq("Or"@) =~= "or"@);
    } else if s == "print"@ {
        reveal_strlit("print");
        reveal_strlit("Print");
        assert(lower_seq("Print"@) =~= "print"@);
    } else if s == "return"@ {
        reveal_strlit("return");
        reveal_strlit("Return");
        assert(lower_seq("Return"@) =~= "return"@);
    } else if s == "super"@ {
        reveal_strlit("super");
        reveal_strlit("Super");
        assert(lower_seq("Super"@) =~= "super"@);
    } else if s == "this"@ {
        reveal_strlit("this");
        reveal_strlit("This");
        assert(lower_seq("This"@) =~= "this"@);
    } else if s == "true"@ {
        reveal_strlit("true");
        reveal_strlit("True");
        assert(lower_seq("True"@) =~= "true"@);
    } else if s == "var"@ {
        reveal_strlit("var");
        reveal_strlit("Var");
        assert(lower_seq("Var"@) =~= "var"@);
    } else if s == "while"@ {
        reveal_strlit("while");
        reveal_strlit("While");
        assert(lower_seq("While"@) =~= "while"@);
    }
    if is_keyword(t) {
        match t {
        TokenType::And => {
            reveal_strlit("And");
            assert(lower_seq("And"@) =~= "and"@);
            assert(keyword_type("and"@) == TokenType::And);
        },
        TokenType::Class => {
            reveal_strlit("Class");
            assert(lower_seq("Class"@) =~= "class"@);
            assert(keyword_type("class"@) == TokenType::Class);
        },
        TokenType::Else => {
            reveal_strlit("Else");
            assert(lower_seq("Else"@) =~= "else"@);
            assert(keyword_type("else"@) == TokenType::Else);
        },
        TokenType::False => {
            reveal_strlit("False");
            assert(lower_seq("False"@) =~= "false"@);
            assert("false"@[0] != "class"@[0]);
            assert(keyword_type("false"@) == TokenType::False);
        },
        TokenType::For => {
            reveal_strlit("For");
            assert(lower_seq("For"@) =~= "for"@);
            assert("for"@[0] != "and"@[0]);
            assert(keyword_type("for"@) == TokenType::For);
        },
        TokenType::Fun => {
            reveal_strlit("Fun");
            assert(lower_seq("Fun"@) =~= "fun"@);
            assert("fun"@[0] != "and"@[0]);
            assert("fun"@[1] != "for"@[1]);
            assert(keyword_type("fun"@) == TokenType::Fun);
        },
        TokenType::If => {
            reveal_strlit("If");
            assert(lower_seq("If"@) =~= "if"@);
            assert(keyword_type("if"@) == TokenType::If);
        },
        TokenType::Nil => {
            reveal_strlit("Nil");
            assert(lower_seq("Nil"@) =~= "nil"@);
            assert("nil"@[0] != "and"@[0]);
            assert("nil"@[0] != "for"@[0]);
            assert("nil"@[0] != "fun"@[0]);
            assert(keyword_type("nil"@) == TokenType::Nil);
        },
        TokenType::Or => {
            reveal_strlit("Or");
            assert(lower_seq("Or"@) =~= "or"@);
            assert("or"@[0] != "if"@[0]);
            assert(keyword_type("or"@) == TokenType::Or);
        },
        TokenType::Print => {
            reveal_strlit("Print");
            assert(lower_seq("Print"@) =~= "print"@);
            assert("print"@[0] != "class"@[0]);
            assert("print"@[0] != "false"@[0]);
            assert(keyword_type("print"@) == TokenType::Print);
        },
        TokenType::Return => {
            reveal_strlit("Return");
            assert(lower_seq("Return"@) =~= "return"@);
            assert(keyword_type("return"@) == TokenType::Return);
        },
        TokenType::Super => {
            reveal_strlit("Super");
            assert(lower_seq("Super"@) =~= "super"@);
            assert("super"@[0] != "class"@[0]);
            assert("super"@[0] != "false"@[0]);
            assert("super"@[0] != "print"@[0]);
            assert(keyword_type("super"@) == TokenType::Super);
        },
        TokenType::This => {
            reveal_strlit("This");
            assert(lower_seq("This"@) =~= "this"@);
            assert("this"@[0] != "else"@[0]);
            assert(keyword_type("this"@) == TokenType::This);
        },
        TokenType::True => {
            reveal_strlit("True");
            assert(lower_seq("True"@) =~= "true"@);
            assert("true"@[0] != "else"@[0]);
            assert("true"@[1] != "this"@[1]);
            assert(keyword_type("true"@) == TokenType::True);
        },
        TokenType::Var => {
            reveal_strlit("Var");
            assert(lower_seq("Var"@) =~= "var"@);
            assert("var"@[0] != "and"@[0]);
            assert("var"@[0] != "for"@[0]);
            assert("var"@[0] != "fun"@[0]);
            assert("var"@[0] != "nil"@[0]);
            assert(keyword_type("var"@) == TokenType::Var);
        },
        TokenType::While => {
            reveal_strlit("While");
            assert(lower_seq("While"@) =~= "while"@);
            assert("while"@[0] != "class"@[0]);
            assert("while"@[0] != "false"@[0]);
            assert("while"@[0] != "print"@[0]);
            assert("while"@[0] != "super"@[0]);
            assert(keyword_type("while"@) == TokenType::While);
        },
            _ => {},
        }
    }
}

/// An operator of two characters is named after the tokens of its two
/// characters, one name after the other (`<=` is `Less` and `Equal`).
pub proof fn lemma_two_char_operator_names(c: char, d: char)
    requires
        double_char_type(c, d) is Some,
    ensures
        single_char_type(c) is Some,
        single_char_type(d) is Some,
        declared_name(double_char_type(c, d).unwrap()) == declared_name(single_char_type(c).unwrap())
            + declared_name(single_char_type(d).unwrap()),
{
    reveal_strlit("Equal");
    reveal_strlit("EqualEqual");
    reveal_strlit("Bang");
    reveal_strlit("BangEqual");
    reveal_strlit("Less");
    reveal_strlit("LessEqual");
    reveal_strlit("Greater");
    reveal_strlit("GreaterEqual");
    assert("EqualEqual"@ =~= "Equal"@ + "Equal"@);
    assert("BangEqual"@ =~= "Bang"@ + "Equal"@);
    assert("LessEqual"@ =~= "Less"@ + "Equal"@);
    assert("GreaterEqual"@ =~= "Greater"@ + "Equal"@);
}

/// A character that starts a token of its own never causes an error: an
/// operator, a letter, a digit followed by digits with at most one dot, `_`,
/// `/`, or white space gives no error where it stands.
pub proof fn lemma_token_starts_no_error(src: Seq<char>, i: int, p: (int, int))
    requires
        0 <= i < src.len(),
        single_char_type(src[i]) is Some || is_alpha(src[i]) || src[i] == '_' || src[i] == '/' || src[i] == ' '
            || src[i] == '\t' || src[i] == '\n',
    ensures
        step_output(src, i, p).1.len() == 0,
{
}

} // verus!
