//! Token types, source spans and tokens, and their printed forms.

use vstd::prelude::*;
use crate::text::{push_char, push_all, char_is_uppercase, char_to_ascii_uppercase, ascii_upper,
    is_upper};

verus! {

/// The kinds of token of the Lox language.
#[derive(Clone, Copy, Debug, PartialEq, Eq, Hash, Structural)]
pub enum TokenType {
    LeftParen,
    RightParen,
    LeftBrace,
    RightBrace,
    Star,
    Dot,
    Comma,
    Semicolon,
    Plus,
    Minus,
    Slash,
    Equal,
    EqualEqual,
    Bang,
    BangEqual,
    Less,
    LessEqual,
    Greater,
    GreaterEqual,
    String,
    Number,
    Identifier,
    And,
    Class,
    Else,
    False,
    For,
    Fun,
    If,
    Nil,
    Or,
    Print,
    Return,
    Super,
    This,
    True,
    Var,
    While,
    Eof,
}

/// The name of a token type as written in its declaration, such as `LeftParen`.
pub open spec fn declared_name(t: TokenType) -> Seq<char> {
    match t {
        TokenType::LeftParen => "LeftParen"@,
        TokenType::RightParen => "RightParen"@,
        TokenType::LeftBrace => "LeftBrace"@,
        TokenType::RightBrace => "RightBrace"@,
        TokenType::Star => "Star"@,
        TokenType::Dot => "Dot"@,
        TokenType::Comma => "Comma"@,
        TokenType::Semicolon => "Semicolon"@,
        TokenType::Plus => "Plus"@,
        TokenType::Minus => "Minus"@,
        TokenType::Slash => "Slash"@,
        TokenType::Equal => "Equal"@,
        TokenType::EqualEqual => "EqualEqual"@,
        TokenType::Bang => "Bang"@,
        TokenType::BangEqual => "BangEqual"@,
        TokenType::Less => "Less"@,
        TokenType::LessEqual => "LessEqual"@,
        TokenType::Greater => "Greater"@,
        TokenType::GreaterEqual => "GreaterEqual"@,
        TokenType::String => "String"@,
        TokenType::Number => "Number"@,
        TokenType::Identifier => "Identifier"@,
        TokenType::And => "And"@,
        TokenType::Class => "Class"@,
        TokenType::Else => "Else"@,
        TokenType::False => "False"@,
        TokenType::For => "For"@,
        TokenType::Fun => "Fun"@,
        TokenType::If => "If"@,
        TokenType::Nil => "Nil"@,
        TokenType::Or => "Or"@,
        TokenType::Print => "Print"@,
        TokenType::Return => "Return"@,
        TokenType::Super => "Super"@,
        TokenType::This => "This"@,
        TokenType::True => "True"@,
        TokenType::Var => "Var"@,
        TokenType::While => "While"@,
        TokenType::Eof => "Eof"@,
    }
}

/// Pascal case to upper snake case: an `_` goes before every upper-case
/// character but the first, and every character is upper-cased (ASCII only).
pub open spec fn upper_snake(s: Seq<char>) -> Seq<char>
    decreases s.len(),
{
    if s.len() == 0 {
        seq![]
    } else {
        let c = s.last();
        upper_snake(s.drop_last()) + (if is_upper(c) && s.len() > 1 {
            seq!['_']
        } else {
            seq![]
        }) + seq![ascii_upper(c)]
    }
}

/// How a token type is printed, such as `LEFT_PAREN`.
pub open spec fn type_display(t: TokenType) -> Seq<char> {
    upper_snake(declared_name(t))
}

impl TokenType {
    /// The declared name of this token type.
    pub fn name(&self) -> (r: &'static str)
        ensures
            r@ == declared_name(*self),
    {
        match self {
            TokenType::LeftParen => "LeftParen",
            TokenType::RightParen => "RightParen",
            TokenType::LeftBrace => "LeftBrace",
            TokenType::RightBrace => "RightBrace",
            TokenType::Star => "Star",
            TokenType::Dot => "Dot",
            TokenType::Comma => "Comma",
            TokenType::Semicolon => "Semicolon",
            TokenType::Plus => "Plus",
            TokenType::Minus => "Minus",
            TokenType::Slash => "Slash",
            TokenType::Equal => "Equal",
            TokenType::EqualEqual => "EqualEqual",
            TokenType::Bang => "Bang",
            TokenType::BangEqual => "BangEqual",
            TokenType::Less => "Less",
            TokenType::LessEqual => "LessEqual",
            TokenType::Greater => "Greater",
            TokenType::GreaterEqual => "GreaterEqual",
            TokenType::String => "String",
            TokenType::Number => "Number",
            TokenType::Identifier => "Identifier",
            TokenType::And => "And",
            TokenType::Class => "Class",
            TokenType::Else => "Else",
            TokenType::False => "False",
            TokenType::For => "For",
            TokenType::Fun => "Fun",
            TokenType::If => "If",
            TokenType::Nil => "Nil",
            TokenType::Or => "Or",
            TokenType::Print => "Print",
            TokenType::Return => "Return",
            TokenType::Super => "Super",
            TokenType::This => "This",
            TokenType::True => "True",
            TokenType::Var => "Var",
            TokenType::While => "While",
            TokenType::Eof => "Eof",
        }
    }

    /// The printed form of this token type, its name in upper snake case.
    pub fn to_string(&self) -> (r: String)
        ensures
            r@ == type_display(*self),
    {
        pascal_to_upper_snake(self.name().to_owned())
    }
}

/// Converts a Pascal-case name such as `LeftParen` to `LEFT_PAREN`.
pub fn pascal_to_upper_snake(s: String) -> (r: String)
    ensures
        r@ == upper_snake(s@),
{
    broadcast use vstd::string::group_string_axioms;
    let mut result = String::new();
    let ghost src = s@;
    let mut first = true;
    for ch in it: s.as_str().chars()
        invariant
            it.seq() == src,
            first == (it.index() == 0),
            result@ == upper_snake(src.take(it.index() as int)),
    {
        let ghost k = it.index() as int;
        if char_is_uppercase(ch) && !first {
            push_char(&mut result, '_');
        }
        push_char(&mut result, char_to_ascii_uppercase(ch));
        first = false;
        assert(src.take(k + 1).drop_last() =~= src.take(k));
        assert(result@ =~= upper_snake(src.take(k + 1)));
    }
    assert(src.take(src.len() as int) =~= src);
    result
}

/// A stretch of source text: where a token starts and where it ends, as
/// 1-based lines and columns; the end is the position just after the token.
#[derive(Clone, Copy, Debug, PartialEq, Eq, Hash, Structural)]
pub struct Span {
    pub line_start: u32,
    pub col_start: u32,
    pub line_end: u32,
    pub col_end: u32,
}

/// A token: its type, the source text it was read from, the value of a
/// string or number literal, and where it stands in the source.
#[derive(Clone, Debug, PartialEq, Eq, Hash)]
pub struct Token {
    pub token_type: TokenType,
    pub lexeme: String,
    pub literal: Option<String>,
    pub span: Span,
}

/// A token as plain values.
pub struct TokenView {
    pub token_type: TokenType,
    pub lexeme: Seq<char>,
    pub literal: Option<Seq<char>>,
    pub span: Span,
}

pub open spec fn option_view(o: Option<String>) -> Option<Seq<char>> {
    match o {
        Some(s) => Some(s@),
        None => None,
    }
}

impl View for Token {
    type V = TokenView;

    open spec fn view(&self) -> TokenView {
        TokenView {
            token_type: self.token_type,
            lexeme: self.lexeme@,
            literal: option_view(self.literal),
            span: self.span,
        }
    }
}

/// How a token is printed: its type, its lexeme and its literal (`null`
/// where it has none), separated by single spaces.
pub open spec fn token_display(t: TokenView) -> Seq<char> {
    type_display(t.token_type) + seq![' '] + t.lexeme + seq![' '] + match t.literal {
        Some(l) => l,
        None => "null"@,
    }
}

impl Token {
    /// The printed form of this token.
    pub fn to_string(&self) -> (r: String)
        ensures
            r@ == token_display(self@),
    {
        let mut out = self.token_type.to_string();
        push_char(&mut out, ' ');
        push_all(&mut out, self.lexeme.as_str());
        push_char(&mut out, ' ');
        match &self.literal {
            Some(l) => push_all(&mut out, l.as_str()),
            None => push_all(&mut out, "null"),
        }
        out
    }
}

/// `s` holds no newline.
pub open spec fn no_newline(s: Seq<char>) -> bool {
    forall|k: int| 0 <= k < s.len() ==> #[trigger] s[k] != '\n'
}

proof fn lemma_declared_name_one_line(t: TokenType)
    ensures
        no_newline(declared_name(t)),
{
    match t {
        TokenType::LeftParen => {
            reveal_strlit("LeftParen");
        },
        TokenType::RightParen => {
            reveal_strlit("RightParen");
        },
        TokenType::LeftBrace => {
            reveal_strlit("LeftBrace");
        },
        TokenType::RightBrace => {
            reveal_strlit("RightBrace");
        },
        TokenType::Star => {
            reveal_strlit("Star");
        },
        TokenType::Dot => {
            reveal_strlit("Dot");
        },
        TokenType::Comma => {
            reveal_strlit("Comma");
        },
        TokenType::Semicolon => {
            reveal_strlit("Semicolon");
        },
        TokenType::Plus => {
            reveal_strlit("Plus");
        },
        TokenType::Minus => {
            reveal_strlit("Minus");
        },
        TokenType::Slash => {
            reveal_strlit("Slash");
        },
        TokenType::Equal => {
            reveal_strlit("Equal");
        },
        TokenType::EqualEqual => {
            reveal_strlit("EqualEqual");
        },
        TokenType::Bang => {
            reveal_strlit("Bang");
        },
        TokenType::BangEqual => {
            reveal_strlit("BangEqual");
        },
        TokenType::Less => {
            reveal_strlit("Less");
        },
        TokenType::LessEqual => {
            reveal_strlit("LessEqual");
        },
        TokenType::Greater => {
            reveal_strlit("Greater");
        },
        TokenType::GreaterEqual => {
            reveal_strlit("GreaterEqual");
        },
        TokenType::String => {
            reveal_strlit("String");
        },
        TokenType::Number => {
            reveal_strlit("Number");
        },
        TokenType::Identifier => {
            reveal_strlit("Identifier");
        },
        TokenType::And => {
            reveal_strlit("And");
        },
        TokenType::Class => {
            reveal_strlit("Class");
        },
        TokenType::Else => {
            reveal_strlit("Else");
        },
        TokenType::False => {
            reveal_strlit("False");
        },
        TokenType::For => {
            reveal_strlit("For");
        },
        TokenType::Fun => {
            reveal_strlit("Fun");
        },
        TokenType::If => {
            reveal_strlit("If");
        },
        TokenType::Nil => {
            reveal_strlit("Nil");
        },
        TokenType::Or => {
            reveal_strlit("Or");
        },
        TokenType::Print => {
            reveal_strlit("Print");
        },
        TokenType::Return => {
            reveal_strlit("Return");
        },
        TokenType::Super => {
            reveal_strlit("Super");
        },
        TokenType::This => {
            reveal_strlit("This");
        },
        TokenType::True => {
            reveal_strlit("True");
        },
        TokenType::Var => {
            reveal_strlit("Var");
        },
        TokenType::While => {
            reveal_strlit("While");
        },
        TokenType::Eof => {
            reveal_strlit("Eof");
        },
    }
}

proof fn lemma_upper_snake_one_line(s: Seq<char>)
    requires
        no_newline(s),
    ensures
        no_newline(upper_snake(s)),
    decreases s.len(),
{
    if s.len() > 0 {
        assert(no_newline(s.drop_last())) by {
            assert forall|k: int| 0 <= k < s.drop_last().len() implies #[trigger] s.drop_last()[k] != '\n' by {
                assert(s.drop_last()[k] == s[k]);
            }
        }
        lemma_upper_snake_one_line(s.drop_last());
        assert(s.last() == s[s.len() - 1]);
    }
}

/// The printed form of a token type is one line.
pub proof fn lemma_type_display_one_line(t: TokenType)
    ensures
        no_newline(type_display(t)),
{
    lemma_declared_name_one_line(t);
    lemma_upper_snake_one_line(declared_name(t));
}

/// The printed names, written out.
spec fn printed_name(t: TokenType) -> Seq<char> {
    match t {
        TokenType::LeftParen => seq!['L', 'E', 'F', 'T', '_', 'P', 'A', 'R', 'E', 'N'],
        TokenType::RightParen => seq!['R', 'I', 'G', 'H', 'T', '_', 'P', 'A', 'R', 'E', 'N'],
        TokenType::LeftBrace => seq!['L', 'E', 'F', 'T', '_', 'B', 'R', 'A', 'C', 'E'],
        TokenType::RightBrace => seq!['R', 'I', 'G', 'H', 'T', '_', 'B', 'R', 'A', 'C', 'E'],
        TokenType::Star => seq!['S', 'T', 'A', 'R'],
        TokenType::Dot => seq!['D', 'O', 'T'],
        TokenType::Comma => seq!['C', 'O', 'M', 'M', 'A'],
        TokenType::Semicolon => seq!['S', 'E', 'M', 'I', 'C', 'O', 'L', 'O', 'N'],
        TokenType::Plus => seq!['P', 'L', 'U', 'S'],
        TokenType::Minus => seq!['M', 'I', 'N', 'U', 'S'],
        TokenType::Slash => seq!['S', 'L', 'A', 'S', 'H'],
        TokenType::Equal => seq!['E', 'Q', 'U', 'A', 'L'],
        TokenType::EqualEqual => seq!['E', 'Q', 'U', 'A', 'L', '_', 'E', 'Q', 'U', 'A', 'L'],
        TokenType::Bang => seq!['B', 'A', 'N', 'G'],
        TokenType::BangEqual => seq!['B', 'A', 'N', 'G', '_', 'E', 'Q', 'U', 'A', 'L'],
        TokenType::Less => seq!['L', 'E', 'S', 'S'],
        TokenType::LessEqual => seq!['L', 'E', 'S', 'S', '_', 'E', 'Q', 'U', 'A', 'L'],
        TokenType::Greater => seq!['G', 'R', 'E', 'A', 'T', 'E', 'R'],
        TokenType::GreaterEqual => seq!['G', 'R', 'E', 'A', 'T', 'E', 'R', '_', 'E', 'Q', 'U', 'A', 'L'],
        TokenType::String => seq!['S', 'T', 'R', 'I', 'N', 'G'],
        TokenType::Number => seq!['N', 'U', 'M', 'B', 'E', 'R'],
        TokenType::Identifier => seq!['I', 'D', 'E', 'N', 'T', 'I', 'F', 'I', 'E', 'R'],
        TokenType::And => seq!['A', 'N', 'D'],
        TokenType::Class => seq!['C', 'L', 'A', 'S', 'S'],
        TokenType::Else => seq!['E', 'L', 'S', 'E'],
        TokenType::False => seq!['F', 'A', 'L', 'S', 'E'],
        TokenType::For => seq!['F', 'O', 'R'],
        TokenType::Fun => seq!['F', 'U', 'N'],
        TokenType::If => seq!['I', 'F'],
        TokenType::Nil => seq!['N', 'I', 'L'],
        TokenType::Or => seq!['O', 'R'],
        TokenType::Print => seq!['P', 'R', 'I', 'N', 'T'],
        TokenType::Return => seq!['R', 'E', 'T', 'U', 'R', 'N'],
        TokenType::Super => seq!['S', 'U', 'P', 'E', 'R'],
        TokenType::This => seq!['T', 'H', 'I', 'S'],
        TokenType::True => seq!['T', 'R', 'U', 'E'],
        TokenType::Var => seq!['V', 'A', 'R'],
        TokenType::While => seq!['W', 'H', 'I', 'L', 'E'],
        TokenType::Eof => seq!['E', 'O', 'F'],
    }
}

/// The token type with a printed name, if any.
spec fn type_printed_as(s: Seq<char>) -> Option<TokenType> {
    if s == printed_name(TokenType::LeftParen) {
        Some(TokenType::LeftParen)
    } else
    if s == printed_name(TokenType::RightParen) {
        Some(TokenType::RightParen)
    } else
    if s == printed_name(TokenType::LeftBrace) {
        Some(TokenType::LeftBrace)
    } else
    if s == printed_name(TokenType::RightBrace) {
        Some(TokenType::RightBrace)
    } else
    if s == printed_name(TokenType::Star) {
        Some(TokenType::Star)
    } else
    if s == printed_name(TokenType::Dot) {
        Some(TokenType::Dot)
    } else
    if s == printed_name(TokenType::Comma) {
        Some(TokenType::Comma)
    } else
    if s == printed_name(TokenType::Semicolon) {
        Some(TokenType::Semicolon)
    } else
    if s == printed_name(TokenType::Plus) {
        Some(TokenType::Plus)
    } else
    if s == printed_name(TokenType::Minus) {
        Some(TokenType::Minus)
    } else
    if s == printed_name(TokenType::Slash) {
        Some(TokenType::Slash)
    } else
    if s == printed_name(TokenType::Equal) {
        Some(TokenType::Equal)
    } else
    if s == printed_name(TokenType::EqualEqual) {
        Some(TokenType::EqualEqual)
    } else
    if s == printed_name(TokenType::Bang) {
        Some(TokenType::Bang)
    } else
    if s == printed_name(TokenType::BangEqual) {
        Some(TokenType::BangEqual)
    } else
    if s == printed_name(TokenType::Less) {
        Some(TokenType::Less)
    } else
    if s == printed_name(TokenType::LessEqual) {
        Some(TokenType::LessEqual)
    } else
    if s == printed_name(TokenType::Greater) {
        Some(TokenType::Greater)
    } else
    if s == printed_name(TokenType::GreaterEqual) {
        Some(TokenType::GreaterEqual)
    } else
    if s == printed_name(TokenType::String) {
        Some(TokenType::String)
    } else
    if s == printed_name(TokenType::Number) {
        Some(TokenType::Number)
    } else
    if s == printed_name(TokenType::Identifier) {
        Some(TokenType::Identifier)
    } else
    if s == printed_name(TokenType::And) {
        Some(TokenType::And)
    } else
    if s == printed_name(TokenType::Class) {
        Some(TokenType::Class)
    } else
    if s == printed_name(TokenType::Else) {
        Some(TokenType::Else)
    } else
    if s == printed_name(TokenType::False) {
        Some(TokenType::False)
    } else
    if s == printed_name(TokenType::For) {
        Some(TokenType::For)
    } else
    if s == printed_name(TokenType::Fun) {
        Some(TokenType::Fun)
    } else
    if s == printed_name(TokenType::If) {
        Some(TokenType::If)
    } else
    if s == printed_name(TokenType::Nil) {
        Some(TokenType::Nil)
    } else
    if s == printed_name(TokenType::Or) {
        Some(TokenType::Or)
    } else
    if s == printed_name(TokenType::Print) {
        Some(TokenType::Print)
    } else
    if s == printed_name(TokenType::Return) {
        Some(TokenType::Return)
    } else
    if s == printed_name(TokenType::Super) {
        Some(TokenType::Super)
    } else
    if s == printed_name(TokenType::This) {
        Some(TokenType::This)
    } else
    if s == printed_name(TokenType::True) {
        Some(TokenType::True)
    } else
    if s == printed_name(TokenType::Var) {
        Some(TokenType::Var)
    } else
    if s == printed_name(TokenType::While) {
        Some(TokenType::While)
    } else
    if s == printed_name(TokenType::Eof) {
        Some(TokenType::Eof)
    } else {
        None
    }
}

proof fn lemma_printed_left_paren()
    ensures
        type_display(TokenType::LeftParen) == printed_name(TokenType::LeftParen),
        type_printed_as(printed_name(TokenType::LeftParen)) == Some(TokenType::LeftParen),
{
    reveal_strlit("LeftParen");
    reveal_with_fuel(upper_snake, 14);
    assert(type_display(TokenType::LeftParen) =~= printed_name(TokenType::LeftParen));

}

proof fn lemma_printed_right_paren()
    ensures
        type_display(TokenType::RightParen) == printed_name(TokenType::RightParen),
        type_printed_as(printed_name(TokenType::RightParen)) == Some(TokenType::RightParen),
{
    reveal_strlit("RightParen");
    reveal_with_fuel(upper_snake, 14);
    assert(type_display(TokenType::RightParen) =~= printed_name(TokenType::RightParen));

}

proof fn lemma_printed_left_brace()
    ensures
        type_display(TokenType::LeftBrace) == printed_name(TokenType::LeftBrace),
        type_printed_as(printed_name(TokenType::LeftBrace)) == Some(TokenType::LeftBrace),
{
    reveal_strlit("LeftBrace");
    reveal_with_fuel(upper_snake, 14);
    assert(type_display(TokenType::LeftBrace) =~= printed_name(TokenType::LeftBrace));
    assert(printed_name(TokenType::LeftBrace)[5] != printed_name(TokenType::LeftParen)[5]);
}

proof fn lemma_printed_right_brace()
    ensures
        type_display(TokenType::RightBrace) == printed_name(TokenType::RightBrace),
        type_printed_as(printed_name(TokenType::RightBrace)) == Some(TokenType::RightBrace),
{
    reveal_strlit("RightBrace");
    reveal_with_fuel(upper_snake, 14);
    assert(type_display(TokenType::RightBrace) =~= printed_name(TokenType::RightBrace));
    assert(printed_name(TokenType::RightBrace)[6] != printed_name(TokenType::RightParen)[6]);
}

proof fn lemma_printed_star()
    ensures
        type_display(TokenType::Star) == printed_name(TokenType::Star),
        type_printed_as(printed_name(TokenType::Star)) == Some(TokenType::Star),
{
    reveal_strlit("Star");
    reveal_with_fuel(upper_snake, 14);
    assert(type_display(TokenType::Star) =~= printed_name(TokenType::Star));

}

proof fn lemma_printed_dot()
    ensures
        type_display(TokenType::Dot) == printed_name(TokenType::Dot),
        type_printed_as(printed_name(TokenType::Dot)) == Some(TokenType::Dot),
{
    reveal_strlit("Dot");
    reveal_with_fuel(upper_snake, 14);
    assert(type_display(TokenType::Dot) =~= printed_name(TokenType::Dot));

}

proof fn lemma_printed_comma()
    ensures
        type_display(TokenType::Comma) == printed_name(TokenType::Comma),
        type_printed_as(printed_name(TokenType::Comma)) == Some(TokenType::Comma),
{
    reveal_strlit("Comma");
    reveal_with_fuel(upper_snake, 14);
    assert(type_display(TokenType::Comma) =~= printed_name(TokenType::Comma));

}

proof fn lemma_printed_semicolon()
    ensures
        type_display(TokenType::Semicolon) == printed_name(TokenType::Semicolon),
        type_printed_as(printed_name(TokenType::Semicolon)) == Some(TokenType::Semicolon),
{
    reveal_strlit("Semicolon");
    reveal_with_fuel(upper_snake, 14);
    assert(type_display(TokenType::Semicolon) =~= printed_name(TokenType::Semicolon));

}

proof fn lemma_printed_plus()
    ensures
        type_display(TokenType::Plus) == printed_name(TokenType::Plus),
        type_printed_as(printed_name(TokenType::Plus)) == Some(TokenType::Plus),
{
    reveal_strlit("Plus");
    reveal_with_fuel(upper_snake, 14);
    assert(type_display(TokenType::Plus) =~= printed_name(TokenType::Plus));
    assert(printed_name(TokenType::Plus)[0] != printed_name(TokenType::Star)[0]);
}

proof fn lemma_printed_minus()
    ensures
        type_display(TokenType::Minus) == printed_name(TokenType::Minus),
        type_printed_as(printed_name(TokenType::Minus)) == Some(TokenType::Minus),
{
    reveal_strlit("Minus");
    reveal_with_fuel(upper_snake, 14);
    assert(type_display(TokenType::Minus) =~= printed_name(TokenType::Minus));
    assert(printed_name(TokenType::Minus)[0] != printed_name(TokenType::Comma)[0]);
}

proof fn lemma_printed_slash()
    ensures
        type_display(TokenType::Slash) == printed_name(TokenType::Slash),
        type_printed_as(printed_name(TokenType::Slash)) == Some(TokenType::Slash),
{
    reveal_strlit("Slash");
    reveal_with_fuel(upper_snake, 14);
    assert(type_display(TokenType::Slash) =~= printed_name(TokenType::Slash));
    assert(printed_name(TokenType::Slash)[0] != printed_name(TokenType::Comma)[0]);
    assert(printed_name(TokenType::Slash)[0] != printed_name(TokenType::Minus)[0]);
}

proof fn lemma_printed_equal()
    ensures
        type_display(TokenType::Equal) == printed_name(TokenType::Equal),
        type_printed_as(printed_name(TokenType::Equal)) == Some(TokenType::Equal),
{
    reveal_strlit("Equal");
    reveal_with_fuel(upper_snake, 14);
    assert(type_display(TokenType::Equal) =~= printed_name(TokenType::Equal));
    assert(printed_name(TokenType::Equal)[0] != printed_name(TokenType::Comma)[0]);
    assert(printed_name(TokenType::Equal)[0] != printed_name(TokenType::Minus)[0]);
    assert(printed_name(TokenType::Equal)[0] != printed_name(TokenType::Slash)[0]);
}

proof fn lemma_printed_equal_equal()
    ensures
        type_display(TokenType::EqualEqual) == printed_name(TokenType::EqualEqual),
        type_printed_as(printed_name(TokenType::EqualEqual)) == Some(TokenType::EqualEqual),
{
    reveal_strlit("EqualEqual");
    reveal_with_fuel(upper_snake, 14);
    assert(type_display(TokenType::EqualEqual) =~= printed_name(TokenType::EqualEqual));
    assert(printed_name(TokenType::EqualEqual)[0] != printed_name(TokenType::RightParen)[0]);
    assert(printed_name(TokenType::EqualEqual)[0] != printed_name(TokenType::RightBrace)[0]);
}

proof fn lemma_printed_bang()
    ensures
        type_display(TokenType::Bang) == printed_name(TokenType::Bang),
        type_printed_as(printed_name(TokenType::Bang)) == Some(TokenType::Bang),
{
    reveal_strlit("Bang");
    reveal_with_fuel(upper_snake, 14);
    assert(type_display(TokenType::Bang) =~= printed_name(TokenType::Bang));
    assert(printed_name(TokenType::Bang)[0] != printed_name(TokenType::Star)[0]);
    assert(printed_name(TokenType::Bang)[0] != printed_name(TokenType::Plus)[0]);
}

proof fn lemma_printed_bang_equal()
    ensures
        type_display(TokenType::BangEqual) == printed_name(TokenType::BangEqual),
        type_printed_as(printed_name(TokenType::BangEqual)) == Some(TokenType::BangEqual),
{
    reveal_strlit("BangEqual");
    reveal_with_fuel(upper_snake, 14);
    assert(type_display(TokenType::BangEqual) =~= printed_name(TokenType::BangEqual));
    assert(printed_name(TokenType::BangEqual)[0] != printed_name(TokenType::LeftParen)[0]);
    assert(printed_name(TokenType::BangEqual)[0] != printed_name(TokenType::LeftBrace)[0]);
}

proof fn lemma_printed_less()
    ensures
        type_display(TokenType::Less) == printed_name(TokenType::Less),
        type_printed_as(printed_name(TokenType::Less)) == Some(TokenType::Less),
{
    reveal_strlit("Less");
    reveal_with_fuel(upper_snake, 14);
    assert(type_display(TokenType::Less) =~= printed_name(TokenType::Less));
    assert(printed_name(TokenType::Less)[0] != printed_name(TokenType::Star)[0]);
    assert(printed_name(TokenType::Less)[0] != printed_name(TokenType::Plus)[0]);
    assert(printed_name(TokenType::Less)[0] != printed_name(TokenType::Bang)[0]);
}

proof fn lemma_printed_less_equal()
    ensures
        type_display(TokenType::LessEqual) == printed_name(TokenType::LessEqual),
        type_printed_as(printed_name(TokenType::LessEqual)) == Some(TokenType::LessEqual),
{
    reveal_strlit("LessEqual");
    reveal_with_fuel(upper_snake, 14);
    assert(type_display(TokenType::LessEqual) =~= printed_name(TokenType::LessEqual));
    assert(printed_name(TokenType::LessEqual)[2] != printed_name(TokenType::LeftParen)[2]);
    assert(printed_name(TokenType::LessEqual)[2] != printed_name(TokenType::LeftBrace)[2]);
    assert(printed_name(TokenType::LessEqual)[0] != printed_name(TokenType::BangEqual)[0]);
}

proof fn lemma_printed_greater()
    ensures
        type_display(TokenType::Greater) == printed_name(TokenType::Greater),
        type_printed_as(printed_name(TokenType::Greater)) == Some(TokenType::Greater),
{
    reveal_strlit("Greater");
    reveal_with_fuel(upper_snake, 14);
    assert(type_display(TokenType::Greater) =~= printed_name(TokenType::Greater));

}

proof fn lemma_printed_greater_equal()
    ensures
        type_display(TokenType::GreaterEqual) == printed_name(TokenType::GreaterEqual),
        type_printed_as(printed_name(TokenType::GreaterEqual)) == Some(TokenType::GreaterEqual),
{
    reveal_strlit("GreaterEqual");
    reveal_with_fuel(upper_snake, 14);
    assert(type_display(TokenType::GreaterEqual) =~= printed_name(TokenType::GreaterEqual));

}

proof fn lemma_printed_string()
    ensures
        type_display(TokenType::String) == printed_name(TokenType::String),
        type_printed_as(printed_name(TokenType::String)) == Some(TokenType::String),
{
    reveal_strlit("String");
    reveal_with_fuel(upper_snake, 14);
    assert(type_display(TokenType::String) =~= printed_name(TokenType::String));

}

proof fn lemma_printed_number()
    ensures
        type_display(TokenType::Number) == printed_name(TokenType::Number),
        type_printed_as(printed_name(TokenType::Number)) == Some(TokenType::Number),
{
    reveal_strlit("Number");
    reveal_with_fuel(upper_snake, 14);
    assert(type_display(TokenType::Number) =~= printed_name(TokenType::Number));
    assert(printed_name(TokenType::Number)[0] != printed_name(TokenType::String)[0]);
}

proof fn lemma_printed_identifier()
    ensures
        type_display(TokenType::Identifier) == printed_name(TokenType::Identifier),
        type_printed_as(printed_name(TokenType::Identifier)) == Some(TokenType::Identifier),
{
    reveal_strlit("Identifier");
    reveal_with_fuel(upper_snake, 14);
    assert(type_display(TokenType::Identifier) =~= printed_name(TokenType::Identifier));
    assert(printed_name(TokenType::Identifier)[0] != printed_name(TokenType::LeftParen)[0]);
    assert(printed_name(TokenType::Identifier)[0] != printed_name(TokenType::LeftBrace)[0]);
    assert(printed_name(TokenType::Identifier)[0] != printed_name(TokenType::BangEqual)[0]);
    assert(printed_name(TokenType::Identifier)[0] != printed_name(TokenType::LessEqual)[0]);
}

proof fn lemma_printed_and()
    ensures
        type_display(TokenType::And) == printed_name(TokenType::And),
        type_printed_as(printed_name(TokenType::And)) == Some(TokenType::And),
{
    reveal_strlit("And");
    reveal_with_fuel(upper_snake, 14);
    assert(type_display(TokenType::And) =~= printed_name(TokenType::And));
    assert(printed_name(TokenType::And)[0] != printed_name(TokenType::Dot)[0]);
}

proof fn lemma_printed_class()
    ensures
        type_display(TokenType::Class) == printed_name(TokenType::Class),
        type_printed_as(printed_name(TokenType::Class)) == Some(TokenType::Class),
{
    reveal_strlit("Class");
    reveal_with_fuel(upper_snake, 14);
    assert(type_display(TokenType::Class) =~= printed_name(TokenType::Class));
    assert(printed_name(TokenType::Class)[1] != printed_name(TokenType::Comma)[1]);
    assert(printed_name(TokenType::Class)[0] != printed_name(TokenType::Minus)[0]);
    assert(printed_name(TokenType::Class)[0] != printed_name(TokenType::Slash)[0]);
    assert(printed_name(TokenType::Class)[0] != printed_name(TokenType::Equal)[0]);
}

proof fn lemma_printed_else()
    ensures
        type_display(TokenType::Else) == printed_name(TokenType::Else),
        type_printed_as(printed_name(TokenType::Else)) == Some(TokenType::Else),
{
    reveal_strlit("Else");
    reveal_with_fuel(upper_snake, 14);
    assert(type_display(TokenType::Else) =~= printed_name(TokenType::Else));
    assert(printed_name(TokenType::Else)[0] != printed_name(TokenType::Star)[0]);
    assert(printed_name(TokenType::Else)[0] != printed_name(TokenType::Plus)[0]);
    assert(printed_name(TokenType::Else)[0] != printed_name(TokenType::Bang)[0]);
    assert(printed_name(TokenType::Else)[0] != printed_name(TokenType::Less)[0]);
}

proof fn lemma_printed_false()
    ensures
        type_display(TokenType::False) == printed_name(TokenType::False),
        type_printed_as(printed_name(TokenType::False)) == Some(TokenType::False),
{
    reveal_strlit("False");
    reveal_with_fuel(upper_snake, 14);
    assert(type_display(TokenType::False) =~= printed_name(TokenType::False));
    assert(printed_name(TokenType::False)[0] != printed_name(TokenType::Comma)[0]);
    assert(printed_name(TokenType::False)[0] != printed_name(TokenType::Minus)[0]);
    assert(printed_name(TokenType::False)[0] != printed_name(TokenType::Slash)[0]);
    assert(printed_name(TokenType::False)[0] != printed_name(TokenType::Equal)[0]);
    assert(printed_name(TokenType::False)[0] != printed_name(TokenType::Class)[0]);
}

proof fn lemma_printed_for()
    ensures
        type_display(TokenType::For) == printed_name(TokenType::For),
        type_printed_as(printed_name(TokenType::For)) == Some(TokenType::For),
{
    reveal_strlit("For");
    reveal_with_fuel(upper_snake, 14);
    assert(type_display(TokenType::For) =~= printed_name(TokenType::For));
    assert(printed_name(TokenType::For)[0] != printed_name(TokenType::Dot)[0]);
    assert(printed_name(TokenType::For)[0] != printed_name(TokenType::And)[0]);
}

proof fn lemma_printed_fun()
    ensures
        type_display(TokenType::Fun) == printed_name(TokenType::Fun),
        type_printed_as(printed_name(TokenType::Fun)) == Some(TokenType::Fun),
{
    reveal_strlit("Fun");
    reveal_with_fuel(upper_snake, 14);
    assert(type_display(TokenType::Fun) =~= printed_name(TokenType::Fun));
    assert(printed_name(TokenType::Fun)[0] != printed_name(TokenType::Dot)[0]);
    assert(printed_name(TokenType::Fun)[0] != printed_name(TokenType::And)[0]);
    assert(printed_name(TokenType::Fun)[1] != printed_name(TokenType::For)[1]);
}

proof fn lemma_printed_if()
    ensures
        type_display(TokenType::If) == printed_name(TokenType::If),
        type_printed_as(printed_name(TokenType::If)) == Some(TokenType::If),
{
    reveal_strlit("If");
    reveal_with_fuel(upper_snake, 14);
    assert(type_display(TokenType::If) =~= printed_name(TokenType::If));

}

proof fn lemma_printed_nil()
    ensures
        type_display(TokenType::Nil) == printed_name(TokenType::Nil),
        type_printed_as(printed_name(TokenType::Nil)) == Some(TokenType::Nil),
{
    reveal_strlit("Nil");
    reveal_with_fuel(upper_snake, 14);
    assert(type_display(TokenType::Nil) =~= printed_name(TokenType::Nil));
    assert(printed_name(TokenType::Nil)[0] != printed_name(TokenType::Dot)[0]);
    assert(printed_name(TokenType::Nil)[0] != printed_name(TokenType::And)[0]);
    assert(printed_name(TokenType::Nil)[0] != printed_name(TokenType::For)[0]);
    assert(printed_name(TokenType::Nil)[0] != printed_name(TokenType::Fun)[0]);
}

proof fn lemma_printed_or()
    ensures
        type_display(TokenType::Or) == printed_name(TokenType::Or),
        type_printed_as(printed_name(TokenType::Or)) == Some(TokenType::Or),
{
    reveal_strlit("Or");
    reveal_with_fuel(upper_snake, 14);
    assert(type_display(TokenType::Or) =~= printed_name(TokenType::Or));
    assert(printed_name(TokenType::Or)[0] != printed_name(TokenType::If)[0]);
}

proof fn lemma_printed_print()
    ensures
        type_display(TokenType::Print) == printed_name(TokenType::Print),
        type_printed_as(printed_name(TokenType::Print)) == Some(TokenType::Print),
{
    reveal_strlit("Print");
    reveal_with_fuel(upper_snake, 14);
    assert(type_display(TokenType::Print) =~= printed_name(TokenType::Print));
    assert(printed_name(TokenType::Print)[0] != printed_name(TokenType::Comma)[0]);
    assert(printed_name(TokenType::Print)[0] != printed_name(TokenType::Minus)[0]);
    assert(printed_name(TokenType::Print)[0] != printed_name(TokenType::Slash)[0]);
    assert(printed_name(TokenType::Print)[0] != printed_name(TokenType::Equal)[0]);
    assert(printed_name(TokenType::Print)[0] != printed_name(TokenType::Class)[0]);
    assert(printed_name(TokenType::Print)[0] != printed_name(TokenType::False)[0]);
}

proof fn lemma_printed_return()
    ensures
        type_display(TokenType::Return) == printed_name(TokenType::Return),
        type_printed_as(printed_name(TokenType::Return)) == Some(TokenType::Return),
{
    reveal_strlit("Return");
    reveal_with_fuel(upper_snake, 14);
    assert(type_display(TokenType::Return) =~= printed_name(TokenType::Return));
    assert(printed_name(TokenType::Return)[0] != printed_name(TokenType::String)[0]);
    assert(printed_name(TokenType::Return)[0] != printed_name(TokenType::Number)[0]);
}

proof fn lemma_printed_super()
    ensures
        type_display(TokenType::Super) == printed_name(TokenType::Super),
        type_printed_as(printed_name(TokenType::Super)) == Some(TokenType::Super),
{
    reveal_strlit("Super");
    reveal_with_fuel(upper_snake, 14);
    assert(type_display(TokenType::Super) =~= printed_name(TokenType::Super));
    assert(printed_name(TokenType::Super)[0] != printed_name(TokenType::Comma)[0]);
    assert(printed_name(TokenType::Super)[0] != printed_name(TokenType::Minus)[0]);
    assert(printed_name(TokenType::Super)[1] != printed_name(TokenType::Slash)[1]);
    assert(printed_name(TokenType::Super)[0] != printed_name(TokenType::Equal)[0]);
    assert(printed_name(TokenType::Super)[0] != printed_name(TokenType::Class)[0]);
    assert(printed_name(TokenType::Super)[0] != printed_name(TokenType::False)[0]);
    assert(printed_name(TokenType::Super)[0] != printed_name(TokenType::Print)[0]);
}

proof fn lemma_printed_this()
    ensures
        type_display(TokenType::This) == printed_name(TokenType::This),
        type_printed_as(printed_name(TokenType::This)) == Some(TokenType::This),
{
    reveal_strlit("This");
    reveal_with_fuel(upper_snake, 14);
    assert(type_display(TokenType::This) =~= printed_name(TokenType::This));
    assert(printed_name(TokenType::This)[0] != printed_name(TokenType::Star)[0]);
    assert(printed_name(TokenType::This)[0] != printed_name(TokenType::Plus)[0]);
    assert(printed_name(TokenType::This)[0] != printed_name(TokenType::Bang)[0]);
    assert(printed_name(TokenType::This)[0] != printed_name(TokenType::Less)[0]);
    assert(printed_name(TokenType::This)[0] != printed_name(TokenType::Else)[0]);
}

proof fn lemma_printed_true()
    ensures
        type_display(TokenType::True) == printed_name(TokenType::True),
        type_printed_as(printed_name(TokenType::True)) == Some(TokenType::True),
{
    reveal_strlit("True");
    reveal_with_fuel(upper_snake, 14);
    assert(type_display(TokenType::True) =~= printed_name(TokenType::True));
    assert(printed_name(TokenType::True)[0] != printed_name(TokenType::Star)[0]);
    assert(printed_name(TokenType::True)[0] != printed_name(TokenType::Plus)[0]);
    assert(printed_name(TokenType::True)[0] != printed_name(TokenType::Bang)[0]);
    assert(printed_name(TokenType::True)[0] != printed_name(TokenType::Less)[0]);
    assert(printed_name(TokenType::True)[0] != printed_name(TokenType::Else)[0]);
    assert(printed_name(TokenType::True)[1] != printed_name(TokenType::This)[1]);
}

proof fn lemma_printed_var()
    ensures
        type_display(TokenType::Var) == printed_name(TokenType::Var),
        type_printed_as(printed_name(TokenType::Var)) == Some(TokenType::Var),
{
    reveal_strlit("Var");
    reveal_with_fuel(upper_snake, 14);
    assert(type_display(TokenType::Var) =~= printed_name(TokenType::Var));
    assert(printed_name(TokenType::Var)[0] != printed_name(TokenType::Dot)[0]);
    assert(printed_name(TokenType::Var)[0] != printed_name(TokenType::And)[0]);
    assert(printed_name(TokenType::Var)[0] != printed_name(TokenType::For)[0]);
    assert(printed_name(TokenType::Var)[0] != printed_name(TokenType::Fun)[0]);
    assert(printed_name(TokenType::Var)[0] != printed_name(TokenType::Nil)[0]);
}

proof fn lemma_printed_while()
    ensures
        type_display(TokenType::While) == printed_name(TokenType::While),
        type_printed_as(printed_name(TokenType::While)) == Some(TokenType::While),
{
    reveal_strlit("While");
    reveal_with_fuel(upper_snake, 14);
    assert(type_display(TokenType::While) =~= printed_name(TokenType::While));
    assert(printed_name(TokenType::While)[0] != printed_name(TokenType::Comma)[0]);
    assert(printed_name(TokenType::While)[0] != printed_name(TokenType::Minus)[0]);
    assert(printed_name(TokenType::While)[0] != printed_name(TokenType::Slash)[0]);
    assert(printed_name(TokenType::While)[0] != printed_name(TokenType::Equal)[0]);
    assert(printed_name(TokenType::While)[0] != printed_name(TokenType::Class)[0]);
    assert(printed_name(TokenType::While)[0] != printed_name(TokenType::False)[0]);
    assert(printed_name(TokenType::While)[0] != printed_name(TokenType::Print)[0]);
    assert(printed_name(TokenType::While)[0] != printed_name(TokenType::Super)[0]);
}

proof fn lemma_printed_eof()
    ensures
        type_display(TokenType::Eof) == printed_name(TokenType::Eof),
        type_printed_as(printed_name(TokenType::Eof)) == Some(TokenType::Eof),
{
    reveal_strlit("Eof");
    reveal_with_fuel(upper_snake, 14);
    assert(type_display(TokenType::Eof) =~= printed_name(TokenType::Eof));
    assert(printed_name(TokenType::Eof)[0] != printed_name(TokenType::Dot)[0]);
    assert(printed_name(TokenType::Eof)[0] != printed_name(TokenType::And)[0]);
    assert(printed_name(TokenType::Eof)[0] != printed_name(TokenType::For)[0]);
    assert(printed_name(TokenType::Eof)[0] != printed_name(TokenType::Fun)[0]);
    assert(printed_name(TokenType::Eof)[0] != printed_name(TokenType::Nil)[0]);
    assert(printed_name(TokenType::Eof)[0] != printed_name(TokenType::Var)[0]);
}

proof fn lemma_printed_name(t: TokenType)
    ensures
        type_display(t) == printed_name(t),
        type_printed_as(printed_name(t)) == Some(t),
{
    match t {
        TokenType::LeftParen => lemma_printed_left_paren(),
        TokenType::RightParen => lemma_printed_right_paren(),
        TokenType::LeftBrace => lemma_printed_left_brace(),
        TokenType::RightBrace => lemma_printed_right_brace(),
        TokenType::Star => lemma_printed_star(),
        TokenType::Dot => lemma_printed_dot(),
        TokenType::Comma => lemma_printed_comma(),
        TokenType::Semicolon => lemma_printed_semicolon(),
        TokenType::Plus => lemma_printed_plus(),
        TokenType::Minus => lemma_printed_minus(),
        TokenType::Slash => lemma_printed_slash(),
        TokenType::Equal => lemma_printed_equal(),
        TokenType::EqualEqual => lemma_printed_equal_equal(),
        TokenType::Bang => lemma_printed_bang(),
        TokenType::BangEqual => lemma_printed_bang_equal(),
        TokenType::Less => lemma_printed_less(),
        TokenType::LessEqual => lemma_printed_less_equal(),
        TokenType::Greater => lemma_printed_greater(),
        TokenType::GreaterEqual => lemma_printed_greater_equal(),
        TokenType::String => lemma_printed_string(),
        TokenType::Number => lemma_printed_number(),
        TokenType::Identifier => lemma_printed_identifier(),
        TokenType::And => lemma_printed_and(),
        TokenType::Class => lemma_printed_class(),
        TokenType::Else => lemma_printed_else(),
        TokenType::False => lemma_printed_false(),
        TokenType::For => lemma_printed_for(),
        TokenType::Fun => lemma_printed_fun(),
        TokenType::If => lemma_printed_if(),
        TokenType::Nil => lemma_printed_nil(),
        TokenType::Or => lemma_printed_or(),
        TokenType::Print => lemma_printed_print(),
        TokenType::Return => lemma_printed_return(),
        TokenType::Super => lemma_printed_super(),
        TokenType::This => lemma_printed_this(),
        TokenType::True => lemma_printed_true(),
        TokenType::Var => lemma_printed_var(),
        TokenType::While => lemma_printed_while(),
        TokenType::Eof => lemma_printed_eof(),
    }
}

/// Distinct token types are printed under distinct names.
pub proof fn lemma_printed_names_distinct(t1: TokenType, t2: TokenType)
    ensures
        t1 != t2 ==> type_display(t1) != type_display(t2),
{
    lemma_printed_name(t1);
    lemma_printed_name(t2);
}

} // verus!
