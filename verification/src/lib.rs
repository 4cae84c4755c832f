//! A lexer for the Lox language, its token types and token printer, and the
//! variable scopes of the interpreter.

pub mod text;
pub mod token;
pub mod scan;
pub mod lexer;
pub mod environment;
pub mod dump;
pub mod excerpt;
