# rlox

The front end of a Lox interpreter, verified with Verus.

- `src/scan.rs` states what lexing a source text yields: the step taken at
  each position, the tokens and errors, and laws about them (token order,
  the shape of each lexeme, the line of the end of the text).
- `src/lexer.rs` is the lexer; `Lexer::analyze` is proved to produce
  exactly the tokens and errors of that model.
- `src/token.rs` holds token types, spans and tokens and their printed forms.
- `src/dump.rs` escapes and shortens token text and prints the token table.
- `src/excerpt.rs` picks the source lines shown with an error and splits
  the marked line.
- `src/environment.rs` holds chains of variable scopes with lookup,
  definition and assignment, and laws relating them.
- `src/text.rs` holds character classes and string helpers.
- `app/` is the `rlox` command: argument parsing, file reading, colored
  output, and the float formatting of number literals.
