# foundrydb

The front end of a small SQL database: a lexer that turns a statement text into
tokens, and a recursive-descent parser that turns the tokens into statements
(`CREATE TABLE`, `INSERT INTO`, `SELECT ... [WHERE ...]`), each proved against a
specification in Verus.

- `src/token.rs`: token kinds and tokens.
- `src/text.rs`: the UTF-8 layout of `str` values (byte offsets of characters) and
  the character and string operations of std that the lexer and parser call.
- `src/lexer.rs`: the lexer, its specification `lex_spec`, and its laws.
- `src/parser.rs`: the syntax tree, the parser, its specification
  `statements_spec`, and its laws.
- `src/render.rs`: statements written back as SQL text.
- `src/round_trip.rs`: the law that printing a parsed statement and reading the text
  back gives the same statement.
- `src/command.rs`: the dot commands of the prompt (`.exit`).
- `app/main.rs`: the `fdb >` prompt, which reads lines and prints their tokens.
