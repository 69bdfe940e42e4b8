# script_lexer

A lexer for a small scripting language of function declarations. `Lexer`
walks the characters of a source text and tracks the line and column of its
position; its methods read identifiers, number and string literals, parameter
types and defaults, expressions, indexes and function declarations.

Layout:

- `src/chars.rs`: the Unicode character classes of `core` and `String::push`,
  the items trusted without proof.
- `src/position.rs`: lines and columns of positions.
- `src/tokens.rs`: the values the lexer produces and their views.
- `src/scan.rs`: what each part of the lexer reads, as functions of the text and
  a position, with lemmas on where scans end.
- `src/lexer.rs`: the lexer, each method verified against `scan.rs`.
- `src/laws.rs`: properties that hold of every text.
- `app/main.rs`: the command-line program that lexes a file.
