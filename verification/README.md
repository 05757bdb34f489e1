# Forge front end

The lexer and parser of the Forge language, with their behaviour stated as
specifications and proved with Verus.

- `src/lexical.rs` states the lexical grammar as spec functions over the
  source text; `src/lexer.rs` is the lexer, proved to compute it.
- `src/syntax.rs` states the grammar over a token sequence; `src/parser.rs`
  is the recursive-descent parser, proved to compute it.
- `src/token.rs`, `src/nodes.rs` hold tokens and the syntax tree with their
  values; `src/describe.rs` the text of tokens in diagnostics.
- `src/options.rs` reads compiler options from command-line arguments;
  `src/logging.rs` lays out diagnostics that point at a source line.
- `src/laws.rs` proves properties that hold for every input.
- `app/` is the command-line driver: it reads files and prints.
