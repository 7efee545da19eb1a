# interpreter

A tree-walking interpreter for a small scripting language, with its lexer,
parser, values and variable scopes verified with Verus.

- `src/lexer`: the lexer, proved against a lexical grammar (`rules.rs`), with
  laws of the token stream (`laws.rs`).
- `src/parser`: the recursive-descent parser, proved against a grammar over
  token sequences (`syntax.rs`), with laws of whole parses (`laws.rs`).
- `src/interpreter`: values, operator typing, run-time errors and nested
  variable scopes, with the laws the scopes keep (`scope_laws.rs`).
- `src/script.rs`: decoding a script file's bytes.
- `app/`: the command-line program and the evaluator, which computes with
  `f64` numbers.
