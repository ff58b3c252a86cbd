# lib

A tokenizer and parser for a small indentation-based language, written in
Verus. Every function of the library states its result in its contract and
is proved to meet it.

- `src/lexer.rs`: `tokenize` / `try_tokenize`, and `spec_tokenize`, the
  tokens of a text as a mathematical function.
- `src/grammar.rs`: `spec_parse`, the program that a sequence of tokens
  stands for, as recursive spec functions, one per kind of statement.
- `src/parser.rs`: `parse` / `try_parse`, proved equal to `spec_parse`.
- `src/scope.rs`: the scope of names used while parsing, over `SpecScope`.
- `src/table.rs`: finite maps kept as lists of entries with distinct keys.
- `src/ast.rs`, `src/token.rs`, `src/ids.rs`: the data and their views.
- `src/grammar_laws.rs`, `src/scope_laws.rs`, and the `law_*` proof
  functions of `scope.rs` and `lexer.rs`: properties of the library as a
  whole, among them laws over any history of scope operations (`run_ops`).
- `app/main.rs`: reads `./examples/Main.lang`, parses it and prints the
  result.
