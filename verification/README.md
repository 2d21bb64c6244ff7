# synq_codec

A compiler for `.synq` schema files, verified with Verus.

- `src/synq/scanner.rs`, `src/synq/lexer.rs`: the byte cursor and the lexer,
  specified by `lex_step` / `lex_all` over the input's bytes.
- `src/synq/parser.rs`, `src/synq/ast.rs`: the parser and the syntax tree,
  specified by `items_spec` over the token values.
- `src/synq/ast_printer.rs`: the Mermaid diagram and the text outline of a
  tree, each an exact text.
- `src/synq/bytecode.rs`, `src/synq/compiler.rs`: instructions, their byte
  encoding, and the program compiled from a tree.
- `src/synq.rs`: `try_compile`, the whole pipeline from source to bytes.
- `src/synq/listing.rs`: the indentation of a token listing.
- `src/synq/lexer_laws.rs`, `parser_laws.rs`, `parser_concat.rs`,
  `mermaid_laws.rs`: laws of the lexer (token shape, line and column
  counting, where an error's caret points), of the parser (where
  attributes go, parsing joined sources) and of the diagram (its sections,
  its lines, what it leaves out);
  the bytecode laws (decoding, byte layout, shape) stand in
  `bytecode.rs` and `compiler.rs`.
- `src/codec/`: the earlier parser and printer (messages `name (Req) (Res)`,
  message blocks kept as raw tokens).
- `src/error.rs`: the error type and its report against the source.
- `app/main.rs`: the command-line front end (file reading, environment
  switches, printing), and the error type with its `thiserror` derive.
