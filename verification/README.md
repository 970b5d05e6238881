# lightdown

Lightdown is a small document language with two layers:

- **Lightdown IR** (`src/ir/`): an S-expression format. Text is lexed
  (`lexer`), parsed into an expression tree (`parser`, `ast`), compiled to
  bytecode (`compile`, `bytecode`) and run by a small virtual machine (`vm`,
  `runtime`, `builtins`) that builds a resolved document (`document`).
- **Author syntax** (`src/author/`): a Markdown-like language. Block and
  inline parsers build a source tree, which is lowered to IR (`lower`);
  embedded IR fragments may hold author text of their own, which is
  serialized back into IR text (`serialize`).

`src/html.rs` renders resolved documents to HTML. `src/text.rs` holds the
character and string helpers the rest is written with.

Every function in `src/` is verified with Verus, except two small trusted
wrappers in `src/text.rs` (`char_from_u32` over `char::from_u32` and
`push_char` over `String::push`), whose contracts Verus takes as given. Each
public function's
`ensures` states its result in terms of a spec-level model (for example
`parse_spec`, `compile_spec`, `document_spec`, `render_node`), and the
`law_*` proof functions state properties that hold across functions, such
as that parsed author text is always a `doc` node of IR version 0.1.0.

`app/` holds the WebAssembly entry point, which is plain Rust.
