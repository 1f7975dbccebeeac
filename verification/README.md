# topos

Topos is a semantic contract language for human-AI collaboration: a
specification of requirements, concepts, behaviors, invariants and tasks,
traced to each other and to the code that implements them.

This crate is its analysis library, verified with Verus, together with the
command line, language server and MCP server that drive it.

## Layout

- `src/` — the verified library.
  - `span`, `ast`, `cst`, `parser`, `format`: source positions, the typed
    syntax tree, concrete syntax trees as the grammar gives them, the parser
    from the one to the other, and the formatter.
  - `symbols`, `resolve`, `traceability`, `diagnostics`, `holes`, `context`,
    `foreign`, `polyglot`: the symbol table, reference resolution, the
    requirement/behavior/task graph, semantic diagnostics, typed holes,
    task contexts for assistants, symbols of embedded TypeSpec/CUE/TypeScript
    blocks, and the table that unites both kinds of symbols.
  - `anchors`: `@topos(...)` annotations in Rust source, their validation
    against a specification, and the specification generated from them.
  - `diff`, `strategy`, `semantic`, `client`, `llm`: structural diffs,
    comparison strategies, and the text side of semantic drift checks and
    hole suggestions.
  - `lsp`, `server`, `cli`, `legacy`: the decisions of the editor support,
    the MCP tools and the command line.
  - `grammars`, `regex_match`, `text`, `strmap`: the calls into tree-sitter,
    `regex` and std that the library makes, and its text and map helpers.
- `tests/` — tests of the library.
- `app/` — the `topos` program: argument handling, files, git, the Topos
  grammar binding, JSON output, and the stdio servers.
