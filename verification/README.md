# Byte Lang

A compiler for Byte Lang, a low-level language with structured syntax that translates
to ARM64 assembly as written, with every pass verified by Verus.

## Layout

- `src/datatypes/tokenizer.rs` splits the source into tokens.
- `src/datatypes/parser.rs` builds the statements, recording errors and resuming after
  the next `;`.
- `src/datatypes/scope_analysis.rs` builds each function's scope tree, places variables
  and files each statement under its scope.
- `src/datatypes/semantic_analysis.rs` lowers statements to code-generation statements,
  resolving names to stack slots and checking types.
- `src/datatypes/code_generator.rs` emits the assembly text of every scope under a label.
- `src/datatypes/assembly_instructions/arm64.rs` holds the instruction templates.
- `src/text.rs` holds string helpers; `String::push` is the one trusted item.
- `app/main.rs` is the command-line driver: `build <file>` writes the assembly next to the
  source, `run <file>` also assembles, links and runs it.

Each pass states its effect over spec functions. Statements are copied between passes;
a copy is stated equal to its original item by item (`same_stmt` in `ast_statements.rs`),
since vectors cannot be proved equal as values. The tests under `tests/` run the whole
pipeline on small programs.
