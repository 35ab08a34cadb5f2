# Ionic compiler, verified

A compiler for the Ionic language, from source text to LLVM IR, written in
Verus. Every phase is a verified function whose contract is an exact
mathematical model of its result:

- `src/lexer.rs` — the token stream of a source text (`lex`), with laws such as
  "a successful lex ends with exactly one `EOF`" and "every keyword lexes back
  from its own text".
- `src/parser.rs` — the grammar as spec functions over the token stream; the
  parser returns the program or the first syntax error that the grammar gives.
  Before parsing, the stream is prepared: a `///` line documents the item that
  follows it only where an item can start, and is a comment anywhere else;
  fractional literals are written as the renderings the caller hands in.
- `src/semantic.rs` — the type checker as a function from an environment and a
  statement to the new environment and the errors, with the language rules
  (`let` is immutable, `mut` is not, GPU blocks refuse CPU I/O and CPU tensors,
  `break`/`continue` need a loop, strings compare with `str_eq`) as laws.
- `src/codegen.rs` — the IR generator as a state machine over a model of the
  generator (`Cg`).
- `src/imports.rs` — library imports: the pool of library definitions, and
  selective compilation (only the definitions a program needs, transitively,
  callees before callers), with the laws that make "a wildcard import costs
  nothing" precise.
- `src/driver.rs` — the command line, the merge of library definitions, and
  the arguments of the native compile and link steps.
- `src/table.rs`, `src/text.rs`, `src/ast.rs` — a name table, text building
  blocks, and the syntax tree with its mathematical view.

`app/main.rs` is the `ionic` command: it reads files, computes the renderings
of fractional literals (floating point: how each value prints, and its IR
text), and runs clang.
