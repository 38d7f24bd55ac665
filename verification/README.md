# lucid

A compiler front end for Lucid, a statically typed language with Python's
syntax, written in Verus: the functions carry `requires`/`ensures` contracts
and Verus proves them.

## Layout

- `src/` — the verified library.
  - `token.rs`, `chars.rs`, `numlit.rs`, `text.rs`: tokens and spans, character
    classes, number literals, small text helpers.
  - `lexer.rs`: source text to tokens, with indentation turned into
    `Indent`/`Dedent` tokens that always balance.
  - `ast.rs`, `parser.rs`: the syntax tree and a recursive-descent parser.
  - `types.rs`, `subtype.rs`: checker types, unions, and the subtype relation.
  - `semantics.rs`: the type checker's rules as spec functions.
  - `table.rs`, `checker.rs`: the executable type checker, proved equal to
    those rules.
  - `codegen.rs`: a C code generator.
  - `cli.rs`: the line-continuation rule of the REPL and the extraction of
    code blocks from reStructuredText documents.
- `tests/` — tests of the library.
- `app/` — the command-line program: the REPL, file handling, a tree-walking
  interpreter and native compilation through a C compiler.
