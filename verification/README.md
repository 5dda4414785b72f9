# safec

The front of a small, safety-oriented C compiler, with its behaviour stated
in contracts and proved by Verus.

## Layout

- `src/` is the verified library.
  - `source`: source files, byte offsets, character positions, lines and
    columns.
  - `token`, `lexer`: the scanner, specified as a function from text to
    tokens and diagnostics.
  - `safety`, `options`, `cli`: what a run was asked for and what it is
    entitled to.
  - `diagnostics`: diagnostics, the policy that promotes unproven results,
    and the sink that keeps them.
  - `ast`: the syntax tree arena, type compatibility and type spelling.
  - `dump`: what `--emit ast` writes for a tree, one node per line.
  - `ir`, `interp`: the Safety IR and an interpreter for it, specified as a
    small-step machine.
  - `print`, `llvm_name`: text made safe for a terminal, and names made safe
    for LLVM.
  - `driver`: which inputs a run reads, what it makes of them, where and
    whether its artifact is written, what an outside tool said, and how a
    run ends.
  - `render`: what a diagnostic looks like on a terminal, short of drawing
    it.
- `tests/` drives the library on concrete values.
- `app/` is the `safec` binary: the command line, reading and writing files,
  and drawing diagnostics with `ariadne`.
