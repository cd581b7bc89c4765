# rj — a J interpreter on integer arrays, verified with Verus

`rj` reads J sentences (`i. 2 3`, `+/ i. 10`, `mean =: +/ % #`) and
evaluates them on integer arrays.  The library in `src/` is verified: each
function states what it computes by spec functions over mathematical
arrays, words and symbol tables, and Verus proves the code against them.

## Layout

- `src/text.rs` — decimal numerals and string helpers.
- `src/error.rs` — source spans, error kinds, and how an error is shown
  under its source line.
- `src/array.rs` — arrays (shape, atoms, verbs as values) and their display.
- `src/verbs.rs` — the primitives, `u/`, `u t.`, forks, and the rank
  machinery that applies a verb to the cells of its arguments.
- `src/interp.rs` — the interpreter's symbol tables and source lines.
- `src/token.rs` — the lexer: characters to words with byte spans.
- `src/eval.rs` — the right-to-left evaluator, assignment, and one REPL line.
- `src/lexers.rs` — J's word-formation state machine, spell-in tables and
  word validation.
- `src/engine.rs` — what a host of the J engine library decides (collected
  output, return codes).
- `src/gpu.rs` — the backend type (CPU).
- `app/` — the REPL program, the wgpu device code, the J engine host and a
  line-editor demonstration; none of it is verified.
- `tests/` — tests of the library.

Floating-point and complex numerals are read by the lexer but not computed
with: evaluating them is a domain error.
