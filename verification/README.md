# cps

An interpreter for the Cambridge International AS & A Level (9618)
pseudocode language, written in Verus: its runtime values and types, the
scoped environment of variables, constants and open files, the operators, a
statement evaluator, and the terminal text of its errors, each with a
contract that Verus proves.

## Layout

- `src/value.rs` — values, types and the syntax tree that the evaluator walks.
- `src/environment.rs` — scopes over a shared heap: definitions, assignment,
  constants, array elements and open files, with a model (`EnvView`) that
  the contracts speak of.
- `src/types.rs`, `src/display.rs`, `src/text.rs` — the types of values,
  how values and types are written, and reading and writing text.
- `src/operators.rs` — the binary operators; integer arithmetic wraps.
- `src/replay.rs` — the replay context: inputs, outputs already shown,
  random values drawn, and files in memory.
- `src/interpreter.rs` — the evaluator. A run is a function of its replay
  context: an OUTPUT that the embedding has not shown stops the run with its
  line, an INPUT with no line left stops it with a request, and the
  embedding runs it again with more context. `runs` states what a program
  does, node by node: expressions of literals, identifiers, operators,
  array elements and EOF have a value (`expr_value`); every expression,
  calls among them, and every statement, block, loop, CASE and call of a
  procedure or function is a relation between the state before and after
  (`expr_runs`, `statement_effect`, `evaluated_effect`,
  `block_runs`, `while_runs`, `call_runs`, ...). Real numbers and builtins,
  which the host computes, are left open.
- `src/render.rs` — an error as the terminal shows it, coloured by the
  `colored` crate.
- `src/laws.rs` — properties across operations, proved.
- `src/host.rs` — what the embedding supplies: arithmetic on real numbers
  (the library holds them as IEEE-754 bit patterns) and the builtin routines.
- `app/` — the terminal side: `f64` reals, a runner on standard input and
  output and the file system, and `Display` for errors.
