# rlox

A tree-walking interpreter for the Lox language. The front end (scanner,
parser, resolver) and the variable store are a library verified with Verus;
the evaluator, whose values hold floating-point numbers and callables, and the
command line are ordinary Rust in `app/`.

## Layout

- `src/tokens.rs`, `src/lox_error.rs`, `src/expressions.rs`,
  `src/statements.rs`: the tokens, errors and syntax trees, each with a
  mathematical model (`@`).
- `src/scanner.rs`: the lexical grammar as spec functions (`scan`), the
  scanner proved against it, and laws of every scan (the end-of-file token
  comes last and once, lines are in order, literals fit their tokens).
- `src/grammar.rs`: the grammar as spec functions over token sequences
  (`expr_rule`, `stmt_rule`, `program_at`), including error recovery and the
  cases where reading cannot go on; `src/parser.rs`: the recursive-descent
  parser proved against it.
- `src/resolver.rs`: resolution (the number of scopes between each use of a
  variable and its declaration) as spec functions, the resolver proved against
  them, and laws (outer scopes stay as they were and declared names end defined, the number found leads to the nearest
  declaration); `src/resolution_shape.rs`: resolving changes nothing but those
  numbers.
- `src/environment.rs`: the store of frames of variables, with its model
  (`local`, `parent`, `resolve`, `lookup`) and the laws of reading what was
  written.
- `src/pipeline.rs`: `run`, the front end from source text to a resolved
  program.
- `app/`: `main`, the evaluator, runtime values and callables.
