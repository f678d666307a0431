# riddle

A reader and interpreter for RiDDLe, a small language for describing
planning and constraint problems: classes with fields and constructors,
functions, predicates, and statements over boolean formulas. The library is
written in Verus; each function carries a contract that the verifier proves.

## Layout

- `src/lexer.rs`: the lexer, specified by a function on the text (`lex_step`).
- `src/grammar.rs`: the grammar as spec functions over the token sequence.
- `src/parser.rs`, `src/statements.rs`, `src/declarations.rs`: the parser of
  expressions, statements and declarations; each parse function gives exactly
  what the grammar gives.
- `src/language.rs`: the syntax tree and its mathematical model.
- `src/text.rs`: how expressions, statements, errors and values read as text.
- `src/env.rs`: values, environments, boolean expressions and their
  conjunctive normal form, with the laws that the conversion keeps the meaning
  of a formula and gives clauses.
- `src/scope.rs`, `src/runtime.rs`: types, scopes, the program read so far and
  the running state.
- `src/execution.rs`: evaluating expressions, executing statements, calling
  constructors, functions and predicates, and the core that reads problems.
- `app/`: JSON output, which needs `serde_json`.
- `tests/`: tests of the lexer, the parser, the core, calls and the text rendering.

The solver that a core hands its variables and constraints to is supplied by
the user through the `Core` trait. Its contract records each call in the
solver's history (`Core::calls`): what was asked for and the handle given
back. A solver's implementation is trusted to keep that history.
