# LAM: a logic abstract machine, verified

A register machine for logic programming — unification with a trail,
choice points and backtracking, clause tables with assertion and retraction,
arithmetic, lambda terms — together with the front ends that produce its
code: an instruction reader, an assembler-like language, and two small
Prolog compilers. Every function of the library carries a contract that
Verus proves.

Layout:

- `src/machine.rs` — the machine, its mathematical state (`MState`) and the
  meaning of each instruction (`op_*`), built-in predicates included; `run`
  for a run known to stop, `run_for` for a bounded run any caller can make;
  `src/laws.rs` — properties spanning several instructions (a choice point
  followed by a failure restores the state, asserting then retracting a
  clause restores the table, …).
- `src/union_find.rs`, `src/unification.rs` — bindings with path compression
  and a trail, and unification over them; path compression keeps what each
  term resolves to, undoing the trail restores the bindings, and a
  successful unification makes the two terms equal under every assignment
  that satisfies the bindings (`src/term.rs` defines assignments and full
  resolution).
- `src/lambda.rs` — free variables, capture-avoiding substitution and one
  step of beta reduction, with their laws.
- `src/arithmetic.rs`, `src/expression.rs` — expressions, their evaluation
  and their parser.
- `src/instruction_parser.rs`, `src/assembler.rs`, `src/languages/lam.rs` —
  readers of machine programs.
- `src/prolog/`, `src/languages/prolog*` — Prolog syntax, compilers to
  machine code, and the decisions of the interactive session.
- `src/display.rs`, `src/builtins.rs` — the texts of instructions, terms,
  errors and of the built-in predicates.
- `app/main.rs` — the command-line program: reading files, running the
  machine, the prompt loop.
- `tests/` — tests on concrete values.
