# elisp

A small Scheme-like Lisp interpreter, written in Verus: a library whose reader,
evaluator and built-in procedures carry contracts that Verus proves, and a thin
program around it.

## Layout

- `src/` — the verified library.
  - `lisp.rs`: tokenizer, reader (`parse`, stated by `datum` and `parsed`),
    evaluator (`eval`, `tail_form`) and the program runners (`do_core_logic`,
    `do_lisp`, `do_lisp_env`, stated by `program_value` and `program_from`).
  - `expression.rs`: values, their printed text (`expr_text`) and copies.
  - `env.rs`, `table.rs`: scopes, variables, hash tables and tree maps.
  - `buildin.rs` and one module per family of built-in procedures
    (`boolean`, `chars`, `number`/`operation`/`math`, `strings`, `list`,
    `order`, `hashtable`, `syntax`, `io`, `util`).
  - `repl.rs`: the decisions of the interactive loop.
  - `highlight.rs`: the runs of a program's text that an editor colours.
  - `nested.rs`: the values of nested arithmetic, comparisons, `and` and `or`
    (`val_in`, `arg_val`) that the evaluator's contract follows; `syntax.rs` states `do` loops over them
    (`do_value`), each pass rebinding all variables at once.
  - `laws.rs`: properties that relate several procedures.
  - `dyn_lisp.rs`: the value types of a second, dynamically typed interpreter.
  - `qsort.rs`, `tree.rs`: two small study programs (an in-place quicksort and a
    printer for trees of dotted names).
- `tests/` — tests run against the compiled library.
- `app/` — the program: the interactive loop on standard input, source files
  named on the command line, and the files that `load-file` may read.

Decimal fractions are kept as their text and compared by the exact values of
their digits; arithmetic on them is not provided. Integer division by zero gives
`inf`, `-inf` or `NaN`.
