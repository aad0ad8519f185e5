# best

A statically typed Lisp: every construct is an s-expression, a `declare`
form carrying a function's full type signature must immediately precede its
`defun`, and a static type checker runs over the whole program before any
evaluation begins.

## Layout

- `src/` — the verified library.
  - `ast`, `error`, `types`, `table`, `text`: the syntax tree, errors and their
    text, the types, a string-keyed table and decimal formatting.
  - `typing`: the typing rules as mathematical functions; `typecheck`: the
    checker, proved to compute exactly those rules.
  - `semantics`: the evaluation rules as mathematical functions; `env`,
    `eval`: the environments and the evaluator, proved to compute exactly
    those rules.
  - `interpreter`: type-check, then run.
  - `laws`, `well_typed`, `soundness`, `safety`: properties of the language
    proved over the rules, above all that a program the checker accepts
    never fails at run time on a type or on a missing variable or function:
    only on a division by zero, an integer overflow, too many calls in
    progress, or the evaluation budget used up.
- `tests/` — tests of the library on concrete programs.
- `app/` — the command-line program: the bridge to the flex/bison parser,
  floating-point arithmetic and printing.

Floats are carried through the library as the bit patterns of IEEE-754
doubles; the arithmetic on them is supplied by the caller.

## Scoping

The checker and the evaluator agree on what a name means:

- a function body sees its parameters and the variables it declares itself,
  and nothing of the code that calls it;
- what a branch of an `if` or the body of a `while` declares is not seen
  after the form, since the branch or the body may not run;
- a `let` cannot give a visible variable another type: a variable's type
  is immutable, its value mutable.
