# spartan_rs

A small dependent type checker for a spartan type theory (Π- and Σ-types,
natural numbers with an eliminator, universes with level constraints, a global
signature of axioms and definitions, normalization by evaluation), verified
with Verus. The program checks a real-analysis development up to the
Weierstrass M-test and prints `proof accepted.`

## Layout

```
src/
  arena.rs       append-only term storage; handles stay valid as it grows
  term.rs        term nodes, handles, and the syntax-tree model of an arena
  value.rs       semantic values and neutrals, with their models
  env.rs         evaluation environments (de Bruijn, innermost last)
  context.rs     typing contexts
  signature.rs   the global map of axioms and definitions
  level.rs       universe levels, constraint sets and the solver
  nbe.rs         meaning of evaluation, read-back and definitional equality
  norm.rs        eval, quote, normalize and def_eq, proved against nbe.rs
  typing.rs      meaning of bidirectional checking and inference
  check.rs       check and infer, proved against typing.rs
  development.rs checking a list of proofs against their statements, in order
  reflexivity.rs well-formed values; definitional equality is reflexive
  axioms.rs      the real-analysis signature and the three statements
  error.rs       type errors and their texts
app/             the program: runs the three checks, reports with miette
tests/           end-to-end and unit tests
```

Evaluation and checking may not terminate on arbitrary input. Their meaning
is given by functions with a step budget; each public operation asks that some
budget suffice and promises exactly the outcome under it, which is the same
under every larger budget. The level solver always terminates: it computes the
least valuation of the universe variables and records it, or reports that no
valuation satisfies the constraints. `within_limits` tells whether a
constraint set is small enough for the solver's arithmetic.
