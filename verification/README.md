# zheng

Constraints for nox executions over the Goldilocks field, verified with Verus.

- `src/field.rs`: Goldilocks arithmetic against a modular specification.
- `src/types.rs`: sparse matrices, CCS instances and witnesses, sumcheck round
  polynomials, statements and error kinds.
- `src/ccs/`: the per-pattern step instances of a nox trace, the universal step
  instance, and the bindings of axis, hash and look rows to their openings.
- `src/execution/`: program encoding and decoding, the relation compilers
  (symbolic and tagged), witnesses, statements and their public coordinates.
- `src/folding/`: the arithmetic of a HyperNova fold.
- `src/phi/`: the sparse matrix–vector instance and the tri-kernel step.
- `src/formula.rs`, `src/command.rs`, `src/style.rs`, `src/capsule.rs`: the
  command line's own logic.
- `app/`: the command-line program and the calls into hemera, nox and tape.
- `tests/`: tests of the library.

Run `verus` on `src/lib.rs` to check the proofs.
