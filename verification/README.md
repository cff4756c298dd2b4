# isla

Symbolic execution of instruction-set architectures and checking of litmus
tests against memory models. The library is verified with
[Verus](https://github.com/verus-lang/verus): every function states what it
returns or changes, and the proofs are checked.

- `src/bv.rs`, `src/bitvector.rs`: bitvectors as sequences of bits, and short
  bitvectors in a machine word.
- `src/smt/`: SMT expressions. Simplification, types, substitution and what
  they preserve.
- `src/executor/`: the interpreter. Frames, calls, registers, the special
  functions, forking, and the laws of exploration. `replay.rs` shows that a path
  can be started anew with more replies at any time.
- `src/page_table/`: the description of page tables and initial addresses.
  `driver.rs` gives the order in which a setup goes.
- `src/axiomatic/`: the results of tests, references, reports, and names in
  graphs.
- `src/handover.rs`: the queue on which results are handed over.
- `app/`: the program around the library. It reads files and options, calls the
  generator of candidates and the solver, and prints.

The interpreter does not call a solver. What it needs to know from one, from a
primitive operation or from the clock it asks for in a request; the replies are
handed to it, and a path that has used them all says so and shows its next
request.
