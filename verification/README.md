# repo_memory

A variable-flow analyzer for one lexical variable across two snapshots of a
TypeScript repository, written in Verus. The functions of the library are
verified against their contracts, which range from exact results (validation,
alignment errors, solver soundness, completeness at a fixed point and the
limit that ended a run) to partial statements for the larger builders (slice
construction, the projection's findings and its rendered text), whose
remaining behaviour is covered by the tests. Calls into `tree-sitter` and a
few std functions stand behind small trusted wrappers.

## Layout

- `src/ifds/model.rs`: the report model (snapshots, identifiers, places and
  facts, flow graphs, deltas, diagnostics) and its validation.
- `src/ifds/ir.rs`: the language-independent procedure IR and its checks.
- `src/ifds/adapters/typescript/`: binding index and lowering of TypeScript
  procedures to the IR; the parser is reached through small trusted wrappers
  around `tree-sitter` and `tree-sitter-typescript`.
- `src/ifds/provenance.rs`, `src/ifds/solver.rs`: distributive transfer
  functions and the worklist solver, with soundness and completeness of the
  fixed point.
- `src/ifds/branches.rs`: bounded path states through branch outcomes.
- `src/ifds/slicing.rs`, `src/ifds/uncertainty.rs`: flow slices of the
  selected binding and the regions that stay incomplete.
- `src/ifds/compare.rs`, `src/ifds/comparison.rs`: alignment of the two
  procedures and the comparison of their slices into deltas.
- `src/ifds/compact.rs`: the source/observation projection of a full report,
  its check against that report, and its text form.
- `src/ifds/analysis.rs`: the end-to-end analysis over a snapshot provider.
- `src/ifds/snapshots.rs`, `src/ifds/fixtures.rs`: snapshot providers and
  reviewed fixture manifests.
- `src/ifds/seqs.rs`: facts about sequences read as sets, used by the
  list-backed sets of the other modules.
- `tests/`: ordinary Rust tests against the compiled library.
- `app/`: a command-line front end that reads two files and prints the
  projection's text.
