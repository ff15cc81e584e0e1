# miden_logic

Verified core logic of the Miden virtual machine tool chain, written in Verus. Verus checks every
function body in `src/` against its contract. Calls into outside crates go through small trusted
wrappers whose contracts restate the outside documentation; a wrapper whose result rests on chance
(`rand`) states nothing of it, and neither does `random_felt`, which only draws. Traits that users
implement (`ByteReader`, `Deserializable`, `ProjectSourceProvider`) name their answers with spec
functions, and the contracts of the functions that call them speak of those names. `app/` holds
the thin layer around the library (file input, error and serialization traits of outside crates on
copies of library types).

Modules:

- `felt`, `word`, `random` — Goldilocks field elements (arithmetic by `p3-goldilocks`), words of
  four elements, reading values from random bytes.
- `digest`, `serialization` — fixed-size byte digests and their hexadecimal text; bounded lengths
  read from serialized input.
- `instance`, `ace_layout`, `advice` — STARK instance validation before proving, the input layout
  of ACE circuits, and the advice stacks of the recursive verifier.
- `debug_info`, `source_debug`, `debug_merge`, `package_debug` — package debug sections and their
  merge across MAST forests.
- `history`, `entries`, `leaf_table`, `forest`, `forest_error` — the history of a sparse Merkle
  tree, the entries of historical trees, and the in-memory bookkeeping of a forest of trees.
- `project` — source providers by file type, and package build settings.

Laws of the library are stated as public proof functions named `law_*`.

What the library does not hold:

- the STARK prover and verifier pipelines themselves (transcripts, commitments, openings): only
  their checks on their inputs before proving or verifying (`check_prover_inputs`,
  `check_verifier_constraint_degree`);
- the project assembler and dependency resolution, which read files and call the assembler,
  project and package-registry crates;
- the ACE circuit builder (`build_ace_dag_for_air`, `build_ace_circuit_for_air`), which evaluates
  AIRs symbolically: only its input counts and layout choice;
- the sparse Merkle tree forest `SmtForest` and the updates of the large forest's trees, and ECDSA
  signing, whose sources are not part of this code.
