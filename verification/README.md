# trellis

A provenance-aware incremental-computation runtime for coding agents: it
keeps agent-derived artifacts against an evolving repository so that agents
reuse still-valid work and recompute only what changed. Typed dependency
projections, append-only validation attestations and red/green
reevaluation with a value-equality cutoff.

The library is written in Verus and verified as a whole: its public
functions carry contracts that the verifier proves; private helpers without
a contract of their own are still checked for arithmetic and indexing
safety.

## Layout

- `src/` — the verified library
  - `ids`, `hash`, `canonical`, `error` — content identities, BLAKE3, the
    canonical encodings identities are computed over
  - `artifact`, `attestation`, `validity`, `snapshot`, `projection`,
    `observation_id`, `coverage` — the domain model and its invariants
  - `source` — manifests, reconciliation, environment fingerprints, freezes
  - `program` — Python syntax projections over tree-sitter parse trees
  - `semantic` — SCIP ingest into a normalized semantic graph and the
    freeze rule
  - `engine` — candidate discovery, observation, per-round decisions of the
    red/green transition, and the append-only attestation ledger a round
    commits into
  - `cli` — the command surface's decisions: argument parsing, dependency
    projections, anchors, pins, the labeled approximate caller resolver
  - `json` — JSON documents read from `serde_json`'s preorder tokens, and
    the stored payload and sidecar registry decoded from them
  - `oracle`, `cas` — mutation catalog folding, blob layout and checks
- `tests/` — behaviour tests run against the compiled library
- `app/` — the command-line program: file system, store and JSON I/O
  around the library
