# ucm — Unified Context Model

A dependency graph of a code base, built from events (source files, diffs,
tickets, API logs, co-change history), with confidence-weighted impact
analysis, test intent, ambiguity detection and decision traces. The library
is written in Verus: every function in `src/` carries a contract that Verus
proves.

Confidences are whole numbers of millionths (`1_000_000` is certainty);
products round down to the millionth after each factor.

## Layout

- `src/` — the verified library
  - `entity`, `edge`, `event`, `error` — the data model
  - `confidence` — noisy-OR fusion and chain products, with their laws
  - `graph`, `stable_graph`, `keyed` — the context graph over petgraph's
    `StableGraph` and std's `HashMap`, with its well-formedness invariant
  - `projection`, `store` — the event log and the graph it projects to
    (laws: replay is deterministic, discovery idempotent, replay splits)
  - `code_parser`, `source_events`, `diff_parser`, `*_adapter` — ingestion
  - `impact`, `report`, `explanation`, `intent`, `ambiguity` — reasoning
  - `trace`, `replay` — decision traces and replay comparison
  - `demo`, `scan` — the demonstration graph and the rules of a directory scan
  - `text`, `clock` — string helpers and the wall clock
- `tests/` — tests run against the compiled library
- `app/` — the `ucm` command line and HTTP API: file and network I/O, JSON,
  and the floating-point temporal decay
