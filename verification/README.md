# fortress

The evaluation engine of Fortress as a verified library: architecture
contracts and their realization, semantic conformance of Module policy,
intended and realized behavioral flow graphs, affected-analysis of
repository snapshots and projection caches, and certification.

## Layout

- `src/` — the library, written in Verus. Every executable function states
  its result in `ensures`; the laws that relate several functions are public
  proof functions beside them (`lemma_*`).
  - `architecture`, `architecture/semantic_conformance`,
    `architecture/realization` — Module contracts, dependency cycles,
    semantic-policy evaluation and implementation reconciliation.
  - `behavior` — the Intended Behavioral Flow Graph.
  - `behavioral_realization` — implementation events and their derivation
    from the semantic models (`derive`), the loading of distributed
    realization contracts (`loader`), and the Realized BFG.
  - `affected` — snapshots, affected closure and the incremental projection
    cache.
  - `certification` — obligations, evidence graphs and certification.
  - `codec`, `json`, `text`, `order` — text, digests and canonical order.
- `tests/` — executable tests of the library.
- `app/` — the decoding of realization-contract documents with serde, which
  hands typed documents to the library, and the files of the incremental
  projection cache (`cache`), whose entries the library verifies.

Outside crates: `sha2` computes digests, `serde_json` escapes JSON strings
and, in `app/`, decodes documents.
