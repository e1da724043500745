# attesta

Backend core of the Attesta confidential-payments layer, written in Verus:
the logic of the API, the indexer and the disclosure tool, with its
behaviour stated as contracts and proved.

## Layout

- `src/` — the verified library.
  - `merkle.rs` — the incremental depth-32 Merkle tree over commitments,
    proved equal to the naive full-tree definition (roots and paths).
  - `tree_service.rs` — the per-pool tree the API serves: contiguous
    top-up, commitment index, path and root answers, root history records.
  - `xdr.rs`, `events.rs`, `ingest.rs` — reading Soroban `ScVal`s from
    XDR bytes, event decoding, and the ingest cursor and keyed (replay-safe)
    database writes.
  - `limits.rs` — per-address token buckets and SSE connection slots.
  - `credentials.rs`, `notes.rs` — the credential mailbox checks and claim
    decisions; note paging and the SSE resume/dedup rules.
  - `config.rs`, `service.rs`, `disclosure.rs` — configuration from
    environment values, smaller service policies, disclosure reports.
  - `codec.rs`, `text.rs`, `api_error.rs`, `models.rs` — hex/base64/SHA-256,
    integer parsing and rendering, trimming, error answers, row types.
- `tests/` — tests run against the compiled library.
- `app/` — the binaries (`api`, `indexer`, `disclosure`): HTTP, database,
  RPC and file I/O around the library.

Outside crates are called from `src/` only through a few trusted wrappers
in `codec.rs` (`sha2`, `base64`, `hex`, and std's `String::from_utf8`);
each states what it assumes. `extras/migrations/` holds the keys that make
the indexer's writes idempotent.
