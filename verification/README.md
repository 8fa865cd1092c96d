# brain_metadata

The metadata store of a memory substrate: memories and their edges, statements
and their evidence, schemas and their vocabulary, and the records of a
write-ahead log, kept in [redb](https://docs.rs/redb) tables. The library is
written in Rust and verified with Verus.

## Layout

- `src/redb_txn.rs`, `src/inline_evidence.rs` and two functions in `src/row.rs`
  and `src/tables/fingerprint.rs` hold every call that is trusted: redb,
  smallvec, UTF-8 decoding and BLAKE3.
- `src/store.rs` and `src/catalog.rs` turn a transaction into a map from table
  and key to bytes, and know the tables. Every contract above them speaks of that
  map.
- `src/bytes.rs`, `src/order.rs`, `src/cells.rs` and `src/row.rs` encode keys and
  rows, and prove that what was written is read back.
- `src/tables/` has a module for each kind of row and for its keys.
- `src/sink.rs` applies the records of the log; `src/sink/laws.rs` says what
  replaying them comes to.
- `src/statement/` creates, supersedes, tombstones, lists and explains
  statements; `src/statement/laws.rs` states what every operation keeps, and
  `src/statement/laws/` what comes of facts that disagree and of chains of
  versions.
- `src/definitions.rs`, `src/vocabulary.rs`, `src/schema_apply.rs`,
  `src/schema_store.rs` and `src/system_schema.rs` register predicates, types and
  schemas.
- `app/` is the plain Rust around the library: opening files, the clock, floating
  point, JSON and the asynchronous judge of contradicting statements.
- `tests/` runs the library against real databases.

## Conventions

A write transaction creates the tables that it opens. A snapshot reports a table
that does not exist as an error, except where a caller asks for what there may be;
opening the store creates every table that a read path relies on.

An operation on a transaction has a spec function that says what it does to the
rows, or which error it gives. The operation itself either agrees with that
function or reports that redb failed. Floats are carried as their bits, and the
clock, fresh identifiers and aggregated confidences come in as arguments.
