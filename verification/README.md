# lwc_store

The store of a wiki that agents write: sources, the pages derived from them, tags,
relations, discussions, drafts of change, and what two replicas need to agree again. The
rules are written in Verus and proved; a small layer of ordinary Rust puts them on a SQLite
file.

## Layout

- `src/` is the verified library. A `Store` is the content of a wiki as plain values; each
  operation is a method with a contract over the mathematical view of the store. The files
  `laws.rs`, `citations.rs`, `changeset_laws.rs`, `sync_laws.rs` and `soundness.rs` hold most of
  what is true of several operations together.
- `tests/` runs the library on concrete values.
- `app/` reads a `Store` out of the tables of a file, hands it the time, chance, and what
  lies on disk, and writes back what changed. It also ranks search results, which takes
  floating-point numbers.

## What is trusted

The library calls `sha2`, `serde_json` and `pulldown-cmark`, and a few functions of the
standard library on characters and strings. Each call stands behind one small function whose
documentation says what is assumed of it.
