# kura

Kura is a single-node embedded key-value storage engine (an LSM tree with a
write-ahead log, memtable, SSTables and compaction). This crate holds its
verified core; `app/` holds the thin filesystem layer around it.

## Layout

- `src/binary.rs`: little-endian integers and length-checked reads with a
  moving offset.
- `src/text.rs`: decimal digits as characters, bytes and text.
- `src/filename.rs`: manifest file names (`MANIFEST-` and twenty digits).
- `src/manifest/state.rs`: the database state that a manifest records.
- `src/manifest/codec.rs`: the manifest file format (`KURAMNF`, version 1),
  its decoder and encoder, and the proof that decoding what was encoded gives
  the state back.
- `src/manifest/current.rs`: the CURRENT file (one line naming the live
  manifest).
- `src/internal_key.rs`: internal keys and their order (user key ascending,
  sequence number descending, value type ascending), proved a total order.
- `src/sequence.rs`: sequence numbers and their allocator.
- `src/bootstrap.rs`, `src/db.rs`: what probes of a database directory mean
  when it is opened.
- `app/`: opening a database directory, locking it (with `fs2`), and reading
  and writing files.
