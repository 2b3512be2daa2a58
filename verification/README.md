# reductstore

Parts of a time series store for binary records, verified with Verus.

- `src/batch`: the record stream protocol. A writer and an incremental reader, and proofs that a
  stream is read back as it was written, wherever it is cut into chunks.
- `src/api`: the response body of a streaming query as a state machine, and the routing of
  message keys to buckets and entries.
- `src/storage`: the write-ahead log of a block, the index of an entry's blocks, and quotas.
- `src/benchmark`: requests, limits, plans and results of the built-in benchmarks.
- `app`: HTTP handlers, files and tasks around the library. It does what the library's state
  machines say and hands back what happened.
- `tests`: the library from outside, with files, clients and queries in memory.

Calls into other crates stand behind small declarations whose contracts are not proved: byte
buffers (`src/batch/buffer.rs`), checksums (`src/storage/binary.rs`), random
numbers and names (`src/benchmark/random.rs`), sizes such as `1GB` (`src/benchmark/config.rs`),
and a few functions of the standard library.
