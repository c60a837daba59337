# Kelp

Kelp is an embedded, object-oriented database: typed schemas, objects with
references, models that project objects, and a storage layer of slotted
pages, a write-ahead log, a page cache and an object location index.

The library in `src/` is written in Verus, and Verus checks every function
in it. Contracts (`requires`/`ensures`) are stated over a mathematical model
of the data (sequences, maps and views). Where a function only hands a call
on to a storage backend that users plug in, the backend's answer is not
stated; the decisions taken on that answer stand as functions of their own,
each with an exact contract. The
properties that span several calls are stated as public proof functions
(`lemma_*`), for instance that a page cache keeps its LRU order consistent,
that records written to a slotted page read back unchanged, that a
superblock or a WAL record survives encoding, and that a memory storage
rolled back is what it was when the transaction began.

Layout:

- `src/storage/` pages and superblocks, slotted pages, the binary record
  codec, the write-ahead log, the page cache, the location index, paged
  storage, and the in-memory backend.
- `src/schema.rs`, `src/object.rs`, `src/value.rs`, `src/validation.rs`,
  `src/reference.rs`, `src/model.rs` the data model and its rules.
- `src/database.rs` the database API over a storage backend.
- `src/shell.rs`, `src/server.rs` how shell lines and HTTP requests are read.
- `app/` the command-line program: file storage, the interactive shell, the
  HTTP server, JSON, and query predicates (which compare floating-point
  values).
- `tests/` tests of the library.
