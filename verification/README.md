# replicache_client

The client core of a key/value store that keeps its data as
content-addressed chunks, with the parts that decide things verified by Verus.

- `src/prolly.rs`: the ordered byte map of a transaction. Keys are kept in
  strictly ascending lexicographic order (a type invariant); lookups are a
  binary search; `put` inserts or replaces. Its view is a `Map` from key bytes
  to value bytes, and the laws of a key/value map (a read gives back the last
  write, writes to other keys do not disturb it, ...) are proved there.
- `src/dag/meta.rs`: the metadata table of a chunk (the chunks it refers to),
  read from bytes by verified code against a spec of the table layout, and
  built by the flatbuffers builder.
- `src/db/write.rs`: the write transaction over a basis commit's map, the
  commit that records it, and the order in which a commit is stored.
- `src/connections.rs`: the table of open databases (names are unique).
- `src/dispatch.rs`: where a request goes, opening and closing databases, and
  the replies of the `has`, `get` and `put` handlers.
- `src/wasm.rs`: the decisions of the second entry point (opening into its own
  table, starting a scan).
- `app/`: the entry points, the request loop, JSON encoding and the store
  backends.
