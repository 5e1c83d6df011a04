# aivyx-kvcache

Local persistence and sharing of KV-cache slots for LLM serving, verified with Verus.

A `KvCacheStore` finds, confirms, records and evicts slots under a budget of bytes. Slots
are keyed on backend, model, build and a hash of the stable prompt prefix; the least
recently used go first. There are two stores: `InMemoryKvCacheStore`, and
`LlamaServerSlotStore`, which drives llama-server's `/slots/{id}?action=save|restore`
against files on disk.

- `src/` is the library. `store.rs` says what a store is, `manifest.rs` is the table of
  slots, `llama_server.rs` and `sweep.rs` decide on requests and file deletions,
  `slot_name.rs` names the files, `cli.rs` writes the reports,
  `calls.rs` makes the calls of a store values and `changes.rs` those of the table,
  `steps.rs` takes a save or a restore from one event to the next. The modules ending in
  `_laws` state what holds of these together.
- `app/` is the `aivyx-kvcache` program and the asynchronous stores: sqlite, files and HTTP
  around the library.
- `tests/` run the library, with sqlite beside it where the table has to agree with one.

Point llama-server's `--slot-save-path` at `slots/` inside the store directory: llama-server
takes bare filenames, so both have to mean the same directory.
