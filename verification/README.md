# luna

The search, catalogue and interaction logic of the Luna media service, written
in Verus. The functions of the library carry contracts that Verus proves, with
two exceptions: the availability flag of the embedding service, shared between
threads, is read and set with nothing stated of its value. A few small wrappers
around outside code (MD5, Unicode lowercasing, the HTTP status phrase, the HTTP
client, appending to a string) have contracts that Verus takes on trust.

- `src/` — the verified library.
  - `filter`, `filter_laws`, `filter_bytes`, `search`, `window`, `fallback`:
    search requests, the filter syntax of the index (escaping, splitting,
    reading values back, on characters and on UTF-8 bytes),
    result windows, and the decisions of the SQL fallback.
  - `outbox`, `batch`, `indexer`, `reconcile`, `sorted`, `sync_events`:
    outbox events and their batching, the indexer's state, reconciliation of id
    sets, and the events that catalogue writes emit.
  - `document`, `loader`, `settings`, `embedding`: index documents, joining
    loaded rows, index settings, and the embedding client.
  - `pagination`, `affinity`, `links`, `file`, `interaction`: listings and their
    links, record links, media files, and user interactions.
  - `laws`: properties that span several operations.
- `tests/` — tests of the library on concrete values.
- `app/` — the service around the library: JSON models, HTTP calls to the search
  engine and the embedding service, hybrid ranking, and the indexer loop.
