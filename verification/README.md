# soroban-event-indexer

An embeddable library for indexing Soroban smart contract events, verified
with Verus.

- `src/` — the verified library:
  - `scval.rs`: decoding of base64 XDR `ScVal` values and their compact text;
  - `event.rs`: `IndexedEvent`, its decoding from a raw RPC event, `EventKind`,
    `EventFilter`;
  - `config.rs`: `Network`, `PollInterval`, `IndexerConfig` and its builders,
    and configuration from the values of environment variables;
  - `indexer.rs`: `EventIndexer`, `StopHandle`, the retry backoff and every
    decision of the poll loop (start ledger, request, event selection, next
    position and pause);
  - `rpc.rs`: the shapes of the `getEvents` exchange and the reading of a
    JSON-RPC response;
  - `text.rs`: decimal and hexadecimal rendering, decimal parsing;
  - `error.rs`, `storage.rs`: the error type and the storage trait.
- `app/` — what talks to the outside world: the `ureq` transport, the blocking
  poll loop (`Watch::watch`), SQLite storage, environment variables, JSON
  shapes (serde) and the `soroban-indexer` command line.
- `tests/` — tests of the library.
