# criptomeria-marketdata

Forwards limit-order-book and trade events from exchange streams to NNG
PUB/SUB subscribers over TCP. Each message travels as `topic\0payload`, the
topic being `{lob|trade}__{instrument}`.

Layout:

- `src/` — the verified library (Verus):
  - `forward.rs` — topic naming, wire framing and splitting, the structured
    log line of a received frame;
  - `registry.rs` — the subscriber registry and its per-topic counts;
  - `config.rs` — data kinds, credential resolution, the ordering and planning
    of configured exchange sources, configuration errors;
  - `broker.rs` — connection log lines and the outcome of a publish;
  - `text.rs` — character and string helpers (the `str` order, sorting).
- `app/` — the `marketdata` binary: CLI, TOML loading, `.env` loading, the NNG
  sockets and threads, the async exchange tasks.
- `tests/` — tests of the library.
