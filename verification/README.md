# lifeos

A synchronisation engine for LifeOS: entries, an append-only change log whose
events carry increasing sequence numbers, one checkpoint per device, and the
processing of pushes (events from a device, applied in order, with duplicate
detection and version checks) and pulls (every event after a sequence number,
with the entries it touches).

- `src/` is the verified library. `repository_spec.rs` and `sync_spec.rs`
  state what each statement, push and pull does to the tables;
  `repository.rs`, `processor.rs`, `pull_processor.rs`, `validator.rs` and
  `sync_engine.rs` implement them; `laws.rs` proves the properties that span
  several calls (reads give back writes, stale updates are refused, replays
  change nothing, the log only grows, pulls resume where they stopped).
- `app/` is the program around it: the HTTP server (axum), the SQLite file
  that keeps the repository between runs, the serde forms of the messages, and
  a command-line walk-through (`cli`).
- `tests/` exercises the library.
