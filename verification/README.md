# zeroclaw_sessions

The decisions of a session gateway, verified with Verus.

- `src/` is the library. Every function in it carries a contract; what holds
  across functions stands in public proof functions named `law_*`.
- `tests/` runs the library.
- `app/` is ordinary Rust around it: HTTP handlers, helper processes, files,
  shared hubs and two command lines. The stores and services it runs on are
  traits in `app/host.rs`.

What is taken on trust is what other crates do: `serde_json` parses and writes
documents, `chrono` writes moments, `tokio` carries frames and messages. The
items that say so are marked `external_body`, `external_type_specification` or
`assume_specification`, each with a comment that names the function and says what
is claimed of it.
