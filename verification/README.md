# orbit_core

The decision logic of the Orbit runtime, written in Verus: every function in
`src/` carries a `requires`/`ensures` contract and is proved against it.

- `src/` — the verified library. Each module states its rules as spec
  functions over `Seq`, `Set` and plain values, and the executable functions
  are proved to compute exactly those. Properties that relate several calls
  stand as public `law_*` proof functions (for example: a session-log entry
  id is never reused, a refused resolve changes nothing, done is terminal,
  every invocation is charged to exactly one accounting bucket, a
  reservation that overlaps an active task is refused, a push is retried at
  most once).
- `tests/` — ordinary Rust tests that run the compiled library on concrete
  inputs.
- `app/` — the I/O around the library: the session-log file, git and file
  steps of artifact publication, run-claim guard files, audit payload
  loading, and the bridge between `serde_json::Value` and the library's
  `JsonValue`.

Two calls into `chrono`, one into `String::push` and one into
`std::path::Path::parent` are trusted: they are the
`#[verifier::external_body]` wrappers in `session_log.rs`, `friction.rs`,
`text.rs` and `roots.rs`, each with a doc comment saying what is claimed.
