# qbit_toolbox

The verified core of Qbit Toolbox, a desktop utility host, written in Verus.

- `src/feature_api.rs` — validated feature identifiers (`qbit.<slug>`) and static feature
  metadata.
- `src/runtime.rs` — the feature registry: registration order, duplicate refusal, lifecycle
  state, and the laws relating registration, updates and reads.
- `src/diagnostics.rs` — a bounded in-memory recorder that keeps the newest events.
- `src/persistence.rs` — durability profiles, connection pragmas, migration-plan validation,
  per-step migration decisions and the canonical feature database location.
- `src/host.rs` — the status and error objects the user interface receives, and how
  persistence failures become safe, stable error codes.
- `src/hotkeys/` — the Hotkeys feature: the domain model (key tokens, chords, mappings),
  conflict analysis (duplicate triggers, emit-shortcut cycles), keymap compilation, the
  feature descriptor, the checks on stored mapping rows, and the proof that the conflict
  report does not depend on the order of the mappings.

`app/` holds what runs around the library: the Tauri host, the SQLite stores and the JSON
forms of library types. `tests/` exercises the library through its public API.
