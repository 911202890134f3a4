# blaze

The core of a lightweight, ad-blocking web browser, written in Verus: the
library in `src/` is verified, `app/` is the ordinary Rust around it.

- `src/tabs.rs` and `src/tabs/`: the window and tab registry (creation,
  closing, focus, ordering, moving, pinning, the lifecycle, the closed-tab
  ring, least-recently-used suspension, session snapshots and restore), with
  its well-formedness invariant kept by every operation.
- `src/servo.rs`, `src/embedding.rs`, `src/engine.rs`: the engine contract,
  the simulated engine backend, and the decisions of the embedded backend.
- `src/adblock.rs`, `src/cosmetic.rs`, `src/shields.rs`, `src/exceptions.rs`,
  `src/webkit_rules.rs`: filter engine access (through the `adblock` crate),
  cosmetic CSS and scriptlets, per-tab shield counters, per-site exceptions,
  and the WebKit content-blocker rule list.
- `src/downloads.rs`, `src/download_state.rs`, `src/transfer.rs`,
  `src/filenames.rs`: the download state machine, ranged-transfer decisions
  and safe file names.
- `src/address.rs`: address-bar input resolution and scheme checks.
- `src/bookmarks.rs`, `src/settings.rs`, `src/media.rs`, `src/events.rs`,
  `src/debounce.rs`, `src/retention.rs`, `src/diagnostics.rs`,
  `src/filter_update.rs`: the remaining rules of the core.
- `app/`: SQLite storage, HTTP transports, JSON documents, the crash hook and
  the `BlazeCore` facade shells drive.
- `tests/`: tests of the library.
