# ViewWitness

Structured, diffable witnesses of observed GUI state (Rust + egui), with the
logic verified by Verus.

- `src/` — the verified library: the canonical witness model and its
  validation, JSON values with exact rendering, the semantic witness diff,
  authored custom-paint identity and its conservative cross-frame diff,
  continuity assessment, deterministic agent-text projections, conversion of
  an egui accessibility tree (held as plain values), exact-capture
  conversion and request bookkeeping, and command-line option handling.
  `src/laws.rs` and `src/order.rs` state and prove the properties that hold
  across functions (frame numbers and slot churn are not changes, keyed
  bindings match by key, duplicated IDs are refused, projections do not
  depend on listing order, the listing order sorts); `src/lines.rs` and
  `src/focus_lines.rs` prove the line structure of the agent texts (one line
  per rendered item); `src/frame_probe.rs` proves what a same-pass capture's
  metadata holds; `src/framing.rs` frames newline-terminated transport
  messages.
- `app/` — the `viewwitness` command line and everything around the library
  that does I/O or binary32 arithmetic: YAML/JSON forms of the records, egui
  plugins and adapters, the capture and paint transports, the inspection
  client, and geometry/clip-survival derivation.
- `tests/` — executable checks of the library on concrete values.

Binary32 quantities are carried as `Measure` values: their bits together with
the `Display` text and JSON text observed with them, so the verified code
compares and prints them without floating-point arithmetic. Those texts are
`LineText` values, which hold no line break, so every agent text has exactly
one line per rendered item.
