# ciris_accord

The HUMANITY_ACCORD kill-switch and the graded admin-op ladder of a CIRIS
server node, as a library whose every decision is stated in a contract and
proved with Verus.

## Layout

- `src/prims.rs` — instants, digests and text: the small wrappers over
  `chrono`, `sha2`, `hex`, `base64`, `getrandom`, `serde_json`, `uuid` and
  `std`, and the spec vocabulary the other modules' contracts use.
- `src/release.rs` — the offline release of a halt latch: the binding a token
  must carry, the verification gate, and its laws.
- `src/halt.rs` — the halt latch record, the boot gate's decision, and how a
  global halt latches (retries, back-off) and ends the process.
- `src/accord.rs` — the accord's coordination rules: quorums, the roster's
  one-key-one-seat gate, the surfaced-event log, judging a sighted invocation,
  the replication loop-stop, opening invocations and the pending table.
- `src/provision.rs` — the canonical role, the YubiKey attestation path, the
  pending co-sign store and request validation.
- `src/duty.rs` — conferring a moderation duty: proposal checks, co-signature
  checks and the read-back.
- `src/commit.rs` — the commit gate every mutating admin op passes, and the
  per-target steps of the write door and the descent.
- `src/admin.rs` — standings, notes, and the folds over the admin ledger.
- `src/selection.rs` — the operator's selection: normal form, filter, the
  selection hash, and the preview page summary.
- `src/adapter.rs`, `src/attest.rs`, `src/crossing.rs` — the adapter seam's
  plain types, mint failures, and mesh-crossing outcomes.
- `app/` — files, JSON and the async adapter trait around the library.
- `tests/` — the library's tests.
