# remitwise

Verified core of the RemitWise contracts, written in Verus. Each contract is
modelled as plain state (accounts are `u64` addresses, the ledger time is an
argument `now`, token movements are returned as `Transfer` values for the host
to carry out) and every public operation states its full effect as a spec
function over an abstract view.

## Layout

- `src/common.rs` – roles, coverage types and shared limits.
- `src/ordmap.rs` – a sorted `u64`-keyed map used for wallet and registry state.
- `src/text.rs`, `src/hex.rs` – decimal and hex rendering with exact specs.
- `src/migration.rs` – snapshot headers, SHA-256 and legacy checksums, version
  window and payload bounds; `src/tracker.rs` – replay protection for imports;
  `src/csv_io.rs` – CSV export/import with formula-injection escaping;
  `src/encrypted.rs` – the `enc:v1:` base64 envelope.
- `src/killswitch.rs` – global, per-module and per-function pauses with a
  timelocked unpause.
- `src/insurance.rs` – the policy registry: creation bounds, premium cadence,
  deactivation, paging and totals.
- `src/wallet.rs` and `src/wallet/` – the family multisig wallet: members and
  roles with expiry, multisig proposals and signing, emergency transfers,
  archiving, audit trail; `src/wallet/laws.rs` holds the cross-operation
  properties.
- `tests/` – scenario tests run against the compiled library.
- `app/` – the command-line client and the serde-based snapshot readers and
  writers, which hand bytes to the verified checks.

Outside crates called from the verified code (through small trusted wrappers):
`sha2` for SHA-256, `base64` for the envelope, `csv` for writing CSV records.
