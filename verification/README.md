# mergemint

A bounty board in two parts — an on-chain bounty contract and an HTTP
backend — whose logic is written in Verus and proved against its
contracts.

## Layout

* `src/contract/` — the bounty contract as a state machine over plain
  values. Every entry point either returns the token transfers and events
  the host must carry out, or a `ContractError` with the state left as it
  was. Status indexes are paged lists whose removal is a swap-remove;
  payouts split a reward in basis points.
* `src/escrow.rs` — the escrow contract: refunds on cancellation or expiry.
* `src/backend/` — the backend's rules: input validation, the token-bucket
  rate limiter, idempotency keys for transaction-submitting requests,
  newest-first listing with cursors, the event indexer's ledger cursor, and
  the parsing of comma-separated settings.
* `src/event_indexer.rs` — bounty ids read from raw event values, as hex.
* `tests/` — scenario tests of the library.
* `app/` — the HTTP server: routing, locks, JSON, time, signals and
  logging around the library.

Verify with Verus; the tests and the server build with the crates named in
`Cargo.toml`.
