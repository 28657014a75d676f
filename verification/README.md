# trusttrove

The trade-finance protocol of four Soroban contracts (registry, invoice,
escrow, liquidity pool), with its logic written in Verus and proved against
its contracts.

## Layout

- `src/` — the verified library.
  - `ledger.rs`: addresses (by their XDR encoding), invoice identifiers, the
    context of an invocation (time, authorizations, current contract) and the
    token movements an operation asks for.
  - `table.rs`: a finite map keyed by byte encodings, with sums over its values.
  - `registry.rs`, `invoice.rs`, `escrow.rs`, `pool.rs`: each contract as a
    state machine. Every operation states, for every input, which failure it
    meets or what it changes, and keeps its contract's invariant.
  - `token.rs`: the ledger of the pool's asset; a transfer moves a non-negative
    amount the sender holds, or is refused.
  - `protocol.rs`: the four contracts deployed together with the token of the
    pool's asset. The invocations that cross contracts (funding, repayment,
    default, deposits and withdrawals) run there as one transaction, and the
    deployment keeps its invariant: what the pool has outstanding is held in
    escrow to the unit, the pool's balance covers its free liquidity, and the
    escrow's balance is exactly the sum of its records. A default writes the
    funding off the pool's deposits while the shares stay, so the share price
    falls and the providers bear the loss pro rata.
- `tests/` — the behaviour of each contract and of the deployment on concrete
  values.
- `app/` — the Soroban contracts around the library: storage, authorization,
  token transfers, cross-contract invocations and events.

The one outside call the library makes is SHA-256 (for invoice identifiers),
through the host's `Crypto::sha256`; its result is named, not restated.
