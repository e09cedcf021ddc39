# ledgerkeep

Verified logic of the LedgerKeep contracts for Soroban: the maintenance
standard a contract adopts, the manifest registry, and the rent vault that
pays keepers.

- `src/` is the library, verified with Verus. Each contract operation is a
  step function over the stored values it reads, returning what to store,
  emit and transfer; `Maintenance`, `Registry` and `RentVault` apply the same
  steps to a whole in-memory state, and the laws (`*/laws.rs`,
  `registry/layout.rs`, the lemmas in `maintainable.rs`) are proved over those
  states.
- `app/` holds the Soroban contracts themselves: storage, authorization,
  events, token transfers and the cross-contract call, around the library's
  steps.
- `tests/` exercises the library on concrete scenarios.
