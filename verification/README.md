# soroban_templates

Verified logic of a family of Soroban smart-contract templates: a DAO with
bonded proposals and an adaptive quorum, an English auction, an NFT
marketplace with offers and batches, a staking pool, two-party token swaps
(with partial fills and basket swaps), token vesting with revocation, and a
ballot with single-choice and instant-runoff counting.

- `src/` is the library, verified with Verus. Each contract is a plain state
  type whose methods take what the ledger knows (the caller, the ledger
  sequence, token balances, NFT ownership and royalties) as arguments and
  return the token and NFT movements to perform. Contracts state the exact
  outcome of every call, each error with the inputs that cause it, and the
  accounting laws (escrow held equals what is owed, votes counted once,
  vesting split exactly on revocation, ...).
- `src/common.rs` holds what the contracts share: transfers and their net
  effect on an account, basis-point fees, saturating arithmetic, map sums.
- `tests/` runs the library on concrete scenarios against a simulated token
  ledger.
- `app/` is the Soroban shell of each contract: ledger storage, authorization,
  token and NFT contract calls, and events around the library.
