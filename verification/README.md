# aave_liquidator

A liquidation strategy for Aave-style lending pools, written in Verus.

- `src/` is the strategy: what is read from the chain, how borrowers are tracked, how a
  liquidation is sized, priced and chosen, and when a transaction is submitted. Every public
  function carries a contract that Verus proves. 256-bit arithmetic, address parsing and path
  packing are done by `ethers`, behind functions whose contracts are trusted; each one names the
  function of `ethers` that it stands for.
- `app/` connects the strategy to a chain: contract calls, event queries, the cache file.
- `tests/` runs the strategy on concrete values.
