# cpamm

A constant-product automated market maker (x * y = k with a fee, LP tokens,
slippage protection), written in Verus.

- `src/` is the verified library: the pool state, the pool arithmetic
  (`state.rs`), the decisions of the four instructions (`instructions/`), the
  arithmetic facts the proofs use (`arith.rs`) and the properties proved of
  the whole (`laws.rs`).
- `app/` is the on-chain program around it: account validation, token
  transfers, LP minting and burning, and the instruction entry points.
- `tests/` runs the library on concrete values.
