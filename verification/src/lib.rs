//! Constant-product automated market maker: pool state, the pool arithmetic
//! (swap quotes, LP minting and burning, integer square root) and the state
//! transitions of the four pool instructions, each with its contract.
//!
//! Token transfers, account validation and the rest of the on-chain plumbing
//! live outside this library; the instruction handlers here decide what is
//! transferred and how the pool changes.

pub mod arith;
pub mod errors;
pub mod state;
pub mod instructions;
pub mod laws;
