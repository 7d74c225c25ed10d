//! Errors that the pool instructions and their arithmetic report.

use vstd::prelude::*;

verus! {

/// Every way in which a pool instruction can be refused.
#[derive(Debug, Clone, Copy, PartialEq, Eq, Structural)]
pub enum CpammError {
    /// Amount must be greater than zero.
    ZeroAmount,
    /// Insufficient input amount for desired output.
    InsufficientInput,
    /// Output amount below the caller's minimum (slippage protection).
    SlippageExceeded,
    /// Insufficient reserves for the operation.
    InsufficientReserves,
    /// The pool is not active.
    PoolInactive,
    /// The LP token amounts could not be computed.
    LpCalculationError,
    /// The swap amount could not be computed.
    SwapCalculationError,
    /// Insufficient LP tokens to burn.
    InsufficientLpTokens,
    /// Mint addresses must be sorted (lower key first).
    UnsortedMints,
    /// Arithmetic overflow, or an invalid fee.
    Overflow,
}

} // verus!
