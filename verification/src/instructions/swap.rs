//! Swap tokens using the constant-product formula.
//!
//! The user specifies `amount_in` of one token and `min_amount_out` for
//! slippage protection. The pool computes the output with the x*y=k formula
//! after deducting the fee; the whole input, fee included, joins the reserves.

use vstd::prelude::*;
use crate::errors::CpammError;
use crate::state::{Pool, spec_compute_swap_out};

verus! {

/// The reserves `(reserve_in, reserve_out)` for a swap in the given direction.
pub open spec fn swap_reserves(pool: Pool, swap_a_to_b: bool) -> (u64, u64) {
    if swap_a_to_b {
        (pool.reserve_a, pool.reserve_b)
    } else {
        (pool.reserve_b, pool.reserve_a)
    }
}

/// The outcome of a swap: the pool afterwards and the output amount, or the
/// first check that refuses it.
pub open spec fn spec_swap(pool: Pool, amount_in: u64, min_amount_out: u64, swap_a_to_b: bool) -> Result<
    (Pool, u64),
    CpammError,
> {
    let (reserve_in, reserve_out) = swap_reserves(pool, swap_a_to_b);
    if !pool.is_active {
        Err(CpammError::PoolInactive)
    } else if amount_in == 0 {
        Err(CpammError::ZeroAmount)
    } else {
        match spec_compute_swap_out(
            amount_in,
            reserve_in,
            reserve_out,
            pool.fee_numerator,
            pool.fee_denominator,
        ) {
            None => Err(CpammError::SwapCalculationError),
            Some(amount_out) => {
                if amount_out < min_amount_out {
                    Err(CpammError::SlippageExceeded)
                } else if amount_out >= reserve_out {
                    Err(CpammError::InsufficientReserves)
                } else if reserve_in + amount_in > u64::MAX {
                    Err(CpammError::Overflow)
                } else {
                    let new_in = (reserve_in + amount_in) as u64;
                    let new_out = (reserve_out - amount_out) as u64;
                    let next = if swap_a_to_b {
                        Pool { reserve_a: new_in, reserve_b: new_out, ..pool }
                    } else {
                        Pool { reserve_a: new_out, reserve_b: new_in, ..pool }
                    };
                    Ok((next, amount_out))
                }
            },
        }
    }
}

/// Swap `amount_in` of one token (A for B when `swap_a_to_b`, else B for A).
///
/// Returns the amount of the other token that leaves the pool, and updates the
/// reserves; the caller moves `amount_in` into the input vault and the output
/// out of the other. On an error the pool is left as it was.
pub fn handler(pool: &mut Pool, amount_in: u64, min_amount_out: u64, swap_a_to_b: bool) -> (result:
    Result<u64, CpammError>)
    ensures
        match spec_swap(*old(pool), amount_in, min_amount_out, swap_a_to_b) {
            Ok((next, amount_out)) => result == Ok::<u64, CpammError>(amount_out) && *final(pool)
                == next,
            Err(e) => result == Err::<u64, CpammError>(e) && *final(pool) == *old(pool),
        },
{
    if !pool.is_active {
        return Err(CpammError::PoolInactive);
    }
    if amount_in == 0 {
        return Err(CpammError::ZeroAmount);
    }
    let (reserve_in, reserve_out) = if swap_a_to_b {
        (pool.reserve_a, pool.reserve_b)
    } else {
        (pool.reserve_b, pool.reserve_a)
    };

    // Compute output amount
    let amount_out = match Pool::compute_swap_out(
        amount_in,
        reserve_in,
        reserve_out,
        pool.fee_numerator,
        pool.fee_denominator,
    ) {
        Some(out) => out,
        None => {
            return Err(CpammError::SwapCalculationError);
        },
    };

    // Slippage protection
    if amount_out < min_amount_out {
        return Err(CpammError::SlippageExceeded);
    }
    if amount_out >= reserve_out {
        return Err(CpammError::InsufficientReserves);
    }

    // Update reserves: the input (fee included) joins the input reserve.
    let new_in = match reserve_in.checked_add(amount_in) {
        Some(v) => v,
        None => {
            return Err(CpammError::Overflow);
        },
    };
    let new_out = reserve_out - amount_out;
    if swap_a_to_b {
        pool.reserve_a = new_in;
        pool.reserve_b = new_out;
    } else {
        pool.reserve_b = new_in;
        pool.reserve_a = new_out;
    }
    Ok(amount_out)
}

} // verus!
