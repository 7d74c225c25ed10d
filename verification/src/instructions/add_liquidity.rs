//! Add liquidity to an existing pool.
//!
//! The provider offers up to `desired_a` and `desired_b`; the amounts actually
//! deposited keep the pool's ratio, and LP tokens are minted in proportion.

use vstd::prelude::*;
use crate::errors::CpammError;
use crate::state::{Pool, spec_compute_lp_tokens_for_add, spec_optimal_amounts};

verus! {

/// The outcome of adding liquidity: the pool afterwards and the deposit
/// `(amount_a, amount_b, lp_amount)`, or the first check that refuses it.
pub open spec fn spec_add_liquidity(
    pool: Pool,
    desired_a: u64,
    desired_b: u64,
    min_lp_out: u64,
) -> Result<(Pool, (u64, u64, u64)), CpammError> {
    if !pool.is_active {
        Err(CpammError::PoolInactive)
    } else if desired_a == 0 || desired_b == 0 {
        Err(CpammError::ZeroAmount)
    } else {
        let (amount_a, amount_b) = spec_optimal_amounts(
            desired_a,
            desired_b,
            pool.reserve_a,
            pool.reserve_b,
        );
        if amount_a == 0 || amount_b == 0 {
            Err(CpammError::ZeroAmount)
        } else {
            match spec_compute_lp_tokens_for_add(
                amount_a,
                amount_b,
                pool.reserve_a,
                pool.reserve_b,
                pool.total_lp_supply,
            ) {
                None => Err(CpammError::LpCalculationError),
                Some(lp_amount) => {
                    if lp_amount < min_lp_out {
                        Err(CpammError::SlippageExceeded)
                    } else if pool.reserve_a + amount_a > u64::MAX || pool.reserve_b + amount_b
                        > u64::MAX || pool.total_lp_supply + lp_amount > u64::MAX {
                        Err(CpammError::Overflow)
                    } else {
                        Ok(
                            (
                                Pool {
                                    reserve_a: (pool.reserve_a + amount_a) as u64,
                                    reserve_b: (pool.reserve_b + amount_b) as u64,
                                    total_lp_supply: (pool.total_lp_supply + lp_amount) as u64,
                                    ..pool
                                },
                                (amount_a, amount_b, lp_amount),
                            ),
                        )
                    }
                },
            }
        }
    }
}

/// Add liquidity: returns `(amount_a, amount_b, lp_amount)`, the amounts the
/// provider deposits and the LP tokens minted to them, and updates the
/// reserves and the LP supply. On an error the pool is left as it was.
pub fn handler(pool: &mut Pool, desired_a: u64, desired_b: u64, min_lp_out: u64) -> (result: Result<
    (u64, u64, u64),
    CpammError,
>)
    ensures
        match spec_add_liquidity(*old(pool), desired_a, desired_b, min_lp_out) {
            Ok((next, deposit)) => result == Ok::<(u64, u64, u64), CpammError>(deposit)
                && *final(pool) == next,
            Err(e) => result == Err::<(u64, u64, u64), CpammError>(e) && *final(pool) == *old(pool),
        },
{
    if !pool.is_active {
        return Err(CpammError::PoolInactive);
    }
    if !(desired_a > 0 && desired_b > 0) {
        return Err(CpammError::ZeroAmount);
    }

    // Compute optimal amounts based on current pool ratio
    let (amount_a, amount_b) = match Pool::optimal_amounts(
        desired_a,
        desired_b,
        pool.reserve_a,
        pool.reserve_b,
    ) {
        Some(amounts) => amounts,
        None => {
            return Err(CpammError::LpCalculationError);
        },
    };
    if !(amount_a > 0 && amount_b > 0) {
        return Err(CpammError::ZeroAmount);
    }

    // Compute LP tokens to mint
    let lp_amount = match Pool::compute_lp_tokens_for_add(
        amount_a,
        amount_b,
        pool.reserve_a,
        pool.reserve_b,
        pool.total_lp_supply,
    ) {
        Some(lp) => lp,
        None => {
            return Err(CpammError::LpCalculationError);
        },
    };
    if lp_amount < min_lp_out {
        return Err(CpammError::SlippageExceeded);
    }

    // Update pool reserves
    let reserve_a = match pool.reserve_a.checked_add(amount_a) {
        Some(v) => v,
        None => {
            return Err(CpammError::Overflow);
        },
    };
    let reserve_b = match pool.reserve_b.checked_add(amount_b) {
        Some(v) => v,
        None => {
            return Err(CpammError::Overflow);
        },
    };
    let total_lp_supply = match pool.total_lp_supply.checked_add(lp_amount) {
        Some(v) => v,
        None => {
            return Err(CpammError::Overflow);
        },
    };
    pool.reserve_a = reserve_a;
    pool.reserve_b = reserve_b;
    pool.total_lp_supply = total_lp_supply;
    Ok((amount_a, amount_b, lp_amount))
}

} // verus!
