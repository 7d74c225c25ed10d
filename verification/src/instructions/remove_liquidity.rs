//! Remove liquidity from the pool.
//!
//! The provider burns LP tokens and receives a proportional share of both
//! token reserves; burning the last LP tokens deactivates the pool.

use vstd::prelude::*;
use crate::errors::CpammError;
use crate::state::{Pool, spec_compute_remove_amounts};

verus! {

/// The outcome of removing liquidity: the pool afterwards and the withdrawal
/// `(amount_a, amount_b)`, or the first check that refuses it.
/// `provider_lp_balance` is the provider's LP token balance.
pub open spec fn spec_remove_liquidity(pool: Pool, lp_amount: u64, provider_lp_balance: u64) -> Result<
    (Pool, (u64, u64)),
    CpammError,
> {
    if !pool.is_active {
        Err(CpammError::PoolInactive)
    } else if lp_amount == 0 {
        Err(CpammError::ZeroAmount)
    } else if provider_lp_balance < lp_amount {
        Err(CpammError::InsufficientLpTokens)
    } else {
        match spec_compute_remove_amounts(
            lp_amount,
            pool.reserve_a,
            pool.reserve_b,
            pool.total_lp_supply,
        ) {
            None => Err(CpammError::LpCalculationError),
            Some((amount_a, amount_b)) => {
                if amount_a == 0 || amount_b == 0 {
                    Err(CpammError::ZeroAmount)
                } else if amount_a > pool.reserve_a || amount_b > pool.reserve_b {
                    Err(CpammError::InsufficientReserves)
                } else if lp_amount > pool.total_lp_supply {
                    Err(CpammError::Overflow)
                } else {
                    let supply = (pool.total_lp_supply - lp_amount) as u64;
                    Ok(
                        (
                            Pool {
                                reserve_a: (pool.reserve_a - amount_a) as u64,
                                reserve_b: (pool.reserve_b - amount_b) as u64,
                                total_lp_supply: supply,
                                is_active: supply != 0,
                                ..pool
                            },
                            (amount_a, amount_b),
                        ),
                    )
                }
            },
        }
    }
}

/// Remove liquidity: returns `(amount_a, amount_b)`, the amounts paid out to
/// the provider for burning `lp_amount` LP tokens, and updates the reserves and
/// the LP supply, marking the pool inactive once no LP tokens remain. On an
/// error the pool is left as it was.
pub fn handler(pool: &mut Pool, lp_amount: u64, provider_lp_balance: u64) -> (result: Result<
    (u64, u64),
    CpammError,
>)
    ensures
        match spec_remove_liquidity(*old(pool), lp_amount, provider_lp_balance) {
            Ok((next, withdrawal)) => result == Ok::<(u64, u64), CpammError>(withdrawal)
                && *final(pool) == next,
            Err(e) => result == Err::<(u64, u64), CpammError>(e) && *final(pool) == *old(pool),
        },
{
    if !pool.is_active {
        return Err(CpammError::PoolInactive);
    }
    if lp_amount == 0 {
        return Err(CpammError::ZeroAmount);
    }
    if provider_lp_balance < lp_amount {
        return Err(CpammError::InsufficientLpTokens);
    }

    // Compute amounts to withdraw
    let (amount_a, amount_b) = match Pool::compute_remove_amounts(
        lp_amount,
        pool.reserve_a,
        pool.reserve_b,
        pool.total_lp_supply,
    ) {
        Some(amounts) => amounts,
        None => {
            return Err(CpammError::LpCalculationError);
        },
    };
    if !(amount_a > 0 && amount_b > 0) {
        return Err(CpammError::ZeroAmount);
    }
    if !(amount_a <= pool.reserve_a && amount_b <= pool.reserve_b) {
        return Err(CpammError::InsufficientReserves);
    }

    // Update pool state
    let total_lp_supply = match pool.total_lp_supply.checked_sub(lp_amount) {
        Some(v) => v,
        None => {
            return Err(CpammError::Overflow);
        },
    };
    pool.reserve_a = pool.reserve_a - amount_a;
    pool.reserve_b = pool.reserve_b - amount_b;
    pool.total_lp_supply = total_lp_supply;

    // If all liquidity removed, mark pool inactive
    if pool.total_lp_supply == 0 {
        pool.is_active = false;
    }
    Ok((amount_a, amount_b))
}

} // verus!
