//! Initialize a new pool with initial liquidity.

use vstd::prelude::*;
use crate::errors::CpammError;
use crate::state::{Pool, Pubkey, sort_mints, spec_compute_lp_tokens_for_add, spec_sort_mints};

verus! {

/// The outcome of creating a pool: the new pool and the LP tokens minted to
/// the creator, or the first check that refuses it.
pub open spec fn spec_initialize(
    token_a_mint: Pubkey,
    token_b_mint: Pubkey,
    vault_a: Pubkey,
    vault_b: Pubkey,
    lp_mint: Pubkey,
    amount_a: u64,
    amount_b: u64,
    fee_numerator: u64,
    fee_denominator: u64,
    bump: u8,
) -> Result<(Pool, u64), CpammError> {
    let (token_a, token_b) = spec_sort_mints(token_a_mint, token_b_mint);
    if !(token_a@ == token_a_mint@ && token_b@ == token_b_mint@) {
        Err(CpammError::UnsortedMints)
    } else if amount_a == 0 || amount_b == 0 {
        Err(CpammError::ZeroAmount)
    } else if !(fee_numerator < fee_denominator && fee_denominator > 0) {
        Err(CpammError::Overflow)
    } else {
        match spec_compute_lp_tokens_for_add(amount_a, amount_b, 0, 0, 0) {
            None => Err(CpammError::LpCalculationError),
            Some(lp_amount) => Ok(
                (
                    Pool {
                        token_a_mint: token_a,
                        token_b_mint: token_b,
                        vault_a,
                        vault_b,
                        lp_mint,
                        reserve_a: amount_a,
                        reserve_b: amount_b,
                        fee_numerator,
                        fee_denominator,
                        total_lp_supply: lp_amount,
                        is_active: true,
                        bump,
                    },
                    lp_amount,
                ),
            ),
        }
    }
}

/// Create a pool holding `amount_a` and `amount_b` of initial liquidity.
///
/// The token mints must be given in sorted order (lowest key first). The pool
/// fee is `fee_numerator / fee_denominator` (e.g. 30/10000 = 0.3%), which must
/// be below 100%. Returns the new pool and the LP tokens minted to the creator,
/// `sqrt(amount_a * amount_b)`.
pub fn handler(
    token_a_mint: &Pubkey,
    token_b_mint: &Pubkey,
    vault_a: &Pubkey,
    vault_b: &Pubkey,
    lp_mint: &Pubkey,
    amount_a: u64,
    amount_b: u64,
    fee_numerator: u64,
    fee_denominator: u64,
    bump: u8,
) -> (result: Result<(Pool, u64), CpammError>)
    ensures
        result == spec_initialize(
            *token_a_mint,
            *token_b_mint,
            *vault_a,
            *vault_b,
            *lp_mint,
            amount_a,
            amount_b,
            fee_numerator,
            fee_denominator,
            bump,
        ),
{
    let (token_a, token_b) = sort_mints(token_a_mint, token_b_mint);

    // Validate sorted mints
    if !(token_a == *token_a_mint && token_b == *token_b_mint) {
        return Err(CpammError::UnsortedMints);
    }
    if !(amount_a > 0 && amount_b > 0) {
        return Err(CpammError::ZeroAmount);
    }
    if !(fee_numerator < fee_denominator && fee_denominator > 0) {
        return Err(CpammError::Overflow);
    }

    // Initial LP tokens: sqrt(amount_a * amount_b)
    let lp_amount = match Pool::compute_lp_tokens_for_add(amount_a, amount_b, 0, 0, 0) {
        Some(lp) => lp,
        None => {
            return Err(CpammError::LpCalculationError);
        },
    };
    let pool = Pool {
        token_a_mint: token_a,
        token_b_mint: token_b,
        vault_a: *vault_a,
        vault_b: *vault_b,
        lp_mint: *lp_mint,
        reserve_a: amount_a,
        reserve_b: amount_b,
        fee_numerator,
        fee_denominator,
        total_lp_supply: lp_amount,
        is_active: true,
        bump,
    };
    Ok((pool, lp_amount))
}

} // verus!
