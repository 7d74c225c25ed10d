//! Properties of the pool arithmetic and of the pool instructions, stated over
//! the specifications that the functions' contracts use.

use vstd::prelude::*;
use crate::arith::{
    is_isqrt,
    lemma_div_bounds,
    lemma_div_lt_iff,
    lemma_le_div_iff,
};
use crate::state::{
    Pool,
    Pubkey,
    key_le,
    spec_sort_mints,
    spec_compute_lp_tokens_for_add,
    spec_compute_remove_amounts,
    spec_compute_swap_out,
    spec_optimal_amounts,
    swap_fee,
    spec_compute_swap_in,
    swap_in_numerator,
    swap_in_denominator,
};
use crate::instructions::add_liquidity::spec_add_liquidity;
use crate::instructions::initialize::spec_initialize;
use crate::instructions::remove_liquidity::spec_remove_liquidity;
use crate::instructions::swap::{spec_swap, swap_reserves};
use crate::arith::{spec_isqrt, lemma_spec_isqrt};
use vstd::arithmetic::div_mod::{lemma_fundamental_div_mod, lemma_mod_pos_bound};

verus! {

/// `q = n / d` satisfies `q * d <= n`.
proof fn lemma_quotient_times_divisor(n: int, d: int)
    requires
        0 <= n,
        0 < d,
    ensures
        (n / d) * d <= n,
        0 <= n / d,
{
    lemma_div_bounds(n, d);
    assert((n / d) * d == d * (n / d)) by (nonlinear_arith);
}

/// Burning LP tokens never pays out more than their share of the reserves:
/// each amount times the supply is at most `lp_amount` times the reserve, so
/// burning at most the whole supply never asks for more than the reserves.
pub proof fn lemma_remove_amounts_within_share(
    lp_amount: u64,
    reserve_a: u64,
    reserve_b: u64,
    total_supply: u64,
)
    requires
        spec_compute_remove_amounts(lp_amount, reserve_a, reserve_b, total_supply) is Some,
    ensures
        ({
            let (amount_a, amount_b) = spec_compute_remove_amounts(
                lp_amount,
                reserve_a,
                reserve_b,
                total_supply,
            ).unwrap();
            &&& amount_a * total_supply <= lp_amount * reserve_a
            &&& amount_b * total_supply <= lp_amount * reserve_b
            &&& lp_amount <= total_supply ==> amount_a <= reserve_a && amount_b <= reserve_b
            &&& lp_amount == total_supply ==> amount_a == reserve_a && amount_b == reserve_b
        }),
{
    lemma_remove_amount_within_share(lp_amount, reserve_a, total_supply);
    lemma_remove_amount_within_share(lp_amount, reserve_b, total_supply);
}

/// One token's side of `lemma_remove_amounts_within_share`.
proof fn lemma_remove_amount_within_share(lp_amount: u64, reserve: u64, total_supply: u64)
    requires
        total_supply > 0,
    ensures
        (lp_amount * reserve / (total_supply as int)) * total_supply <= lp_amount * reserve,
        lp_amount <= total_supply ==> lp_amount * reserve / (total_supply as int) <= reserve,
        lp_amount == total_supply ==> lp_amount * reserve / (total_supply as int) == reserve,
{
    let n = lp_amount * reserve;
    let q = n / (total_supply as int);
    lemma_quotient_times_divisor(n, total_supply as int);
    if lp_amount <= total_supply {
        // q <= reserve because q * total_supply <= lp_amount * reserve <= total_supply * reserve
        assert(q <= reserve) by (nonlinear_arith)
            requires
                q * total_supply <= lp_amount * reserve,
                lp_amount <= total_supply,
                total_supply > 0,
                reserve >= 0,
        {
            assert(lp_amount * reserve <= total_supply * reserve);
        }
    }
    if lp_amount == total_supply {
        assert(n == reserve * total_supply) by (nonlinear_arith)
            requires
                n == lp_amount * reserve,
                lp_amount == total_supply,
        ;
        lemma_le_div_iff(n, total_supply as int, reserve as int);
    }
}

/// LP tokens minted into a funded pool never dilute the existing providers:
/// the minted amount times each reserve is at most the deposit of that token
/// times the current supply.
pub proof fn lemma_lp_for_add_never_dilutes(
    amount_a: u64,
    amount_b: u64,
    reserve_a: u64,
    reserve_b: u64,
    total_supply: u64,
)
    requires
        total_supply > 0,
        spec_compute_lp_tokens_for_add(amount_a, amount_b, reserve_a, reserve_b, total_supply) is Some,
    ensures
        ({
            let lp = spec_compute_lp_tokens_for_add(
                amount_a,
                amount_b,
                reserve_a,
                reserve_b,
                total_supply,
            ).unwrap();
            &&& lp * reserve_a <= amount_a * total_supply
            &&& lp * reserve_b <= amount_b * total_supply
        }),
{
    let share_a = amount_a * total_supply / (reserve_a as int);
    let share_b = amount_b * total_supply / (reserve_b as int);
    let smaller = if share_a <= share_b {
        share_a
    } else {
        share_b
    };
    lemma_quotient_times_divisor(amount_a * total_supply, reserve_a as int);
    lemma_quotient_times_divisor(amount_b * total_supply, reserve_b as int);
    let lp = smaller;
    assert(lp * reserve_a <= share_a * reserve_a && lp * reserve_b <= share_b * reserve_b)
        by (nonlinear_arith)
        requires
            0 <= lp <= smaller,
            smaller <= share_a,
            smaller <= share_b,
            reserve_a >= 0,
            reserve_b >= 0,
    {
        assert(lp * reserve_a <= smaller * reserve_a);
        assert(smaller * reserve_a <= share_a * reserve_a);
        assert(lp * reserve_b <= smaller * reserve_b);
        assert(smaller * reserve_b <= share_b * reserve_b);
    }
}

/// A swap quote is the exact rounded-down constant-product output for the
/// input after its fee, always less than the output reserve, and it never
/// decreases the product of the reserves once the whole input joins the pool:
/// `(reserve_in + amount_in) * (reserve_out - out) >= reserve_in * reserve_out`.
pub proof fn lemma_swap_out_keeps_product(
    amount_in: u64,
    reserve_in: u64,
    reserve_out: u64,
    fee_num: u64,
    fee_denom: u64,
)
    requires
        spec_compute_swap_out(amount_in, reserve_in, reserve_out, fee_num, fee_denom) is Some,
    ensures
        ({
            let out = spec_compute_swap_out(
                amount_in,
                reserve_in,
                reserve_out,
                fee_num,
                fee_denom,
            ).unwrap();
            let after = amount_in - swap_fee(amount_in as int, fee_num as int, fee_denom as int);
            &&& 0 <= after <= amount_in
            &&& out == after * reserve_out / (reserve_in + after)
            &&& out < reserve_out
            &&& (reserve_in + amount_in) * (reserve_out - out) >= reserve_in * reserve_out
        }),
{
    let fee = swap_fee(amount_in as int, fee_num as int, fee_denom as int);
    lemma_div_bounds(amount_in * fee_num, fee_denom as int);
    let after = amount_in - fee;
    let n = after * reserve_out;
    let d = reserve_in + after;
    assert(n >= 0) by (nonlinear_arith)
        requires
            n == after * reserve_out,
            after >= 0,
            reserve_out >= 0,
    ;
    lemma_quotient_times_divisor(n, d);
    let q = n / d;
    assert(n < d * reserve_out) by (nonlinear_arith)
        requires
            n == after * reserve_out,
            d == reserve_in + after,
            reserve_in >= 1,
            reserve_out >= 1,
    ;
    lemma_div_lt_iff(n, d, reserve_out as int);
    assert((reserve_in + amount_in) * (reserve_out - q) >= reserve_in * reserve_out)
        by (nonlinear_arith)
        requires
            q * d <= n,
            n == after * reserve_out,
            d == reserve_in + after,
            0 <= after <= amount_in,
            0 <= q < reserve_out,
            reserve_in >= 0,
    {
        assert((reserve_in + amount_in) * (reserve_out - q) >= d * (reserve_out - q));
    }
}

/// Quoting the input for a desired output and then swapping that input
/// delivers at least the desired output. The quote is the exact input rounded
/// up: it covers the exact amount and exceeds it by less than one unit.
pub proof fn lemma_swap_in_then_out(
    desired_out: u64,
    reserve_in: u64,
    reserve_out: u64,
    fee_num: u64,
    fee_denom: u64,
)
    requires
        spec_compute_swap_in(desired_out, reserve_in, reserve_out, fee_num, fee_denom) is Some,
    ensures
        ({
            let amount_in = spec_compute_swap_in(
                desired_out,
                reserve_in,
                reserve_out,
                fee_num,
                fee_denom,
            ).unwrap();
            let num = swap_in_numerator(desired_out, reserve_in, fee_denom);
            let den = swap_in_denominator(desired_out, reserve_out, fee_num, fee_denom);
            &&& amount_in * den >= num
            &&& (amount_in - 1) * den < num
            &&& spec_compute_swap_out(amount_in, reserve_in, reserve_out, fee_num, fee_denom) matches Some(
                out,
            ) && out >= desired_out
        }),
{
    let num = swap_in_numerator(desired_out, reserve_in, fee_denom);
    let den = swap_in_denominator(desired_out, reserve_out, fee_num, fee_denom);
    assert(num > 0 && den > 0) by (nonlinear_arith)
        requires
            num == desired_out * reserve_in * fee_denom,
            den == (reserve_out - desired_out) * (fee_denom - fee_num),
            desired_out >= 1,
            reserve_in >= 1,
            fee_denom > fee_num,
            fee_num >= 0,
            reserve_out > desired_out,
    ;
    lemma_fundamental_div_mod(num, den);
    lemma_mod_pos_bound(num, den);
    lemma_div_bounds(num, den);
    let q = num / den;
    let r = num % den;
    let amount_in = spec_compute_swap_in(desired_out, reserve_in, reserve_out, fee_num, fee_denom).unwrap();
    assert(amount_in == q + if r > 0 { 1int } else { 0int });
    assert(amount_in * den >= num && (amount_in - 1) * den < num && amount_in >= 1) by (nonlinear_arith)
        requires
            num == den * q + r,
            0 <= r < den,
            num > 0,
            q >= 0,
            amount_in == q + if r > 0 { 1int } else { 0int },
    ;
    // the fee never exceeds the input
    let fee = swap_fee(amount_in as int, fee_num as int, fee_denom as int);
    lemma_quotient_times_divisor(amount_in * fee_num, fee_denom as int);
    assert(fee <= amount_in && fee * fee_denom <= amount_in * fee_num) by (nonlinear_arith)
        requires
            fee * fee_denom <= amount_in * fee_num,
            fee_num < fee_denom,
            amount_in >= 0,
            fee >= 0,
    {
        assert(amount_in * fee_num <= amount_in * fee_denom);
    }
    let after = amount_in - fee;
    // after * (reserve_out - desired_out) >= desired_out * reserve_in
    assert(after * (reserve_out - desired_out) >= desired_out * reserve_in) by (nonlinear_arith)
        requires
            after == amount_in - fee,
            fee * fee_denom <= amount_in * fee_num,
            amount_in * den >= num,
            num == desired_out * reserve_in * fee_denom,
            den == (reserve_out - desired_out) * (fee_denom - fee_num),
            reserve_out > desired_out,
            fee_denom > 0,
    {
        assert(after * fee_denom >= amount_in * (fee_denom - fee_num));
        assert(after * fee_denom * (reserve_out - desired_out) >= amount_in * (fee_denom - fee_num)
            * (reserve_out - desired_out));
        assert(after * (reserve_out - desired_out) * fee_denom >= desired_out * reserve_in
            * fee_denom);
    }
    let d = reserve_in + after;
    assert(d * desired_out <= after * reserve_out) by (nonlinear_arith)
        requires
            after * (reserve_out - desired_out) >= desired_out * reserve_in,
            d == reserve_in + after,
    ;
    lemma_le_div_iff(after * reserve_out, d, desired_out as int);
    lemma_swap_out_keeps_product(amount_in, reserve_in, reserve_out, fee_num, fee_denom);
}

/// In a funded pool the deposit keeps the pool's ratio and stays within what
/// the provider offered: either all of `desired_a` with its rounded-down
/// counterpart `desired_a * reserve_b / reserve_a <= desired_b`, or all of
/// `desired_b` with `desired_b * reserve_a / reserve_b <= desired_a`.
pub proof fn lemma_optimal_amounts_within_desired(
    desired_a: u64,
    desired_b: u64,
    reserve_a: u64,
    reserve_b: u64,
)
    requires
        reserve_a > 0,
        reserve_b > 0,
    ensures
        ({
            let (amount_a, amount_b) = spec_optimal_amounts(desired_a, desired_b, reserve_a, reserve_b);
            let optimal_b = desired_a * reserve_b / (reserve_a as int);
            let optimal_a = desired_b * reserve_a / (reserve_b as int);
            &&& amount_a <= desired_a
            &&& amount_b <= desired_b
            &&& optimal_b <= desired_b ==> amount_a == desired_a && amount_b == optimal_b
            &&& optimal_b > desired_b ==> amount_a == optimal_a && amount_b == desired_b
        }),
{
    let ob = desired_a * reserve_b / (reserve_a as int);
    lemma_div_bounds(desired_a * reserve_b, reserve_a as int);
    if ob > desired_b {
        let oa = desired_b * reserve_a / (reserve_b as int);
        lemma_div_bounds(desired_b * reserve_a, reserve_b as int);
        // ob >= desired_b + 1 gives desired_a * reserve_b >= (desired_b + 1) * reserve_a
        lemma_le_div_iff(desired_a * reserve_b, reserve_a as int, desired_b + 1);
        assert(desired_b * reserve_a < reserve_b * desired_a) by (nonlinear_arith)
            requires
                reserve_a * (desired_b + 1) <= desired_a * reserve_b,
                reserve_a > 0,
        ;
        lemma_div_lt_iff(desired_b * reserve_a, reserve_b as int, desired_a as int);
    }
}

/// Two byte strings of equal length that agree below `i` either agree
/// everywhere or one comes strictly first in lexicographic order.
proof fn lemma_key_le_total_from(a: Seq<u8>, b: Seq<u8>, i: int)
    requires
        a.len() == b.len(),
        0 <= i <= a.len(),
        forall|j: int| 0 <= j < i ==> #[trigger] a[j] == b[j],
    ensures
        key_le(a, b) || key_le(b, a),
    decreases a.len() - i,
{
    if i == a.len() {
        assert(a =~= b);
    } else if a[i] == b[i] {
        lemma_key_le_total_from(a, b, i + 1);
    } else if a[i] < b[i] {
        assert(key_le(a, b));
    } else {
        assert(forall|j: int| 0 <= j < i ==> #[trigger] b[j] == a[j]);
        assert(key_le(b, a));
    }
}

/// Lexicographic order on equal-length byte strings is total and antisymmetric.
pub proof fn lemma_key_le_total_order(a: Seq<u8>, b: Seq<u8>)
    requires
        a.len() == b.len(),
    ensures
        key_le(a, b) || key_le(b, a),
        key_le(a, b) && key_le(b, a) ==> a == b,
{
    lemma_key_le_total_from(a, b, 0);
    if key_le(a, b) && key_le(b, a) && a != b {
        let i = choose|i: int|
            0 <= i < a.len() && i < b.len() && a[i] < b[i] && (forall|j: int|
                0 <= j < i ==> #[trigger] a[j] == b[j]);
        let k = choose|k: int|
            0 <= k < b.len() && k < a.len() && b[k] < a[k] && (forall|j: int|
                0 <= j < k ==> #[trigger] b[j] == a[j]);
        if i < k {
            assert(b[i] == a[i]);
        } else if k < i {
            assert(a[k] == b[k]);
        }
    }
}

/// Sorting two mints does not depend on the order they are given in, so
/// `pool(tA, tB)` and `pool(tB, tA)` are derived from the same pair; the pair
/// comes out in lexicographic order and holds exactly the two given keys.
pub proof fn lemma_sort_mints_order_independent(a: Pubkey, b: Pubkey)
    ensures
        spec_sort_mints(a, b) == spec_sort_mints(b, a),
        key_le(spec_sort_mints(a, b).0@, spec_sort_mints(a, b).1@),
        (spec_sort_mints(a, b) == (a, b)) || (spec_sort_mints(a, b) == (b, a)),
{
    lemma_key_le_total_order(a@, b@);
    if key_le(a@, b@) && key_le(b@, a@) {
        assert(a.bytes =~= b.bytes) by {
            assert forall|i: int| 0 <= i < 32 implies a.bytes[i] == b.bytes[i] by {
                assert(a@[i] == b@[i]);
            }
        }
    }
}

/// A newly created pool satisfies the pool invariant, holds exactly the
/// initial deposit, and has `isqrt(amount_a * amount_b) >= 1` LP tokens in
/// circulation, all minted to the creator.
pub proof fn lemma_initialize_establishes_invariant(
    token_a_mint: Pubkey,
    token_b_mint: Pubkey,
    vault_a: Pubkey,
    vault_b: Pubkey,
    lp_mint: Pubkey,
    amount_a: u64,
    amount_b: u64,
    fee_numerator: u64,
    fee_denominator: u64,
    bump: u8,
)
    requires
        spec_initialize(
            token_a_mint,
            token_b_mint,
            vault_a,
            vault_b,
            lp_mint,
            amount_a,
            amount_b,
            fee_numerator,
            fee_denominator,
            bump,
        ) is Ok,
    ensures
        ({
            let (pool, lp_amount) = spec_initialize(
                token_a_mint,
                token_b_mint,
                vault_a,
                vault_b,
                lp_mint,
                amount_a,
                amount_b,
                fee_numerator,
                fee_denominator,
                bump,
            ).unwrap();
            &&& pool.wf()
            &&& pool.reserve_a == amount_a && pool.reserve_b == amount_b
            &&& pool.total_lp_supply == lp_amount
            &&& lp_amount >= 1
            &&& is_isqrt(lp_amount as int, amount_a * amount_b)
        }),
{
    let n = amount_a * amount_b;
    assert(1 <= n < 0x1_0000_0000_0000_0000 * 0x1_0000_0000_0000_0000) by (nonlinear_arith)
        requires
            n == amount_a * amount_b,
            1 <= amount_a <= u64::MAX,
            1 <= amount_b <= u64::MAX,
    {
        assert(amount_a * amount_b <= u64::MAX * amount_b);
        assert(u64::MAX * amount_b <= u64::MAX * u64::MAX);
    }
    lemma_spec_isqrt(n);
    let r = spec_isqrt(n);
    assert(1 <= r < 0x1_0000_0000_0000_0000) by (nonlinear_arith)
        requires
            is_isqrt(r, n),
            1 <= n < 0x1_0000_0000_0000_0000 * 0x1_0000_0000_0000_0000,
    {
        if r >= 0x1_0000_0000_0000_0000 {
            assert(r * r >= 0x1_0000_0000_0000_0000 * 0x1_0000_0000_0000_0000);
        }
    }
}

/// A swap keeps the pool invariant and the LP supply, and never decreases
/// the product `reserve_a * reserve_b`: the fee stays in the pool.
pub proof fn lemma_swap_keeps_invariant_and_product(
    pool: Pool,
    amount_in: u64,
    min_amount_out: u64,
    swap_a_to_b: bool,
)
    requires
        pool.wf(),
        spec_swap(pool, amount_in, min_amount_out, swap_a_to_b) is Ok,
    ensures
        ({
            let (next, amount_out) = spec_swap(pool, amount_in, min_amount_out, swap_a_to_b).unwrap();
            &&& next.wf()
            &&& next.total_lp_supply == pool.total_lp_supply
            &&& next.reserve_a * next.reserve_b >= pool.reserve_a * pool.reserve_b
        }),
{
    let (reserve_in, reserve_out) = swap_reserves(pool, swap_a_to_b);
    lemma_swap_out_keeps_product(
        amount_in,
        reserve_in,
        reserve_out,
        pool.fee_numerator,
        pool.fee_denominator,
    );
    let (next, amount_out) = spec_swap(pool, amount_in, min_amount_out, swap_a_to_b).unwrap();
    if !swap_a_to_b {
        assert(next.reserve_a * next.reserve_b == next.reserve_b * next.reserve_a)
            by (nonlinear_arith);
        assert(pool.reserve_a * pool.reserve_b == pool.reserve_b * pool.reserve_a)
            by (nonlinear_arith);
    }
}

/// Adding liquidity keeps the pool invariant and never lowers the reserves
/// backing each LP token: `reserve_after * supply_before >= reserve_before * supply_after`
/// for both tokens.
pub proof fn lemma_add_liquidity_keeps_invariant_and_share(
    pool: Pool,
    desired_a: u64,
    desired_b: u64,
    min_lp_out: u64,
)
    requires
        pool.wf(),
        spec_add_liquidity(pool, desired_a, desired_b, min_lp_out) is Ok,
    ensures
        ({
            let (next, deposit) = spec_add_liquidity(pool, desired_a, desired_b, min_lp_out).unwrap();
            &&& next.wf()
            &&& next.reserve_a * pool.total_lp_supply >= pool.reserve_a * next.total_lp_supply
            &&& next.reserve_b * pool.total_lp_supply >= pool.reserve_b * next.total_lp_supply
        }),
{
    let (next, deposit) = spec_add_liquidity(pool, desired_a, desired_b, min_lp_out).unwrap();
    let (amount_a, amount_b, lp) = deposit;
    lemma_lp_for_add_never_dilutes(
        amount_a,
        amount_b,
        pool.reserve_a,
        pool.reserve_b,
        pool.total_lp_supply,
    );
    assert(next.reserve_a * pool.total_lp_supply >= pool.reserve_a * next.total_lp_supply
        && next.reserve_b * pool.total_lp_supply >= pool.reserve_b * next.total_lp_supply)
        by (nonlinear_arith)
        requires
            next.reserve_a == pool.reserve_a + amount_a,
            next.reserve_b == pool.reserve_b + amount_b,
            next.total_lp_supply == pool.total_lp_supply + lp,
            lp * pool.reserve_a <= amount_a * pool.total_lp_supply,
            lp * pool.reserve_b <= amount_b * pool.total_lp_supply,
    ;
}

/// Removing liquidity keeps the pool invariant (burning the last LP tokens
/// empties and deactivates the pool) and never lowers the reserves backing
/// each remaining LP token.
pub proof fn lemma_remove_liquidity_keeps_invariant_and_share(
    pool: Pool,
    lp_amount: u64,
    provider_lp_balance: u64,
)
    requires
        pool.wf(),
        spec_remove_liquidity(pool, lp_amount, provider_lp_balance) is Ok,
    ensures
        ({
            let (next, withdrawal) = spec_remove_liquidity(pool, lp_amount, provider_lp_balance).unwrap();
            &&& next.wf()
            &&& next.total_lp_supply == 0 ==> !next.is_active && next.reserve_a == 0
                && next.reserve_b == 0
            &&& next.reserve_a * pool.total_lp_supply >= pool.reserve_a * next.total_lp_supply
            &&& next.reserve_b * pool.total_lp_supply >= pool.reserve_b * next.total_lp_supply
        }),
{
    let (next, withdrawal) = spec_remove_liquidity(pool, lp_amount, provider_lp_balance).unwrap();
    let (amount_a, amount_b) = withdrawal;
    let ts = pool.total_lp_supply;
    lemma_remove_amounts_within_share(lp_amount, pool.reserve_a, pool.reserve_b, ts);
    assert(next.reserve_a * ts >= pool.reserve_a * next.total_lp_supply
        && next.reserve_b * ts >= pool.reserve_b * next.total_lp_supply) by (nonlinear_arith)
        requires
            next.reserve_a == pool.reserve_a - amount_a,
            next.reserve_b == pool.reserve_b - amount_b,
            next.total_lp_supply == ts - lp_amount,
            amount_a * ts <= lp_amount * pool.reserve_a,
            amount_b * ts <= lp_amount * pool.reserve_b,
    ;
    if lp_amount < ts {
        // a partial burn leaves both reserves funded
        assert(amount_a < pool.reserve_a && amount_b < pool.reserve_b) by (nonlinear_arith)
            requires
                amount_a * ts <= lp_amount * pool.reserve_a,
                amount_b * ts <= lp_amount * pool.reserve_b,
                lp_amount < ts,
                pool.reserve_a > 0,
                pool.reserve_b > 0,
        {
            assert(lp_amount * pool.reserve_a < ts * pool.reserve_a);
            assert(lp_amount * pool.reserve_b < ts * pool.reserve_b);
        }
    }
}

/// Adding liquidity and then burning the LP tokens it minted never returns
/// more of either token than was deposited.
pub proof fn lemma_add_then_remove_returns_at_most_deposit(
    pool: Pool,
    desired_a: u64,
    desired_b: u64,
    min_lp_out: u64,
)
    requires
        pool.wf(),
        spec_add_liquidity(pool, desired_a, desired_b, min_lp_out) is Ok,
    ensures
        ({
            let (next, deposit) = spec_add_liquidity(pool, desired_a, desired_b, min_lp_out).unwrap();
            let (amount_a, amount_b, lp_amount) = deposit;
            spec_remove_liquidity(next, lp_amount, lp_amount) matches Ok((after, withdrawal)) ==> {
                &&& withdrawal.0 <= amount_a
                &&& withdrawal.1 <= amount_b
            }
        }),
{
    let (next, deposit) = spec_add_liquidity(pool, desired_a, desired_b, min_lp_out).unwrap();
    let (amount_a, amount_b, lp) = deposit;
    lemma_lp_for_add_never_dilutes(
        amount_a,
        amount_b,
        pool.reserve_a,
        pool.reserve_b,
        pool.total_lp_supply,
    );
    if spec_remove_liquidity(next, lp, lp) is Ok {
        lemma_remove_amounts_within_share(lp, next.reserve_a, next.reserve_b, next.total_lp_supply);
        let (out_a, out_b) = spec_compute_remove_amounts(
            lp,
            next.reserve_a,
            next.reserve_b,
            next.total_lp_supply,
        ).unwrap();
        assert(out_a <= amount_a && out_b <= amount_b) by (nonlinear_arith)
            requires
                out_a * next.total_lp_supply <= lp * next.reserve_a,
                out_b * next.total_lp_supply <= lp * next.reserve_b,
                next.reserve_a == pool.reserve_a + amount_a,
                next.reserve_b == pool.reserve_b + amount_b,
                next.total_lp_supply == pool.total_lp_supply + lp,
                lp * pool.reserve_a <= amount_a * pool.total_lp_supply,
                lp * pool.reserve_b <= amount_b * pool.total_lp_supply,
                next.total_lp_supply > 0,
                out_a >= 0,
                out_b >= 0,
        {
            assert(out_a * next.total_lp_supply <= amount_a * next.total_lp_supply);
            assert(out_b * next.total_lp_supply <= amount_b * next.total_lp_supply);
        }
    }
}

/// A swap quote exists for every positive input into funded reserves with a
/// fee of at most 100%, and none exists for a zero amount or reserve or a zero
/// fee denominator. The quote is the constant-product output rounded down:
/// with `after` the input less its fee, `out * (reserve_in + after)` is at
/// most `after * reserve_out`, and `out + 1` would exceed it.
pub proof fn lemma_swap_out_total_and_rounded_down(
    amount_in: u64,
    reserve_in: u64,
    reserve_out: u64,
    fee_num: u64,
    fee_denom: u64,
)
    ensures
        amount_in == 0 || reserve_in == 0 || reserve_out == 0 || fee_denom == 0 ==> spec_compute_swap_out(
            amount_in,
            reserve_in,
            reserve_out,
            fee_num,
            fee_denom,
        ) is None,
        amount_in > 0 && reserve_in > 0 && reserve_out > 0 && 0 < fee_denom && fee_num <= fee_denom
            ==> spec_compute_swap_out(amount_in, reserve_in, reserve_out, fee_num, fee_denom) is Some,
        spec_compute_swap_out(amount_in, reserve_in, reserve_out, fee_num, fee_denom) matches Some(
            out,
        ) ==> ({
            let after = amount_in - amount_in * fee_num / (fee_denom as int);
            &&& 0 <= after <= amount_in
            &&& out * (reserve_in + after) <= after * reserve_out
            &&& after * reserve_out < (out + 1) * (reserve_in + after)
            &&& out < reserve_out
        }),
{
    if amount_in > 0 && reserve_in > 0 && reserve_out > 0 && 0 < fee_denom {
        let fee = swap_fee(amount_in as int, fee_num as int, fee_denom as int);
        lemma_quotient_times_divisor(amount_in * fee_num, fee_denom as int);
        if fee_num <= fee_denom {
            assert(fee <= amount_in) by (nonlinear_arith)
                requires
                    fee * fee_denom <= amount_in * fee_num,
                    fee_num <= fee_denom,
                    fee_denom > 0,
                    amount_in >= 0,
            {
                assert(amount_in * fee_num <= amount_in * fee_denom);
            }
        }
    }
    if spec_compute_swap_out(amount_in, reserve_in, reserve_out, fee_num, fee_denom) is Some {
        lemma_swap_out_keeps_product(amount_in, reserve_in, reserve_out, fee_num, fee_denom);
        let fee = swap_fee(amount_in as int, fee_num as int, fee_denom as int);
        let after = amount_in - fee;
        let n = after * reserve_out;
        let d = reserve_in + after;
        assert(n >= 0) by (nonlinear_arith)
            requires
                n == after * reserve_out,
                after >= 0,
                reserve_out >= 0,
        ;
        lemma_div_bounds(n, d);
        let q = n / d;
        assert(q * d <= n && n < (q + 1) * d) by (nonlinear_arith)
            requires
                d * q <= n,
                n < d * q + d,
        ;
    }
}

/// Exactly rounded-up input quotes: for a positive desired output below the
/// output reserve, a funded input reserve, a fee below 100% and a numerator
/// `desired_out * reserve_in * fee_denom` that fits in 128 bits, a quote
/// exists exactly when the exact input fits in 64 bits, and it is the least
/// `x` with `x * (reserve_out - desired_out) * (fee_denom - fee_num) >= desired_out * reserve_in * fee_denom`.
pub proof fn lemma_swap_in_total_and_rounded_up(
    desired_out: u64,
    reserve_in: u64,
    reserve_out: u64,
    fee_num: u64,
    fee_denom: u64,
)
    requires
        desired_out > 0,
        reserve_in > 0,
        reserve_out > desired_out,
        fee_num < fee_denom,
        desired_out * reserve_in * fee_denom <= u128::MAX,
    ensures
        ({
            let num = desired_out * reserve_in * fee_denom;
            let den = (reserve_out - desired_out) * (fee_denom - fee_num);
            &&& num <= u64::MAX * den ==> spec_compute_swap_in(
                desired_out,
                reserve_in,
                reserve_out,
                fee_num,
                fee_denom,
            ) is Some
            &&& num > u64::MAX * den ==> spec_compute_swap_in(
                desired_out,
                reserve_in,
                reserve_out,
                fee_num,
                fee_denom,
            ) is None
            &&& spec_compute_swap_in(desired_out, reserve_in, reserve_out, fee_num, fee_denom) matches Some(
                x,
            ) ==> x * den >= num && (x - 1) * den < num
        }),
{
    let num = swap_in_numerator(desired_out, reserve_in, fee_denom);
    let den = swap_in_denominator(desired_out, reserve_out, fee_num, fee_denom);
    assert(num > 0 && den > 0) by (nonlinear_arith)
        requires
            num == desired_out * reserve_in * fee_denom,
            den == (reserve_out - desired_out) * (fee_denom - fee_num),
            desired_out >= 1,
            reserve_in >= 1,
            fee_denom > fee_num,
            fee_num >= 0,
            reserve_out > desired_out,
    ;
    lemma_fundamental_div_mod(num, den);
    lemma_mod_pos_bound(num, den);
    lemma_div_bounds(num, den);
    let q = num / den;
    let r = num % den;
    let exact = q + if r > 0 {
        1int
    } else {
        0int
    };
    assert(exact * den >= num && (exact - 1) * den < num) by (nonlinear_arith)
        requires
            num == den * q + r,
            0 <= r < den,
            exact == q + if r > 0 { 1int } else { 0int },
    ;
    // the exact quote fits in 64 bits exactly when num <= u64::MAX * den
    assert((exact <= u64::MAX) == (num <= u64::MAX * den)) by (nonlinear_arith)
        requires
            exact * den >= num,
            (exact - 1) * den < num,
            den > 0,
    {
        if exact <= u64::MAX {
            assert(exact * den <= u64::MAX * den);
        } else {
            assert((exact - 1) * den >= u64::MAX * den);
        }
    }
}

/// LP tokens for a deposit into a funded pool: whenever both amounts, both
/// reserves and the supply are positive, the result is the smaller of the two
/// proportional shares `amount * total_supply / reserve` if that fits in 64
/// bits, and none otherwise. Any result is the largest amount that dilutes
/// neither side: `lp * reserve <= amount * total_supply` for both tokens, and
/// `lp + 1` would break this for one of them. A zero amount mints nothing;
/// the first provider receives the integer square root of the product.
pub proof fn lemma_lp_for_add_total_and_largest(
    amount_a: u64,
    amount_b: u64,
    reserve_a: u64,
    reserve_b: u64,
    total_supply: u64,
)
    ensures
        amount_a == 0 || amount_b == 0 ==> spec_compute_lp_tokens_for_add(
            amount_a,
            amount_b,
            reserve_a,
            reserve_b,
            total_supply,
        ) is None,
        amount_a > 0 && amount_b > 0 && total_supply == 0 ==> (spec_compute_lp_tokens_for_add(
            amount_a,
            amount_b,
            reserve_a,
            reserve_b,
            total_supply,
        ) matches Some(lp) && lp * lp <= amount_a * amount_b && amount_a * amount_b < (lp + 1) * (
        lp + 1)),
        amount_a > 0 && amount_b > 0 && reserve_a > 0 && reserve_b > 0 && total_supply > 0 ==> ({
            let share_a = amount_a * total_supply / (reserve_a as int);
            let share_b = amount_b * total_supply / (reserve_b as int);
            let smaller = if share_a <= share_b {
                share_a
            } else {
                share_b
            };
            &&& smaller <= u64::MAX ==> spec_compute_lp_tokens_for_add(
                amount_a,
                amount_b,
                reserve_a,
                reserve_b,
                total_supply,
            ) == Some(smaller as u64)
            &&& smaller > u64::MAX ==> spec_compute_lp_tokens_for_add(
                amount_a,
                amount_b,
                reserve_a,
                reserve_b,
                total_supply,
            ) is None
            &&& spec_compute_lp_tokens_for_add(
                amount_a,
                amount_b,
                reserve_a,
                reserve_b,
                total_supply,
            ) matches Some(lp) ==> {
                &&& lp * reserve_a <= amount_a * total_supply
                &&& lp * reserve_b <= amount_b * total_supply
                &&& (lp + 1) * reserve_a > amount_a * total_supply || (lp + 1) * reserve_b
                    > amount_b * total_supply
            }
        }),
{
    if amount_a > 0 && amount_b > 0 && total_supply == 0 {
        lemma_spec_isqrt(amount_a * amount_b);
        let r = spec_isqrt(amount_a * amount_b);
        assert(r < 0x1_0000_0000_0000_0000) by (nonlinear_arith)
            requires
                is_isqrt(r, amount_a * amount_b),
                amount_a <= u64::MAX,
                amount_b <= u64::MAX,
        {
            assert(amount_a * amount_b <= u64::MAX * u64::MAX) by {
                assert(amount_a * amount_b <= u64::MAX * amount_b);
                assert(u64::MAX * amount_b <= u64::MAX * u64::MAX);
            }
            if r >= 0x1_0000_0000_0000_0000 {
                assert(r * r >= 0x1_0000_0000_0000_0000 * 0x1_0000_0000_0000_0000);
            }
        }
    }
    if amount_a > 0 && amount_b > 0 && reserve_a > 0 && reserve_b > 0 && total_supply > 0 {
        let share_a = amount_a * total_supply / (reserve_a as int);
        let share_b = amount_b * total_supply / (reserve_b as int);
        lemma_div_bounds(amount_a * total_supply, reserve_a as int);
        lemma_div_bounds(amount_b * total_supply, reserve_b as int);
        if spec_compute_lp_tokens_for_add(amount_a, amount_b, reserve_a, reserve_b, total_supply) is Some {
            lemma_lp_for_add_never_dilutes(amount_a, amount_b, reserve_a, reserve_b, total_supply);
            let lp = spec_compute_lp_tokens_for_add(
                amount_a,
                amount_b,
                reserve_a,
                reserve_b,
                total_supply,
            ).unwrap();
            // lp + 1 exceeds the share it was taken from
            if share_a <= share_b {
                assert((lp + 1) * reserve_a > amount_a * total_supply) by (nonlinear_arith)
                    requires
                        lp == share_a,
                        amount_a * total_supply < reserve_a * share_a + reserve_a,
                ;
            } else {
                assert((lp + 1) * reserve_b > amount_b * total_supply) by (nonlinear_arith)
                    requires
                        lp == share_b,
                        amount_b * total_supply < reserve_b * share_b + reserve_b,
                ;
            }
        }
    }
}

/// Burning at most the whole supply always pays out: for
/// `0 < lp_amount <= total_supply` the result is the pair of rounded-down
/// proportional amounts `lp_amount * reserve / total_supply`, each at most its
/// reserve, and each the largest `x` with `x * total_supply <= lp_amount * reserve`.
pub proof fn lemma_remove_amounts_total(
    lp_amount: u64,
    reserve_a: u64,
    reserve_b: u64,
    total_supply: u64,
)
    requires
        0 < lp_amount <= total_supply,
    ensures
        spec_compute_remove_amounts(lp_amount, reserve_a, reserve_b, total_supply) matches Some(
            (amount_a, amount_b),
        ) && {
            &&& amount_a == lp_amount * reserve_a / (total_supply as int)
            &&& amount_b == lp_amount * reserve_b / (total_supply as int)
            &&& amount_a <= reserve_a && amount_b <= reserve_b
            &&& amount_a * total_supply <= lp_amount * reserve_a
            &&& lp_amount * reserve_a < (amount_a + 1) * total_supply
            &&& amount_b * total_supply <= lp_amount * reserve_b
            &&& lp_amount * reserve_b < (amount_b + 1) * total_supply
        },
{
    lemma_remove_amount_within_share(lp_amount, reserve_a, total_supply);
    lemma_remove_amount_within_share(lp_amount, reserve_b, total_supply);
    let qa = lp_amount * reserve_a / (total_supply as int);
    let qb = lp_amount * reserve_b / (total_supply as int);
    lemma_div_bounds(lp_amount * reserve_a, total_supply as int);
    lemma_div_bounds(lp_amount * reserve_b, total_supply as int);
    assert(lp_amount * reserve_a < (qa + 1) * total_supply && lp_amount * reserve_b < (qb + 1)
        * total_supply) by (nonlinear_arith)
        requires
            lp_amount * reserve_a < total_supply * qa + total_supply,
            lp_amount * reserve_b < total_supply * qb + total_supply,
    ;
}

/// What a swap does, in either direction: it succeeds exactly when the pool
/// is active, the input is positive, a quote exists, the quote is at least the
/// caller's minimum and the input reserve can hold the input. On success the
/// output is at least `min_amount_out` and below the output reserve, the
/// whole input joins the input reserve, the output leaves the output reserve,
/// and nothing else about the pool changes.
pub proof fn lemma_swap_outcome(pool: Pool, amount_in: u64, min_amount_out: u64, swap_a_to_b: bool)
    ensures
        ({
            let reserve_in = if swap_a_to_b {
                pool.reserve_a
            } else {
                pool.reserve_b
            };
            let reserve_out = if swap_a_to_b {
                pool.reserve_b
            } else {
                pool.reserve_a
            };
            let quote = spec_compute_swap_out(
                amount_in,
                reserve_in,
                reserve_out,
                pool.fee_numerator,
                pool.fee_denominator,
            );
            &&& spec_swap(pool, amount_in, min_amount_out, swap_a_to_b) is Ok <==> {
                &&& pool.is_active
                &&& amount_in > 0
                &&& quote matches Some(out) && out >= min_amount_out
                &&& reserve_in + amount_in <= u64::MAX
            }
            &&& spec_swap(pool, amount_in, min_amount_out, swap_a_to_b) matches Ok((next, out)) ==> {
                &&& Some(out) == quote
                &&& out >= min_amount_out
                &&& out < reserve_out
                &&& swap_a_to_b ==> next.reserve_a == pool.reserve_a + amount_in
                    && next.reserve_b == pool.reserve_b - out
                &&& !swap_a_to_b ==> next.reserve_b == pool.reserve_b + amount_in
                    && next.reserve_a == pool.reserve_a - out
                &&& next == Pool { reserve_a: next.reserve_a, reserve_b: next.reserve_b, ..pool }
            }
        }),
{
    let (reserve_in, reserve_out) = swap_reserves(pool, swap_a_to_b);
    lemma_swap_out_total_and_rounded_down(
        amount_in,
        reserve_in,
        reserve_out,
        pool.fee_numerator,
        pool.fee_denominator,
    );
}

/// What adding liquidity does: on success both deposited amounts are
/// positive and at most what the provider offered, at least `min_lp_out` LP
/// tokens are minted, the reserves grow by exactly the deposit and the LP
/// supply by exactly the minted tokens, and nothing else about the pool changes.
pub proof fn lemma_add_liquidity_outcome(
    pool: Pool,
    desired_a: u64,
    desired_b: u64,
    min_lp_out: u64,
)
    ensures
        spec_add_liquidity(pool, desired_a, desired_b, min_lp_out) matches Ok(
            (next, (amount_a, amount_b, lp_amount)),
        ) ==> {
            &&& pool.is_active
            &&& 0 < amount_a <= desired_a
            &&& 0 < amount_b <= desired_b
            &&& lp_amount >= min_lp_out
            &&& next.reserve_a == pool.reserve_a + amount_a
            &&& next.reserve_b == pool.reserve_b + amount_b
            &&& next.total_lp_supply == pool.total_lp_supply + lp_amount
            &&& next == Pool {
                reserve_a: next.reserve_a,
                reserve_b: next.reserve_b,
                total_lp_supply: next.total_lp_supply,
                ..pool
            }
        },
{
    if pool.reserve_a > 0 && pool.reserve_b > 0 {
        lemma_optimal_amounts_within_desired(desired_a, desired_b, pool.reserve_a, pool.reserve_b);
    }
}

/// What removing liquidity does: it succeeds exactly when the pool is active,
/// `0 < lp_amount <= min(provider_lp_balance, total_lp_supply)`, and both
/// proportional amounts `lp_amount * reserve / total_lp_supply` are positive.
/// On success those amounts are paid out, the reserves and the supply shrink
/// by exactly what is paid and burned, the pool stays active exactly while LP
/// tokens remain, and nothing else about the pool changes.
pub proof fn lemma_remove_liquidity_outcome(pool: Pool, lp_amount: u64, provider_lp_balance: u64)
    ensures
        ({
            let ts = pool.total_lp_supply;
            &&& spec_remove_liquidity(pool, lp_amount, provider_lp_balance) is Ok <==> {
                &&& pool.is_active
                &&& 0 < lp_amount
                &&& lp_amount <= provider_lp_balance
                &&& lp_amount <= ts
                &&& lp_amount * pool.reserve_a / (ts as int) > 0
                &&& lp_amount * pool.reserve_b / (ts as int) > 0
            }
            &&& spec_remove_liquidity(pool, lp_amount, provider_lp_balance) matches Ok(
                (next, (amount_a, amount_b)),
            ) ==> {
                &&& amount_a == lp_amount * pool.reserve_a / (ts as int)
                &&& amount_b == lp_amount * pool.reserve_b / (ts as int)
                &&& 0 < amount_a <= pool.reserve_a
                &&& 0 < amount_b <= pool.reserve_b
                &&& next.reserve_a == pool.reserve_a - amount_a
                &&& next.reserve_b == pool.reserve_b - amount_b
                &&& next.total_lp_supply == ts - lp_amount
                &&& next.is_active == (next.total_lp_supply > 0)
                &&& next == Pool {
                    reserve_a: next.reserve_a,
                    reserve_b: next.reserve_b,
                    total_lp_supply: next.total_lp_supply,
                    is_active: next.is_active,
                    ..pool
                }
            }
        }),
{
    let ts = pool.total_lp_supply;
    if 0 < lp_amount <= ts {
        lemma_remove_amounts_total(lp_amount, pool.reserve_a, pool.reserve_b, ts);
    }
    if ts > 0 && lp_amount > ts {
        // burning more than the supply is refused one way or another
        let qa = lp_amount * pool.reserve_a / (ts as int);
        let qb = lp_amount * pool.reserve_b / (ts as int);
        lemma_div_bounds(lp_amount * pool.reserve_a, ts as int);
        lemma_div_bounds(lp_amount * pool.reserve_b, ts as int);
    }
}

/// What creating a pool does: it succeeds exactly when the mints are given in
/// lexicographic order, both deposits are positive and the fee is below 100%
/// with a positive denominator. The new pool records exactly the given keys,
/// deposits, fee and bump, is active, and its LP supply is the integer square
/// root of the product of the deposits, all minted to the creator.
pub proof fn lemma_initialize_outcome(
    token_a_mint: Pubkey,
    token_b_mint: Pubkey,
    vault_a: Pubkey,
    vault_b: Pubkey,
    lp_mint: Pubkey,
    amount_a: u64,
    amount_b: u64,
    fee_numerator: u64,
    fee_denominator: u64,
    bump: u8,
)
    ensures
        ({
            let result = spec_initialize(
                token_a_mint,
                token_b_mint,
                vault_a,
                vault_b,
                lp_mint,
                amount_a,
                amount_b,
                fee_numerator,
                fee_denominator,
                bump,
            );
            &&& result is Ok <==> {
                &&& key_le(token_a_mint@, token_b_mint@)
                &&& amount_a > 0 && amount_b > 0
                &&& 0 < fee_denominator && fee_numerator < fee_denominator
            }
            &&& result matches Ok((pool, lp_amount)) ==> {
                &&& pool.token_a_mint@ == token_a_mint@
                &&& pool.token_b_mint@ == token_b_mint@
                &&& pool.vault_a == vault_a && pool.vault_b == vault_b && pool.lp_mint == lp_mint
                &&& pool.reserve_a == amount_a && pool.reserve_b == amount_b
                &&& pool.fee_numerator == fee_numerator && pool.fee_denominator == fee_denominator
                &&& pool.bump == bump
                &&& pool.is_active
                &&& pool.total_lp_supply == lp_amount
                &&& lp_amount * lp_amount <= amount_a * amount_b
                &&& amount_a * amount_b < (lp_amount + 1) * (lp_amount + 1)
            }
        }),
{
    lemma_key_le_total_order(token_a_mint@, token_b_mint@);
    lemma_lp_for_add_total_and_largest(amount_a, amount_b, 0, 0, 0);
}

} // verus!
