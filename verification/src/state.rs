//! Pool account state, account keys and the constant-product pool arithmetic.

use vstd::prelude::*;
use crate::arith::{
    is_isqrt,
    spec_isqrt,
    lemma_le_div_iff,
    lemma_mul_le,
    lemma_mul_u64_fits_u128,
    lemma_spec_isqrt,
    lemma_div_bounds,
    lemma_div_lt_iff,
    lemma_newton_step_decreases,
    lemma_newton_step_stays_above,
};

verus! {

/// A 32-byte account address, compared byte by byte.
#[derive(Debug, Clone, Copy)]
pub struct Pubkey {
    pub bytes: [u8; 32],
}

impl PartialEq for Pubkey {
    fn eq(&self, other: &Pubkey) -> (same: bool) {
        key_bytes_eq(&self.bytes, &other.bytes)
    }
}

impl vstd::std_specs::cmp::PartialEqSpecImpl for Pubkey {
    open spec fn obeys_eq_spec() -> bool {
        true
    }

    open spec fn eq_spec(&self, other: &Pubkey) -> bool {
        self@ == other@
    }
}

impl Eq for Pubkey {}

/// Byte-wise equality of two keys.
pub fn key_bytes_eq(a: &[u8; 32], b: &[u8; 32]) -> (same: bool)
    ensures
        same == (a@ == b@),
{
    let mut i: usize = 0;
    while i < 32
        invariant
            0 <= i <= 32,
            a@.len() == 32,
            b@.len() == 32,
            forall|j: int| 0 <= j < i ==> #[trigger] a@[j] == b@[j],
        decreases 32 - i,
    {
        if a[i] != b[i] {
            assert(a@[i as int] != b@[i as int]);
            return false;
        }
        i = i + 1;
    }
    assert(a@ =~= b@);
    true
}

impl View for Pubkey {
    type V = Seq<u8>;

    open spec fn view(&self) -> Seq<u8> {
        self.bytes@
    }
}

/// `a` comes no later than `b` in lexicographic byte order: they are equal,
/// or they first differ at an index where `a` holds the smaller byte.
pub open spec fn key_le(a: Seq<u8>, b: Seq<u8>) -> bool {
    a == b || exists|i: int|
        0 <= i < a.len() && i < b.len() && a[i] < b[i] && (forall|j: int|
            0 <= j < i ==> #[trigger] a[j] == b[j])
}

/// The two keys in lexicographic order, lower first.
pub open spec fn spec_sort_mints(a: Pubkey, b: Pubkey) -> (Pubkey, Pubkey) {
    if key_le(a@, b@) {
        (a, b)
    } else {
        (b, a)
    }
}

impl Pubkey {
    pub fn new_from_array(bytes: [u8; 32]) -> (key: Pubkey)
        ensures
            key.bytes == bytes,
    {
        Pubkey { bytes }
    }

    pub fn to_bytes(&self) -> (bytes: [u8; 32])
        ensures
            bytes == self.bytes,
    {
        self.bytes
    }
}

/// Lexicographic comparison of two keys.
pub fn key_bytes_le(a: &[u8; 32], b: &[u8; 32]) -> (le: bool)
    ensures
        le == key_le(a@, b@),
{
    let mut i: usize = 0;
    while i < 32
        invariant
            0 <= i <= 32,
            a@.len() == 32,
            b@.len() == 32,
            forall|j: int| 0 <= j < i ==> #[trigger] a@[j] == b@[j],
        decreases 32 - i,
    {
        if a[i] != b[i] {
            let lt = a[i] < b[i];
            proof {
                if lt {
                    assert(key_le(a@, b@));
                } else {
                    assert(a@ != b@) by {
                        assert(a@[i as int] != b@[i as int]);
                    }
                    assert forall|k: int|
                        !(0 <= k < a@.len() && k < b@.len() && a@[k] < b@[k] && (forall|j: int|
                            0 <= j < k ==> #[trigger] a@[j] == b@[j])) by {
                        if 0 <= k < a@.len() && k < b@.len() && a@[k] < b@[k] && (forall|j: int|
                            0 <= j < k ==> #[trigger] a@[j] == b@[j]) {
                            if k > i {
                                assert(a@[i as int] == b@[i as int]);
                            }
                        }
                    }
                }
            }
            return lt;
        }
        i = i + 1;
    }
    assert(a@ =~= b@);
    true
}

/// Sorted mint addresses, used to derive the pool address deterministically:
/// the pair comes back in lexicographic byte order, so `sort_mints(a, b)` and
/// `sort_mints(b, a)` name the same pool.
pub fn sort_mints(a: &Pubkey, b: &Pubkey) -> (sorted: (Pubkey, Pubkey))
    ensures
        sorted == spec_sort_mints(*a, *b),
{
    if key_bytes_le(&a.to_bytes(), &b.to_bytes()) {
        (*a, *b)
    } else {
        (*b, *a)
    }
}

/// A constant-product automated market maker pool.
///
/// The vaults and the LP mint are accounts derived from the pool's own
/// address; the pool records their keys.
#[derive(Debug, Clone, Copy)]
pub struct Pool {
    /// Token A mint (the "base" token).
    pub token_a_mint: Pubkey,
    /// Token B mint (the "quote" token).
    pub token_b_mint: Pubkey,
    /// Token account holding the token A reserves.
    pub vault_a: Pubkey,
    /// Token account holding the token B reserves.
    pub vault_b: Pubkey,
    /// Mint of the LP tokens.
    pub lp_mint: Pubkey,
    /// Current token A reserve (raw amount, no decimals).
    pub reserve_a: u64,
    /// Current token B reserve.
    pub reserve_b: u64,
    /// Fee numerator (e.g. 30 for 0.3%).
    pub fee_numerator: u64,
    /// Fee denominator (e.g. 10000).
    pub fee_denominator: u64,
    /// Total LP tokens in circulation.
    pub total_lp_supply: u64,
    /// Whether the pool is active (false after draining).
    pub is_active: bool,
    /// Address-derivation bump of the pool account.
    pub bump: u8,
}

impl Pool {
    /// What every pool that the instructions create or change satisfies: a
    /// valid fee below 100%, an active pool has LP tokens in circulation and
    /// both reserves funded, and a drained (inactive) pool has neither.
    pub open spec fn wf(self) -> bool {
        &&& 0 < self.fee_denominator
        &&& self.fee_numerator < self.fee_denominator
        &&& self.is_active <==> self.total_lp_supply > 0
        &&& self.is_active ==> self.reserve_a > 0 && self.reserve_b > 0
        &&& !self.is_active ==> self.reserve_a == 0 && self.reserve_b == 0
    }
}

/// The fee that a swap of `amount_in` pays: `amount_in * fee_num / fee_denom`, rounded down.
pub open spec fn swap_fee(amount_in: int, fee_num: int, fee_denom: int) -> int {
    amount_in * fee_num / fee_denom
}

/// Constant-product swap output with fee:
/// `fee = amount_in * fee_num / fee_denom`, `after = amount_in - fee`,
/// `out = after * reserve_out / (reserve_in + after)`, all rounded down
/// (the output is always below `reserve_out`, so it fits in 64 bits).
/// There is no quote for a zero amount or reserve, a zero fee denominator,
/// or a fee larger than the amount.
pub open spec fn spec_compute_swap_out(
    amount_in: u64,
    reserve_in: u64,
    reserve_out: u64,
    fee_num: u64,
    fee_denom: u64,
) -> Option<u64> {
    if amount_in == 0 || reserve_in == 0 || reserve_out == 0 || fee_denom == 0 {
        None
    } else {
        let fee = swap_fee(amount_in as int, fee_num as int, fee_denom as int);
        if fee > amount_in {
            None
        } else {
            let after = amount_in - fee;
            Some((after * reserve_out / (reserve_in + after)) as u64)
        }
    }
}

/// The numerator `desired_out * reserve_in * fee_denom` of the exact input for a desired output.
pub open spec fn swap_in_numerator(desired_out: u64, reserve_in: u64, fee_denom: u64) -> int {
    desired_out * reserve_in * fee_denom
}

/// The denominator `(reserve_out - desired_out) * (fee_denom - fee_num)` of the
/// exact input for a desired output.
pub open spec fn swap_in_denominator(
    desired_out: u64,
    reserve_out: u64,
    fee_num: u64,
    fee_denom: u64,
) -> int {
    (reserve_out - desired_out) * (fee_denom - fee_num)
}

/// The inputs for which an input amount can be quoted at all: a positive
/// desired output below the output reserve, a funded input reserve, a fee
/// below 100%, and a numerator that fits the 128-bit intermediates.
pub open spec fn swap_in_defined(
    desired_out: u64,
    reserve_in: u64,
    reserve_out: u64,
    fee_num: u64,
    fee_denom: u64,
) -> bool {
    &&& desired_out != 0
    &&& reserve_in != 0
    &&& reserve_out > desired_out
    &&& fee_num < fee_denom
    &&& swap_in_numerator(desired_out, reserve_in, fee_denom) <= u128::MAX
}

/// `n / d` rounded up.
pub open spec fn ceil_div(n: int, d: int) -> int {
    n / d + if n % d > 0 {
        1int
    } else {
        0int
    }
}

/// The exact input needed for a desired output, rounded up:
/// `desired_out * reserve_in * fee_denom / ((reserve_out - desired_out) * (fee_denom - fee_num))`.
pub open spec fn swap_in_exact(
    desired_out: u64,
    reserve_in: u64,
    reserve_out: u64,
    fee_num: u64,
    fee_denom: u64,
) -> int {
    ceil_div(
        swap_in_numerator(desired_out, reserve_in, fee_denom),
        swap_in_denominator(desired_out, reserve_out, fee_num, fee_denom),
    )
}

/// The input needed for a desired output, rounded up (the user pays slightly
/// more, never slightly less); none where it cannot be quoted or does not fit
/// in 64 bits.
pub open spec fn spec_compute_swap_in(
    desired_out: u64,
    reserve_in: u64,
    reserve_out: u64,
    fee_num: u64,
    fee_denom: u64,
) -> Option<u64> {
    if !swap_in_defined(desired_out, reserve_in, reserve_out, fee_num, fee_denom) {
        None
    } else {
        let exact = swap_in_exact(desired_out, reserve_in, reserve_out, fee_num, fee_denom);
        if exact > u64::MAX {
            None
        } else {
            Some(exact as u64)
        }
    }
}

/// The smaller of the two proportional shares `amount * total_supply / reserve`.
pub open spec fn lp_share(
    amount_a: u64,
    amount_b: u64,
    reserve_a: u64,
    reserve_b: u64,
    total_supply: u64,
) -> int {
    let share_a = amount_a * total_supply / (reserve_a as int);
    let share_b = amount_b * total_supply / (reserve_b as int);
    if share_a <= share_b {
        share_a
    } else {
        share_b
    }
}

/// LP tokens minted for a deposit of `amount_a` and `amount_b`: for the first
/// provider the geometric mean `isqrt(amount_a * amount_b)`; otherwise the
/// smaller of the two proportional shares `amount * total_supply / reserve`,
/// undefined when a reserve is zero or the share does not fit in 64 bits.
pub open spec fn spec_compute_lp_tokens_for_add(
    amount_a: u64,
    amount_b: u64,
    reserve_a: u64,
    reserve_b: u64,
    total_supply: u64,
) -> Option<u64> {
    if amount_a == 0 || amount_b == 0 {
        None
    } else if total_supply == 0 {
        Some(spec_isqrt(amount_a * amount_b) as u64)
    } else if reserve_a == 0 || reserve_b == 0 {
        None
    } else {
        let share = lp_share(amount_a, amount_b, reserve_a, reserve_b, total_supply);
        if share > u64::MAX {
            None
        } else {
            Some(share as u64)
        }
    }
}

/// Deposit amounts in the pool's ratio: all of `desired_a` with
/// `desired_a * reserve_b / reserve_a` of B when that is at most `desired_b`,
/// otherwise all of `desired_b` with `desired_b * reserve_a / reserve_b` of A
/// (both quotients are compared and returned in full; each fits in 64 bits
/// where it is returned); an empty pool takes the desired amounts as they are.
pub open spec fn spec_optimal_amounts(
    desired_a: u64,
    desired_b: u64,
    reserve_a: u64,
    reserve_b: u64,
) -> (u64, u64) {
    if reserve_a == 0 || reserve_b == 0 {
        (desired_a, desired_b)
    } else {
        let optimal_b = desired_a * reserve_b / (reserve_a as int);
        if optimal_b <= desired_b {
            (desired_a, optimal_b as u64)
        } else {
            ((desired_b * reserve_a / (reserve_b as int)) as u64, desired_b)
        }
    }
}

/// Amounts returned for burning `lp_amount`: `lp_amount * reserve / total_supply`
/// of each token, rounded down; none for a zero burn or supply, or an amount
/// that does not fit in 64 bits.
pub open spec fn spec_compute_remove_amounts(
    lp_amount: u64,
    reserve_a: u64,
    reserve_b: u64,
    total_supply: u64,
) -> Option<(u64, u64)> {
    if lp_amount == 0 || total_supply == 0 {
        None
    } else {
        let amount_a = lp_amount * reserve_a / (total_supply as int);
        let amount_b = lp_amount * reserve_b / (total_supply as int);
        if amount_a > u64::MAX || amount_b > u64::MAX {
            None
        } else {
            Some((amount_a as u64, amount_b as u64))
        }
    }
}

/// A 128-bit value as a 64-bit one, where it fits.
fn checked_u64(x: u128) -> (r: Option<u64>)
    ensures
        x <= u64::MAX ==> r == Some(x as u64),
        x > u64::MAX ==> r is None,
{
    if x <= 0xFFFF_FFFF_FFFF_FFFFu128 {
        Some(x as u64)
    } else {
        None
    }
}

impl Pool {
    /// Compute swap output using the constant-product formula with fee.
    ///
    /// Given `amount_in` of the input token, returns `amount_out` of the
    /// output token (always below `reserve_out`). Uses 128-bit intermediates.
    pub fn compute_swap_out(
        amount_in: u64,
        reserve_in: u64,
        reserve_out: u64,
        fee_num: u64,
        fee_denom: u64,
    ) -> (out: Option<u64>)
        ensures
            out == spec_compute_swap_out(amount_in, reserve_in, reserve_out, fee_num, fee_denom),
            out matches Some(o) ==> o < reserve_out,
    {
        if amount_in == 0 || reserve_in == 0 || reserve_out == 0 {
            return None;
        }
        proof {
            lemma_mul_u64_fits_u128(amount_in, fee_num);
        }
        let fee = (amount_in as u128).checked_mul(fee_num as u128)?.checked_div(fee_denom as u128)?;
        let amount_in_after_fee = (amount_in as u128).checked_sub(fee)?;
        proof {
            lemma_mul_le(amount_in_after_fee as int, reserve_out as int, u64::MAX as int, u64::MAX as int);
        }
        let numerator = amount_in_after_fee.checked_mul(reserve_out as u128)?;
        let denominator = (reserve_in as u128).checked_add(amount_in_after_fee)?;
        let amount_out = numerator.checked_div(denominator)?;
        proof {
            assert(numerator < denominator * reserve_out) by (nonlinear_arith)
                requires
                    numerator == amount_in_after_fee * reserve_out,
                    denominator == reserve_in + amount_in_after_fee,
                    reserve_in >= 1,
                    reserve_out >= 1,
            ;
            lemma_div_lt_iff(numerator as int, denominator as int, reserve_out as int);
        }
        // the output is below reserve_out, so it fits in 64 bits
        Some(amount_out as u64)
    }

    /// Compute the input needed for a desired output:
    /// `desired_out * reserve_in / ((reserve_out - desired_out) * (1 - fee))`,
    /// rounded up (the user pays slightly more, never slightly less).
    /// Returns `None` where no such input fits in 64 bits.
    pub fn compute_swap_in(
        desired_out: u64,
        reserve_in: u64,
        reserve_out: u64,
        fee_num: u64,
        fee_denom: u64,
    ) -> (amount_in: Option<u64>)
        ensures
            amount_in == spec_compute_swap_in(desired_out, reserve_in, reserve_out, fee_num, fee_denom),
    {
        if desired_out == 0 || reserve_in == 0 || reserve_out <= desired_out {
            return None;
        }
        let fee_multiplier = (fee_denom as u128).checked_sub(fee_num as u128)?;
        proof {
            lemma_mul_le(
                (reserve_out - desired_out) as int,
                fee_multiplier as int,
                u64::MAX as int,
                u64::MAX as int,
            );
            lemma_mul_u64_fits_u128(desired_out, reserve_in);
        }
        let denominator = (reserve_out as u128).checked_sub(desired_out as u128)?.checked_mul(
            fee_multiplier,
        )?;
        let numerator = (desired_out as u128).checked_mul(reserve_in as u128)?.checked_mul(
            fee_denom as u128,
        )?;
        proof {
            assert(denominator == swap_in_denominator(desired_out, reserve_out, fee_num, fee_denom));
            assert((denominator == 0) == (fee_num == fee_denom)) by (nonlinear_arith)
                requires
                    denominator == (reserve_out - desired_out) * (fee_denom - fee_num),
                    reserve_out > desired_out,
                    fee_denom >= fee_num,
            ;
        }
        let amount_in = numerator.checked_div(denominator)?;

        // Add 1 for rounding up (user pays slightly more, never slightly less)
        let has_remainder = numerator.checked_rem(denominator).unwrap_or(0) > 0;
        let quotient = checked_u64(amount_in)?;
        if has_remainder {
            quotient.checked_add(1)
        } else {
            Some(quotient)
        }
    }

    /// Compute LP tokens to mint when adding liquidity.
    ///
    /// If the pool is empty (first provider), LP tokens = sqrt(amount_a * amount_b).
    /// Otherwise, LP tokens = min(amount_a * supply / reserve_a, amount_b * supply / reserve_b),
    /// or `None` where that does not fit in 64 bits.
    pub fn compute_lp_tokens_for_add(
        amount_a: u64,
        amount_b: u64,
        reserve_a: u64,
        reserve_b: u64,
        total_supply: u64,
    ) -> (lp: Option<u64>)
        ensures
            lp == spec_compute_lp_tokens_for_add(amount_a, amount_b, reserve_a, reserve_b, total_supply),
            amount_a != 0 && amount_b != 0 && total_supply == 0 ==> (lp matches Some(l) && is_isqrt(
                l as int,
                amount_a * amount_b,
            )),
    {
        if amount_a == 0 || amount_b == 0 {
            return None;
        }
        if total_supply == 0 {
            proof {
                lemma_mul_u64_fits_u128(amount_a, amount_b);
            }
            let product = (amount_a as u128).checked_mul(amount_b as u128)?;
            let sqrt = integer_sqrt(product);
            proof {
                lemma_spec_isqrt(product as int);
                assert(sqrt < 0x1_0000_0000_0000_0000) by (nonlinear_arith)
                    requires
                        sqrt * sqrt <= product,
                        product < 0x1_0000_0000_0000_0000 * 0x1_0000_0000_0000_0000,
                {
                    if sqrt >= 0x1_0000_0000_0000_0000 {
                        assert(sqrt * sqrt >= 0x1_0000_0000_0000_0000 * 0x1_0000_0000_0000_0000);
                    }
                }
            }
            Some(sqrt as u64)
        } else {
            proof {
                lemma_mul_u64_fits_u128(amount_a, total_supply);
                lemma_mul_u64_fits_u128(amount_b, total_supply);
            }
            let share_a = (amount_a as u128).checked_mul(total_supply as u128)?.checked_div(
                reserve_a as u128,
            )?;
            let share_b = (amount_b as u128).checked_mul(total_supply as u128)?.checked_div(
                reserve_b as u128,
            )?;
            let smaller = if share_a <= share_b {
                share_a
            } else {
                share_b
            };
            checked_u64(smaller)
        }
    }

    /// Compute optimal token amounts for adding liquidity in the pool's ratio.
    ///
    /// Given the desired amounts and the current reserves, returns the
    /// `(amount_a, amount_b)` to deposit, each at most the desired amount;
    /// it always returns `Some`.
    pub fn optimal_amounts(desired_a: u64, desired_b: u64, reserve_a: u64, reserve_b: u64) -> (amounts:
        Option<(u64, u64)>)
        ensures
            amounts == Some(spec_optimal_amounts(desired_a, desired_b, reserve_a, reserve_b)),
            reserve_a > 0 && reserve_b > 0 ==> ({
                let optimal_b = desired_a * reserve_b / (reserve_a as int);
                let optimal_a = desired_b * reserve_a / (reserve_b as int);
                let (amount_a, amount_b) = amounts.unwrap();
                if optimal_b <= desired_b {
                    amount_a == desired_a && amount_b == optimal_b
                } else {
                    amount_a == optimal_a && amount_b == desired_b && optimal_a <= desired_a
                }
            }),
    {
        if reserve_a == 0 || reserve_b == 0 {
            return Some((desired_a, desired_b));
        }
        proof {
            lemma_mul_u64_fits_u128(desired_a, reserve_b);
            lemma_mul_u64_fits_u128(desired_b, reserve_a);
        }
        // optimal_b = desired_a * reserve_b / reserve_a
        let optimal_b = (desired_a as u128).checked_mul(reserve_b as u128)?.checked_div(
            reserve_a as u128,
        )?;
        if optimal_b <= desired_b as u128 {
            Some((desired_a, optimal_b as u64))
        } else {
            let optimal_a = (desired_b as u128).checked_mul(reserve_a as u128)?.checked_div(
                reserve_b as u128,
            )?;
            proof {
                // optimal_b > desired_b means desired_a * reserve_b >= (desired_b + 1) * reserve_a,
                // so optimal_a < desired_a
                lemma_le_div_iff(desired_a * reserve_b, reserve_a as int, desired_b + 1);
                assert(desired_b * reserve_a < reserve_b * desired_a) by (nonlinear_arith)
                    requires
                        reserve_a * (desired_b + 1) <= desired_a * reserve_b,
                        reserve_a > 0,
                ;
                lemma_div_lt_iff(desired_b * reserve_a, reserve_b as int, desired_a as int);
            }
            Some((optimal_a as u64, desired_b))
        }
    }

    /// Compute the amounts returned for burning `lp_amount` LP tokens, or
    /// `None` where an amount does not fit in 64 bits.
    pub fn compute_remove_amounts(
        lp_amount: u64,
        reserve_a: u64,
        reserve_b: u64,
        total_supply: u64,
    ) -> (amounts: Option<(u64, u64)>)
        ensures
            amounts == spec_compute_remove_amounts(lp_amount, reserve_a, reserve_b, total_supply),
    {
        if lp_amount == 0 || total_supply == 0 {
            return None;
        }
        proof {
            lemma_mul_u64_fits_u128(lp_amount, reserve_a);
            lemma_mul_u64_fits_u128(lp_amount, reserve_b);
        }
        let amount_a = checked_u64(
            (lp_amount as u128).checked_mul(reserve_a as u128)?.checked_div(total_supply as u128)?,
        )?;
        let amount_b = checked_u64(
            (lp_amount as u128).checked_mul(reserve_b as u128)?.checked_div(total_supply as u128)?,
        )?;
        Some((amount_a, amount_b))
    }
}

/// Integer square root by Newton's method, `x_{k+1} = (x_k + n / x_k) / 2`,
/// started from `n / 2`: the largest `r` with `r * r <= n`.
pub fn integer_sqrt(n: u128) -> (r: u128)
    ensures
        is_isqrt(r as int, n as int),
{
    if n <= 1 {
        assert(n * n == n && n < (n + 1) * (n + 1)) by (nonlinear_arith)
            requires
                0 <= n <= 1,
        ;
        return n;
    }
    let mut x0 = n / 2;
    if x0 == 0 {
        x0 = 1;
    }
    proof {
        lemma_div_bounds(n as int, 2);
        let h = x0 as int;
        assert(n < (h + 1) * (h + 1)) by (nonlinear_arith)
            requires
                n <= 2 * h + 1,
                h >= 1,
        ;
    }
    loop
        invariant
            2 <= n,
            1 <= x0 <= n / 2,
            n < (x0 + 1) * (x0 + 1),
        decreases x0,
    {
        let ghost q = n as int / x0 as int;
        proof {
            lemma_div_bounds(n as int, x0 as int);
            lemma_div_bounds(n as int, 2);
            // n / x0 stays small enough that x0 + n / x0 cannot overflow.
            if x0 < 0x1_0000_0000_0000_0000 {
                assert(n < x0 * (x0 + 3)) by (nonlinear_arith)
                    requires
                        n < (x0 + 1) * (x0 + 1),
                        x0 >= 1,
                ;
                lemma_div_lt_iff(n as int, x0 as int, x0 + 3);
            } else {
                assert(n < x0 * 0x1_0000_0000_0000_0000) by (nonlinear_arith)
                    requires
                        n < 0x1_0000_0000_0000_0000_0000_0000_0000_0000,
                        x0 >= 0x1_0000_0000_0000_0000,
                ;
                lemma_div_lt_iff(n as int, x0 as int, 0x1_0000_0000_0000_0000);
            }
        }
        let x1 = (x0 + n / x0) / 2;
        if x1 >= x0 {
            proof {
                if n < x0 * x0 {
                    lemma_newton_step_decreases(n as int, x0 as int);
                }
            }
            return x0;
        }
        proof {
            lemma_newton_step_stays_above(n as int, x0 as int);
            assert(x1 >= 1) by (nonlinear_arith)
                requires
                    n < (x1 + 1) * (x1 + 1),
                    n >= 2,
                    x1 >= 0,
            ;
        }
        x0 = x1;
    }
}

} // verus!
