//! Arithmetic facts about division and square roots that the pool proofs use.

use vstd::prelude::*;
use vstd::arithmetic::div_mod::{
    lemma_fundamental_div_mod,
    lemma_mod_pos_bound,
    lemma_div_pos_is_pos,
    lemma_multiply_divide_lt,
};

verus! {

/// `r` is the integer square root of `n`: the largest `r` with `r * r <= n`.
pub open spec fn is_isqrt(r: int, n: int) -> bool {
    &&& 0 <= r
    &&& r * r <= n
    &&& n < (r + 1) * (r + 1)
}

/// Floor division brackets its dividend: `d * (n / d) <= n < d * (n / d) + d`.
pub proof fn lemma_div_bounds(n: int, d: int)
    requires
        0 <= n,
        0 < d,
    ensures
        0 <= n / d,
        d * (n / d) <= n,
        n < d * (n / d) + d,
        n / d <= n,
{
    lemma_fundamental_div_mod(n, d);
    lemma_mod_pos_bound(n, d);
    lemma_div_pos_is_pos(n, d);
    let q = n / d;
    assert(q <= n) by (nonlinear_arith)
        requires
            d * q <= n,
            d >= 1,
            q >= 0,
    ;
}

/// `n / d < m` exactly when `n < d * m`.
pub proof fn lemma_div_lt_iff(n: int, d: int, m: int)
    requires
        0 <= n,
        0 < d,
    ensures
        (n / d < m) <==> (n < d * m),
{
    lemma_div_bounds(n, d);
    let q = n / d;
    if n < d * m {
        lemma_multiply_divide_lt(n, d, m);
    } else {
        assert(q >= m) by (nonlinear_arith)
            requires
                n < d * q + d,
                n >= d * m,
                d > 0,
        {
            if q < m {
                assert(d * q + d <= d * m);
            }
        }
    }
}

/// `m <= n / d` exactly when `d * m <= n`.
pub proof fn lemma_le_div_iff(n: int, d: int, m: int)
    requires
        0 <= n,
        0 < d,
    ensures
        (m <= n / d) <==> (d * m <= n),
{
    lemma_div_lt_iff(n, d, m);
}

/// Products of bounded non-negative factors are bounded by the product of the bounds.
pub proof fn lemma_mul_le(a: int, b: int, ma: int, mb: int)
    requires
        0 <= a <= ma,
        0 <= b <= mb,
    ensures
        0 <= a * b <= ma * mb,
{
    assert(0 <= a * b <= ma * mb) by (nonlinear_arith)
        requires
            0 <= a <= ma,
            0 <= b <= mb,
    {
        assert(a * b <= a * mb);
        assert(a * mb <= ma * mb);
    }
}

/// The integer square root of any non-negative number exists.
pub proof fn lemma_isqrt_exists(n: nat)
    ensures
        exists|r: int| #[trigger] is_isqrt(r, n as int),
    decreases n,
{
    if n == 0 {
        assert(is_isqrt(0, 0));
    } else {
        lemma_isqrt_exists((n - 1) as nat);
        let m: int = n - 1;
        let r = choose|r: int| #[trigger] is_isqrt(r, m);
        if n < (r + 1) * (r + 1) {
            assert(is_isqrt(r, n as int));
        } else {
            assert(is_isqrt(r + 1, n as int)) by (nonlinear_arith)
                requires
                    r >= 0,
                    n == (r + 1) * (r + 1),
            ;
        }
    }
}

/// The integer square root of `n` (for negative `n`, an unspecified value).
pub open spec fn spec_isqrt(n: int) -> int {
    choose|r: int| #[trigger] is_isqrt(r, n)
}

/// `spec_isqrt` is the integer square root.
pub proof fn lemma_spec_isqrt(n: int)
    requires
        0 <= n,
    ensures
        is_isqrt(spec_isqrt(n), n),
        forall|r: int| #[trigger] is_isqrt(r, n) ==> r == spec_isqrt(n),
{
    lemma_isqrt_exists(n as nat);
    assert forall|r: int| is_isqrt(r, n) implies r == spec_isqrt(n) by {
        lemma_isqrt_unique(r, spec_isqrt(n), n);
    }
}

/// The product of two 64-bit values fits in 128 bits.
pub proof fn lemma_mul_u64_fits_u128(a: u64, b: u64)
    ensures
        0 <= a * b <= u128::MAX,
        a * b < 0x1_0000_0000_0000_0000_0000_0000_0000_0000,
{
    assert(0 <= a * b <= 0xFFFF_FFFF_FFFF_FFFF * 0xFFFF_FFFF_FFFF_FFFF) by (nonlinear_arith)
        requires
            0 <= a <= 0xFFFF_FFFF_FFFF_FFFF,
            0 <= b <= 0xFFFF_FFFF_FFFF_FFFF,
    {
        assert(a * b <= a * 0xFFFF_FFFF_FFFF_FFFF);
        assert(a * 0xFFFF_FFFF_FFFF_FFFF <= 0xFFFF_FFFF_FFFF_FFFF * 0xFFFF_FFFF_FFFF_FFFF);
    }
}

/// One Newton step `(x + n / x) / 2` from any positive `x` never falls below
/// the integer square root of `n`.
pub proof fn lemma_newton_step_stays_above(n: int, x: int)
    requires
        0 <= n,
        1 <= x,
    ensures
        n < ((x + n / x) / 2 + 1) * ((x + n / x) / 2 + 1),
{
    lemma_div_bounds(n, x);
    let q = n / x;
    let y = (x + q) / 2;
    lemma_div_bounds(x + q, 2);
    assert(n < x * (q + 1)) by (nonlinear_arith)
        requires
            n < x * q + x,
    ;
    assert(n < (y + 1) * (y + 1)) by (nonlinear_arith)
        requires
            n < x * (q + 1),
            x + q + 1 <= 2 * (y + 1),
            x >= 1,
            q >= 0,
            y >= 0,
    {
        let s = x + q + 1;
        assert(s * s - 4 * x * (q + 1) == (x - q - 1) * (x - q - 1));
        assert((x - q - 1) * (x - q - 1) >= 0);
        assert(s * s <= (2 * (y + 1)) * (2 * (y + 1)));
    }
}

/// If `x` is not yet the square root (its square exceeds `n`), the Newton
/// step strictly decreases it.
pub proof fn lemma_newton_step_decreases(n: int, x: int)
    requires
        0 <= n,
        1 <= x,
        n < x * x,
    ensures
        (x + n / x) / 2 < x,
{
    lemma_div_lt_iff(n, x, x);
    lemma_div_bounds(x + n / x, 2);
}

/// The integer square root is unique.
pub proof fn lemma_isqrt_unique(r1: int, r2: int, n: int)
    requires
        is_isqrt(r1, n),
        is_isqrt(r2, n),
    ensures
        r1 == r2,
{
    if r1 < r2 {
        assert((r1 + 1) * (r1 + 1) <= r2 * r2) by (nonlinear_arith)
            requires
                0 <= r1 + 1 <= r2,
        ;
    } else if r2 < r1 {
        assert((r2 + 1) * (r2 + 1) <= r1 * r1) by (nonlinear_arith)
            requires
                0 <= r2 + 1 <= r1,
        ;
    }
}

} // verus!
