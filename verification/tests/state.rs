use cpamm::state::{integer_sqrt, sort_mints, Pool, Pubkey};

#[test]
fn test_swap_exact_output() {
    // Pool: 1000 USDC, 10 SOL
    // Swap 0.1 USDC for SOL
    let reserve_in = 1_000_000; // USDC (6 decimals)
    let reserve_out = 10_000_000_000; // SOL (9 decimals)
    let amount_in = 100_000; // 0.1 USDC

    let out = Pool::compute_swap_out(amount_in, reserve_in, reserve_out, 30, 10000).unwrap();
    // amount_in_after_fee = 100_000 * 0.997 = 99_700
    // out = 99_700 * 10_000_000_000 / (1_000_000 + 99_700)
    assert!(out > 0);
}

#[test]
fn test_swap_zero_amount_returns_none() {
    assert_eq!(Pool::compute_swap_out(0, 100, 100, 30, 10000), None);
}

#[test]
fn test_lp_first_provider() {
    // First deposit: 1000 USDC (6 dec) and 10 SOL (9 dec)
    let lp = Pool::compute_lp_tokens_for_add(
        1_000_000,      // 1000 USDC
        10_000_000_000, // 10 SOL
        0,              // no reserves yet
        0,
        0,
    )
    .unwrap();
    // sqrt(1e6 * 1e10) = sqrt(1e16) = 1e8
    assert_eq!(lp, 100_000_000);
}

#[test]
fn test_lp_proportional() {
    // Pool has 1000 LP, reserves 1000 USDC : 10 SOL
    // Add 100 USDC : 1 SOL -> 100 LP
    let lp = Pool::compute_lp_tokens_for_add(
        100_000,        // 100 USDC
        1_000_000_000,  // 1 SOL
        1_000_000,      // reserve USDC
        10_000_000_000, // reserve SOL
        1000,           // total supply
    )
    .unwrap();
    assert_eq!(lp, 100);
}

#[test]
fn test_remove_amounts() {
    let (a, b) = Pool::compute_remove_amounts(
        500,            // burn half the LP
        1_000_000,      // reserve USDC
        10_000_000_000, // reserve SOL
        1000,           // total supply
    )
    .unwrap();
    assert_eq!(a, 500_000);
    assert_eq!(b, 5_000_000_000);
}

#[test]
fn test_optimal_amounts() {
    let (a, b) = Pool::optimal_amounts(
        200_000,        // want to add 200 USDC
        5_000_000_000,  // and 5 SOL
        1_000_000,      // current reserve USDC
        10_000_000_000, // current reserve SOL
    )
    .unwrap();
    // Ratio is 1:10000, so 200 USDC -> 2 SOL optimal
    assert_eq!(a, 200_000);
    assert_eq!(b, 2_000_000_000); // 2 SOL
}

#[test]
fn test_integer_sqrt() {
    assert_eq!(integer_sqrt(0), 0);
    assert_eq!(integer_sqrt(1), 1);
    assert_eq!(integer_sqrt(4), 2);
    assert_eq!(integer_sqrt(100), 10);
    assert_eq!(integer_sqrt(10_000_000_000_000_000), 100_000_000);
}

#[test]
fn test_sort_mints() {
    let a = Pubkey::new_from_array([1u8; 32]);
    let b = Pubkey::new_from_array([2u8; 32]);
    let (low, high) = sort_mints(&a, &b);
    assert_eq!(low, a);
    assert_eq!(high, b);

    // Reverse order
    let (low, high) = sort_mints(&b, &a);
    assert_eq!(low, a);
    assert_eq!(high, b);
}

#[test]
fn test_compute_swap_in() {
    // Pool: 1000 USDC, 10 SOL. I want exactly 0.5 SOL out.
    let amount_in = Pool::compute_swap_in(
        500_000_000,    // desired 0.5 SOL (9 dec)
        1_000_000,      // reserve USDC
        10_000_000_000, // reserve SOL
        30,             // 0.3% fee
        10000,
    )
    .unwrap();
    // Should require roughly ~52 USDC in
    assert!(amount_in > 0);
    assert!(amount_in < 100_000); // less than 100 USDC
}

#[test]
fn swap_out_exact_value() {
    assert_eq!(
        Pool::compute_swap_out(100_000, 1_000_000, 10_000_000_000, 30, 10000),
        Some(906_610_893)
    );
}

#[test]
fn swap_out_refuses_bad_inputs() {
    assert_eq!(Pool::compute_swap_out(100, 0, 100, 30, 10000), None);
    assert_eq!(Pool::compute_swap_out(100, 100, 0, 30, 10000), None);
    assert_eq!(Pool::compute_swap_out(100, 100, 100, 30, 0), None);
    // a fee above 100% leaves nothing of the input
    assert_eq!(Pool::compute_swap_out(1000, 1000, 1000, 20000, 10000), None);
    assert_eq!(Pool::compute_swap_out(1000, 1000, 1000, 30, 10000), Some(499));
}

#[test]
fn swap_out_stays_below_reserve() {
    let out = Pool::compute_swap_out(u64::MAX, 1, 1_000, 0, 1).unwrap();
    assert_eq!(out, 999);
}

#[test]
fn swap_in_exact_value_and_round_trip() {
    let amount_in =
        Pool::compute_swap_in(500_000_000, 1_000_000, 10_000_000_000, 30, 10000).unwrap();
    assert_eq!(amount_in, 52_790);
    let out = Pool::compute_swap_out(amount_in, 1_000_000, 10_000_000_000, 30, 10000).unwrap();
    assert!(out >= 500_000_000);
    assert_eq!(out, 500_003_799);
}

#[test]
fn swap_in_refuses_bad_inputs() {
    assert_eq!(Pool::compute_swap_in(0, 100, 100, 30, 10000), None);
    assert_eq!(Pool::compute_swap_in(10, 0, 100, 30, 10000), None);
    assert_eq!(Pool::compute_swap_in(100, 100, 100, 30, 10000), None);
    assert_eq!(Pool::compute_swap_in(10, 100, 100, 20000, 10000), None);
    // a 100% fee leaves no denominator
    assert_eq!(Pool::compute_swap_in(10, 100, 100, 10000, 10000), None);
    // the numerator overflows 128 bits
    assert_eq!(Pool::compute_swap_in(u64::MAX - 1, u64::MAX, u64::MAX, 0, u64::MAX), None);
}

#[test]
fn swap_in_without_remainder_is_exact() {
    // 10 * 100 * 1 / ((100 - 10) * 1) = 1000 / 90 = 11 rem 10 -> 12
    assert_eq!(Pool::compute_swap_in(10, 100, 100, 0, 1), Some(12));
    // 50 * 100 / (100 - 50) = 100 exactly
    assert_eq!(Pool::compute_swap_in(50, 100, 100, 0, 1), Some(100));
}

#[test]
fn lp_for_add_edge_cases() {
    assert_eq!(Pool::compute_lp_tokens_for_add(0, 10, 0, 0, 0), None);
    assert_eq!(Pool::compute_lp_tokens_for_add(10, 0, 0, 0, 0), None);
    assert_eq!(Pool::compute_lp_tokens_for_add(3, 12, 0, 0, 0), Some(6));
    assert_eq!(Pool::compute_lp_tokens_for_add(u64::MAX, u64::MAX, 0, 0, 0), Some(u64::MAX));
    // a funded supply needs funded reserves
    assert_eq!(Pool::compute_lp_tokens_for_add(10, 10, 0, 10, 10), None);
    assert_eq!(Pool::compute_lp_tokens_for_add(10, 10, 10, 0, 10), None);
    // the smaller share wins
    assert_eq!(Pool::compute_lp_tokens_for_add(10, 50, 100, 100, 1000), Some(100));
}

#[test]
fn lp_for_add_refuses_oversized_share() {
    // share = 4 * 2^63 / 1 = 2^65 does not fit in 64 bits
    assert_eq!(Pool::compute_lp_tokens_for_add(4, 4, 1, 1, 1u64 << 63), None);
    // the largest share that fits is returned in full
    assert_eq!(Pool::compute_lp_tokens_for_add(1, 1, 1, 1, u64::MAX), Some(u64::MAX));
}

#[test]
fn swap_in_refuses_quotes_beyond_64_bits() {
    assert_eq!(Pool::compute_swap_in(u64::MAX - 1, u64::MAX, u64::MAX, 0, 1), None);
    // (2^65 - 1) / 2 = 2^64 - 1 with a remainder: rounding up leaves 64 bits
    assert_eq!(Pool::compute_swap_in(31, 1_190_112_520_884_487_201, 33, 0, 1), None);
}

#[test]
fn swap_in_largest_quote() {
    // 31 * 595056260442243600 = 18446744073709551600; / 1 = exact
    assert_eq!(
        Pool::compute_swap_in(31, 595_056_260_442_243_600, 32, 0, 1),
        Some(18_446_744_073_709_551_600)
    );
}

#[test]
fn optimal_amounts_keep_ratio_beyond_64_bits() {
    assert_eq!(
        Pool::optimal_amounts(u64::MAX, u64::MAX, 1, 2),
        Some(((1u64 << 63) - 1, u64::MAX))
    );
}

#[test]
fn remove_amounts_refuse_oversized_share() {
    assert_eq!(Pool::compute_remove_amounts(u64::MAX, u64::MAX, 1, 1), None);
    assert_eq!(Pool::compute_remove_amounts(2, 10, 20, 1), Some((20, 40)));
}

#[test]
fn optimal_amounts_other_branch_and_empty_pool() {
    assert_eq!(
        Pool::optimal_amounts(200_000, 1_000_000_000, 1_000_000, 10_000_000_000),
        Some((100_000, 1_000_000_000))
    );
    assert_eq!(Pool::optimal_amounts(7, 9, 0, 10), Some((7, 9)));
    assert_eq!(Pool::optimal_amounts(7, 9, 10, 0), Some((7, 9)));
}

#[test]
fn remove_amounts_edge_cases() {
    assert_eq!(Pool::compute_remove_amounts(0, 10, 10, 10), None);
    assert_eq!(Pool::compute_remove_amounts(10, 10, 10, 0), None);
    // burning the whole supply returns the whole reserves
    assert_eq!(Pool::compute_remove_amounts(1000, 1_000_000, 7, 1000), Some((1_000_000, 7)));
    // rounding down
    assert_eq!(Pool::compute_remove_amounts(1, 10, 20, 3), Some((3, 6)));
}

#[test]
fn integer_sqrt_rounds_down_and_handles_extremes() {
    assert_eq!(integer_sqrt(2), 1);
    assert_eq!(integer_sqrt(3), 1);
    assert_eq!(integer_sqrt(8), 2);
    assert_eq!(integer_sqrt(99), 9);
    assert_eq!(integer_sqrt(u128::MAX), u64::MAX as u128);
    assert_eq!(integer_sqrt((u64::MAX as u128) * (u64::MAX as u128)), u64::MAX as u128);
    for n in 0u128..2000 {
        let r = integer_sqrt(n);
        assert!(r * r <= n && n < (r + 1) * (r + 1));
    }
}

#[test]
fn sort_mints_is_order_independent() {
    let mut x = [9u8; 32];
    let mut y = [9u8; 32];
    x[31] = 1;
    y[0] = 8;
    let a = Pubkey::new_from_array(x);
    let b = Pubkey::new_from_array(y);
    assert_eq!(sort_mints(&a, &b), sort_mints(&b, &a));
    assert_eq!(sort_mints(&a, &b), (b, a));
    assert_eq!(sort_mints(&a, &a), (a, a));
    assert_eq!(a.to_bytes(), x);
    assert!(a != b);
}
