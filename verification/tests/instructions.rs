use cpamm::errors::CpammError;
use cpamm::instructions::{add_liquidity, initialize, remove_liquidity, swap};
use cpamm::state::{Pool, Pubkey};

fn key(b: u8) -> Pubkey {
    Pubkey::new_from_array([b; 32])
}

fn new_pool() -> (Pool, u64) {
    initialize::handler(
        &key(1),
        &key(2),
        &key(3),
        &key(4),
        &key(5),
        1_000_000,
        10_000_000_000,
        30,
        10000,
        254,
    )
    .unwrap()
}

#[test]
fn initialize_creates_pool() {
    let (pool, lp) = new_pool();
    assert_eq!(lp, 100_000_000);
    assert_eq!(pool.token_a_mint, key(1));
    assert_eq!(pool.token_b_mint, key(2));
    assert_eq!(pool.vault_a, key(3));
    assert_eq!(pool.vault_b, key(4));
    assert_eq!(pool.lp_mint, key(5));
    assert_eq!(pool.reserve_a, 1_000_000);
    assert_eq!(pool.reserve_b, 10_000_000_000);
    assert_eq!(pool.fee_numerator, 30);
    assert_eq!(pool.fee_denominator, 10000);
    assert_eq!(pool.total_lp_supply, 100_000_000);
    assert!(pool.is_active);
    assert_eq!(pool.bump, 254);
}

#[test]
fn initialize_refusals() {
    let r = initialize::handler(&key(2), &key(1), &key(3), &key(4), &key(5), 10, 10, 30, 10000, 1);
    assert_eq!(r.unwrap_err(), CpammError::UnsortedMints);
    let r = initialize::handler(&key(1), &key(2), &key(3), &key(4), &key(5), 0, 10, 30, 10000, 1);
    assert_eq!(r.unwrap_err(), CpammError::ZeroAmount);
    let r = initialize::handler(&key(1), &key(2), &key(3), &key(4), &key(5), 10, 0, 30, 10000, 1);
    assert_eq!(r.unwrap_err(), CpammError::ZeroAmount);
    let r = initialize::handler(&key(1), &key(2), &key(3), &key(4), &key(5), 10, 10, 10000, 10000, 1);
    assert_eq!(r.unwrap_err(), CpammError::Overflow);
    let r = initialize::handler(&key(1), &key(2), &key(3), &key(4), &key(5), 10, 10, 0, 0, 1);
    assert_eq!(r.unwrap_err(), CpammError::Overflow);
    // the same mint twice is in order
    let r = initialize::handler(&key(1), &key(1), &key(3), &key(4), &key(5), 3, 12, 0, 1, 1);
    assert_eq!(r.unwrap().1, 6);
}

#[test]
fn swap_updates_reserves_and_keeps_product() {
    let (mut pool, _) = new_pool();
    let before = (pool.reserve_a as u128) * (pool.reserve_b as u128);
    let out = swap::handler(&mut pool, 100_000, 906_610_893, true).unwrap();
    assert_eq!(out, 906_610_893);
    assert_eq!(pool.reserve_a, 1_100_000);
    assert_eq!(pool.reserve_b, 10_000_000_000 - 906_610_893);
    assert_eq!(pool.total_lp_supply, 100_000_000);
    let after = (pool.reserve_a as u128) * (pool.reserve_b as u128);
    assert!(after >= before);

    // and back again, B for A
    let before = after;
    let out = swap::handler(&mut pool, 906_610_893, 0, false).unwrap();
    assert!(out < 100_000);
    assert_eq!(pool.reserve_b, 10_000_000_000);
    assert_eq!(pool.reserve_a, 1_100_000 - out);
    let after = (pool.reserve_a as u128) * (pool.reserve_b as u128);
    assert!(after >= before);
}

#[test]
fn swap_refusals_leave_pool_unchanged() {
    let (pool, _) = new_pool();

    let mut p = pool;
    assert_eq!(swap::handler(&mut p, 0, 0, true), Err(CpammError::ZeroAmount));
    assert_eq!(p.reserve_a, pool.reserve_a);

    let mut p = pool;
    assert_eq!(swap::handler(&mut p, 100_000, 906_610_894, true), Err(CpammError::SlippageExceeded));
    assert_eq!((p.reserve_a, p.reserve_b), (pool.reserve_a, pool.reserve_b));

    let mut p = pool;
    p.is_active = false;
    assert_eq!(swap::handler(&mut p, 100, 0, true), Err(CpammError::PoolInactive));

    let mut p = pool;
    p.reserve_b = 0;
    assert_eq!(swap::handler(&mut p, 100, 0, true), Err(CpammError::SwapCalculationError));

    let mut p = pool;
    p.reserve_a = u64::MAX - 10;
    assert_eq!(swap::handler(&mut p, 100, 0, true), Err(CpammError::Overflow));
    assert_eq!(p.reserve_a, u64::MAX - 10);
    assert_eq!(p.reserve_b, pool.reserve_b);
}

#[test]
fn add_liquidity_in_ratio() {
    let (mut pool, _) = new_pool();
    let deposit = add_liquidity::handler(&mut pool, 200_000, 5_000_000_000, 20_000_000).unwrap();
    assert_eq!(deposit, (200_000, 2_000_000_000, 20_000_000));
    assert_eq!(pool.reserve_a, 1_200_000);
    assert_eq!(pool.reserve_b, 12_000_000_000);
    assert_eq!(pool.total_lp_supply, 120_000_000);
}

#[test]
fn add_liquidity_refusals() {
    let (pool, _) = new_pool();

    let mut p = pool;
    assert_eq!(add_liquidity::handler(&mut p, 0, 10, 0), Err(CpammError::ZeroAmount));
    let mut p = pool;
    // 1 unit of A is worth 10_000 units of B: 1 of B buys nothing of A
    assert_eq!(add_liquidity::handler(&mut p, 1_000, 1, 0), Err(CpammError::ZeroAmount));
    let mut p = pool;
    assert_eq!(
        add_liquidity::handler(&mut p, 200_000, 5_000_000_000, 20_000_001),
        Err(CpammError::SlippageExceeded)
    );
    assert_eq!(p.total_lp_supply, pool.total_lp_supply);
    let mut p = pool;
    p.is_active = false;
    assert_eq!(add_liquidity::handler(&mut p, 10, 10, 0), Err(CpammError::PoolInactive));
    let mut p = pool;
    p.reserve_a = 0;
    assert_eq!(add_liquidity::handler(&mut p, 10, 10, 0), Err(CpammError::LpCalculationError));
    let mut p = pool;
    p.reserve_a = u64::MAX;
    p.reserve_b = u64::MAX;
    assert_eq!(add_liquidity::handler(&mut p, 10, 10, 0), Err(CpammError::Overflow));
    assert_eq!(p.reserve_a, u64::MAX);
}

#[test]
fn remove_liquidity_partial_and_full() {
    let (mut pool, lp) = new_pool();
    let out = remove_liquidity::handler(&mut pool, 50_000_000, lp).unwrap();
    assert_eq!(out, (500_000, 5_000_000_000));
    assert_eq!(pool.reserve_a, 500_000);
    assert_eq!(pool.reserve_b, 5_000_000_000);
    assert_eq!(pool.total_lp_supply, 50_000_000);
    assert!(pool.is_active);

    let out = remove_liquidity::handler(&mut pool, 50_000_000, 50_000_000).unwrap();
    assert_eq!(out, (500_000, 5_000_000_000));
    assert_eq!(pool.reserve_a, 0);
    assert_eq!(pool.reserve_b, 0);
    assert_eq!(pool.total_lp_supply, 0);
    assert!(!pool.is_active);
    assert_eq!(swap::handler(&mut pool, 10, 0, true), Err(CpammError::PoolInactive));
}

#[test]
fn remove_liquidity_refusals() {
    let (pool, lp) = new_pool();

    let mut p = pool;
    assert_eq!(remove_liquidity::handler(&mut p, 0, lp), Err(CpammError::ZeroAmount));
    let mut p = pool;
    assert_eq!(remove_liquidity::handler(&mut p, 10, 9), Err(CpammError::InsufficientLpTokens));
    let mut p = pool;
    // one LP token is worth less than one unit of A
    assert_eq!(remove_liquidity::handler(&mut p, 1, lp), Err(CpammError::ZeroAmount));
    let mut p = pool;
    assert_eq!(
        remove_liquidity::handler(&mut p, 2 * lp, 2 * lp),
        Err(CpammError::InsufficientReserves)
    );
    assert_eq!(p.total_lp_supply, pool.total_lp_supply);
    let mut p = pool;
    p.is_active = false;
    assert_eq!(remove_liquidity::handler(&mut p, 10, lp), Err(CpammError::PoolInactive));
    let mut p = pool;
    p.total_lp_supply = 0;
    assert_eq!(remove_liquidity::handler(&mut p, 10, lp), Err(CpammError::LpCalculationError));
    let mut p = pool;
    // burning one more than the supply from tiny reserves: amounts fit, supply does not
    p.reserve_a = 1;
    p.reserve_b = 1;
    p.total_lp_supply = 10;
    assert_eq!(remove_liquidity::handler(&mut p, 11, 11), Err(CpammError::Overflow));
    assert_eq!(p.total_lp_supply, 10);
}

#[test]
fn add_then_remove_returns_at_most_deposit() {
    let (mut pool, _) = new_pool();
    let (a, b, lp) = add_liquidity::handler(&mut pool, 333_333, 7_777_777_777, 0).unwrap();
    let (out_a, out_b) = remove_liquidity::handler(&mut pool, lp, lp).unwrap();
    assert!(out_a <= a);
    assert!(out_b <= b);
}

#[test]
fn add_liquidity_refuses_oversized_lp_share() {
    let (mut pool, _) = new_pool();
    pool.reserve_a = 1;
    pool.reserve_b = 1;
    pool.total_lp_supply = u64::MAX;
    assert_eq!(add_liquidity::handler(&mut pool, 2, 2, 0), Err(CpammError::LpCalculationError));
    assert_eq!(pool.total_lp_supply, u64::MAX);
}
