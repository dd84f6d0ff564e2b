use ics101::math::{
    adjust_precision, calc_minted_shares_given_single_asset_in, gcd, mul_div_floor, pow10, pow_fp,
    root_fp, solve_constant_function_invariant, wide_le, wide_mul, SCALE,
};
use ics101::error::ContractError;

#[test]
fn wide_mul_small_and_large() {
    assert_eq!(wide_mul(0, 12345), (0, 0));
    assert_eq!(wide_mul(7, 9), (0, 63));
    // (2^127) * 2 == 2^128: exactly one in the high half.
    let (hi, lo) = wide_mul(1u128 << 127, 2);
    assert_eq!((hi, lo), (1, 0));
    let (hi, lo) = wide_mul(u128::MAX, u128::MAX);
    // (2^128 - 1)^2 == 2^256 - 2^129 + 1.
    assert_eq!(hi, u128::MAX - 1);
    assert_eq!(lo, 1);
}

#[test]
fn wide_le_orders_pairs() {
    assert!(wide_le(0, 5, 0, 5));
    assert!(wide_le(0, u128::MAX, 1, 0));
    assert!(!wide_le(1, 0, 0, u128::MAX));
}

#[test]
fn mul_div_floor_exact_and_overflow() {
    assert_eq!(mul_div_floor(6, 7, 2), Some(21));
    assert_eq!(mul_div_floor(7, 3, 2), Some(10));
    assert_eq!(mul_div_floor(u128::MAX, u128::MAX, u128::MAX), Some(u128::MAX));
    assert_eq!(mul_div_floor(u128::MAX, 2, 1), None);
    assert_eq!(mul_div_floor(0, u128::MAX, 3), Some(0));
}

#[test]
fn gcd_euclid() {
    assert_eq!(gcd(50, 50), 50);
    assert_eq!(gcd(20, 80), 20);
    assert_eq!(gcd(0, 100), 100);
    assert_eq!(gcd(100, 0), 100);
    assert_eq!(gcd(17, 5), 1);
}

#[test]
fn pow10_values() {
    assert_eq!(pow10(0), Some(1));
    assert_eq!(pow10(18), Some(SCALE));
    assert_eq!(pow10(38), Some(100_000_000_000_000_000_000_000_000_000_000_000_000u128));
    assert_eq!(pow10(39), None);
}

#[test]
fn adjust_precision_rescales() {
    // Scaling down truncates the integer remainder.
    assert_eq!(adjust_precision(123_456, 6, 3), Ok(123));
    assert_eq!(adjust_precision(12, 3, 6), Ok(12_000));
    assert_eq!(adjust_precision(55, 9, 9), Ok(55));
    assert_eq!(adjust_precision(u128::MAX, 0, 1), Err(ContractError::Overflow));
    assert_eq!(adjust_precision(0, 0, 60), Ok(0));
    assert_eq!(adjust_precision(7, 60, 0), Ok(0));
}

#[test]
fn fixed_point_pow_and_root() {
    // (1/2)^2 == 1/4 on the grid.
    assert_eq!(pow_fp(SCALE / 2, 2), Some(SCALE / 4));
    assert_eq!(pow_fp(SCALE, 100), Some(SCALE));
    // Square root of 1/4 is 1/2, found exactly.
    assert_eq!(root_fp(SCALE / 4, 2), SCALE / 2);
    assert_eq!(root_fp(SCALE, 7), SCALE);
    // With exponent one, the truncating root is exact.
    assert_eq!(root_fp(0, 1), 0);
    assert_eq!(root_fp(12345, 1), 12345);
}

#[test]
fn invariant_solver_equal_weights_is_exact() {
    // out = 100 * (1 - 100/110), as a raw 18-decimal value.
    let r = solve_constant_function_invariant(100, 110, 50, 100, 50).unwrap();
    let base = 100u128 * SCALE / 110;
    assert_eq!(r, 100 * (SCALE - base));
    assert_eq!(r, 9_090_909_090_909_091_000);
}

#[test]
fn invariant_solver_undefined_cases() {
    assert_eq!(
        solve_constant_function_invariant(100, 0, 50, 100, 50),
        Err(ContractError::MathUndefined)
    );
    assert_eq!(
        solve_constant_function_invariant(100, 110, 50, 100, 0),
        Err(ContractError::MathUndefined)
    );
}

#[test]
fn single_asset_share_calc() {
    // Zero supply or zero balance leaves the formula undefined.
    assert_eq!(
        calc_minted_shares_given_single_asset_in(10, 0, 50, 0, 100),
        Err(ContractError::MathUndefined)
    );
    assert_eq!(
        calc_minted_shares_given_single_asset_in(10, 100, 50, 0, 0),
        Err(ContractError::MathUndefined)
    );
    // Full weight, no fee: depositing 21 on 100 with supply 200 mints
    // floor(200 * 21/100) shares and charges no fee.
    let (minted, fee) = calc_minted_shares_given_single_asset_in(21, 100, 100, 0, 200).unwrap();
    assert_eq!(fee, 0);
    assert_eq!(minted, 42);
    // Weight 50, fee 10000 (100%): half the input is fee-charged.
    let (_minted, fee) = calc_minted_shares_given_single_asset_in(100, 1000, 50, 10000, 500)
        .unwrap();
    assert_eq!(fee, 50);
}
