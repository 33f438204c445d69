use haloswap::asset::{AssetInfo, str_precedes};
use haloswap::math::{isqrt, mul_wide, product_gt};
use haloswap::pool::{Provided, compute_provide, compute_withdraw, Withdrawn, PairError};

#[test]
fn integer_square_roots() {
    assert_eq!(isqrt(0), 0);
    assert_eq!(isqrt(1), 1);
    assert_eq!(isqrt(15), 3);
    assert_eq!(isqrt(16), 4);
    assert_eq!(isqrt(1_000_000_000_000), 1_000_000);
    assert_eq!(isqrt(2_000_000_000_000), 1_414_213);
    assert_eq!(isqrt(u128::MAX), u64::MAX);
    assert_eq!(isqrt((u64::MAX as u128) * (u64::MAX as u128)), u64::MAX);
    assert_eq!(isqrt((u64::MAX as u128) * (u64::MAX as u128) - 1), u64::MAX - 1);
}

#[test]
fn wide_products_compare_exactly() {
    assert_eq!(mul_wide(u64::MAX, u64::MAX), (u64::MAX as u128) * (u64::MAX as u128));
    // Both sides exceed 128 bits and differ by one unit of the multiplier.
    assert!(product_gt(u128::MAX, 3, u128::MAX, 2));
    assert!(!product_gt(u128::MAX, 2, u128::MAX, 2));
    assert!(product_gt(u128::MAX, u64::MAX, u128::MAX - 1, u64::MAX));
    assert!(product_gt(1 << 64, 1, 1, 1 << 63));
    assert!(!product_gt(1 << 63, 1, 1, 1 << 63));
    assert!(!product_gt(1 << 63, 2, 1 << 64, 1));
    assert!(product_gt(3, 4, 5, 2));
    assert!(!product_gt(2, 5, 5, 2));
}

#[test]
fn names_order_by_code_point() {
    assert!(str_precedes("", "a"));
    assert!(!str_precedes("a", "a"));
    assert!(str_precedes("ab", "b"));
    assert!(str_precedes("a", "ab"));
    assert!(!str_precedes("b", "ab"));
    assert!(str_precedes("contract1", "uaura"));
    let native = AssetInfo::NativeToken { denom: "x".to_string() };
    let token = AssetInfo::Token { contract_addr: "x".to_string() };
    assert!(native.precedes(&token));
    assert!(!token.precedes(&native));
    assert!(token.precedes(&AssetInfo::NativeToken { denom: "y".to_string() }));
}

#[test]
fn deposit_and_withdrawal_arithmetic() {
    assert_eq!(compute_provide(0, 0, 0, 1_000_000, 1_000_000, None),
        Ok(Provided { deposit0: 1_000_000, deposit1: 1_000_000, share: 1_000_000 }));
    assert_eq!(compute_provide(0, 0, 0, 0, 10_000_000, None), Err(PairError::MinimumDeposit));
    // A deposit that would push the share supply past the largest amount.
    assert_eq!(compute_provide(1, 1, u64::MAX - 1, 2, 2, None), Err(PairError::Overflow));
    assert_eq!(compute_withdraw(10, 20, 3, 1), Ok(Withdrawn { refund0: 3, refund1: 6 }));
    assert_eq!(compute_withdraw(10, 20, 3, 3), Ok(Withdrawn { refund0: 10, refund1: 20 }));
    assert_eq!(compute_withdraw(10, 20, 3, 0), Ok(Withdrawn { refund0: 0, refund1: 0 }));
    assert_eq!(compute_withdraw(0, 0, 0, 0), Ok(Withdrawn { refund0: 0, refund1: 0 }));
    assert_eq!(compute_withdraw(10, 20, 3, 4), Err(PairError::InsufficientBalance));
}
