use cpa::wide::{mul_wide, product_less};

#[test]
fn small_products_have_no_high_half() {
    let r = mul_wide(6, 7);
    assert_eq!((r.high, r.low), (0, 42));
    let r = mul_wide(0, u128::MAX);
    assert_eq!((r.high, r.low), (0, 0));
    let r = mul_wide(1 << 63, 1 << 64);
    assert_eq!((r.high, r.low), (0, 1 << 127));
}

#[test]
fn large_products_carry_into_the_high_half() {
    let r = mul_wide(1 << 64, 1 << 64);
    assert_eq!((r.high, r.low), (1, 0));
    // (2^128 - 1)^2 = (2^128 - 2) * 2^128 + 1
    let r = mul_wide(u128::MAX, u128::MAX);
    assert_eq!((r.high, r.low), (u128::MAX - 1, 1));
    // (2^128 - 1) * 2 = 1 * 2^128 + (2^128 - 2)
    let r = mul_wide(u128::MAX, 2);
    assert_eq!((r.high, r.low), (1, u128::MAX - 1));
    // (2^64 + 3) * (2^64 + 5) = 2^128 + 8 * 2^64 + 15
    let r = mul_wide((1 << 64) + 3, (1 << 64) + 5);
    assert_eq!((r.high, r.low), (1, (8 << 64) + 15));
    // (2^96 - 1) * (2^96 + 1) = 2^192 - 1
    let r = mul_wide((1 << 96) - 1, (1 << 96) + 1);
    assert_eq!((r.high, r.low), ((1 << 64) - 1, u128::MAX));
}

#[test]
fn products_compare_beyond_128_bits() {
    assert!(product_less(2, 3, 7, 1));
    assert!(!product_less(7, 1, 2, 3));
    assert!(!product_less(2, 3, 3, 2));
    assert!(product_less(u128::MAX, u128::MAX - 1, u128::MAX, u128::MAX));
    assert!(!product_less(u128::MAX, u128::MAX, u128::MAX, u128::MAX - 1));
    assert!(product_less(u128::MAX - 2, u128::MAX, u128::MAX - 1, u128::MAX - 1));
}
