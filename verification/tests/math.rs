use primitive_types::U256;
use skyward::math::{
    accrued, mul_div_ceil, mul_div_floor, wide_add_mul_div, wide_from_u128, wide_le,
    wide_mul_div_floor, wide_product, wide_to_u128, MULTIPLIER,
};

#[test]
fn mul_div_floor_rounds_down() {
    assert_eq!(mul_div_floor(10, 3, 4), Some(7));
    assert_eq!(mul_div_floor(3600, 1, 2), Some(1800));
    assert_eq!(mul_div_floor(0, 5, 7), Some(0));
}

#[test]
fn mul_div_floor_uses_a_wide_product() {
    assert_eq!(mul_div_floor(u128::MAX, u128::MAX, u128::MAX), Some(u128::MAX));
    assert_eq!(mul_div_floor(u128::MAX, 2, 4), Some(u128::MAX / 2));
}

#[test]
fn mul_div_floor_refuses_zero_divisor_and_overflow() {
    assert_eq!(mul_div_floor(1, 1, 0), None);
    assert_eq!(mul_div_floor(u128::MAX, 2, 1), None);
}

#[test]
fn mul_div_ceil_rounds_up() {
    assert_eq!(mul_div_ceil(10, 3, 4), Some(8));
    assert_eq!(mul_div_ceil(8, 3, 4), Some(6));
    assert_eq!(mul_div_ceil(1, 1, 0), None);
    assert_eq!(mul_div_ceil(u128::MAX, 2, 1), None);
}

#[test]
fn wide_numbers_round_trip() {
    let x: u128 = (7u128 << 64) + 5;
    assert_eq!(wide_from_u128(x), [5, 7, 0, 0]);
    assert_eq!(wide_to_u128([5, 7, 0, 0]), Some(x));
    assert_eq!(wide_to_u128([0, 0, 1, 0]), None);
    assert_eq!(wide_to_u128([0, 0, 0, 1]), None);
}

#[test]
fn accrued_is_the_scaled_difference() {
    let per_share = wide_from_u128(3 * MULTIPLIER);
    let snapshot = wide_from_u128(MULTIPLIER);
    assert_eq!(accrued(per_share, snapshot, 5), Some(10));
    assert_eq!(accrued(snapshot, per_share, 5), None);
    assert_eq!(accrued(per_share, per_share, u128::MAX), Some(0));
}

#[test]
fn wide_product_is_exact() {
    assert_eq!(wide_product(1 << 127, 4), [0, 0, 2, 0]);
    assert_eq!(wide_product(0, u128::MAX), [0, 0, 0, 0]);
    assert_eq!(wide_product(3, 5), [15, 0, 0, 0]);
    let square = U256::from(u128::MAX) * U256::from(u128::MAX);
    assert_eq!(wide_product(u128::MAX, u128::MAX), square.0);
    assert_eq!(square.0, [1, 0, u64::MAX - 1, u64::MAX]);
}

#[test]
fn wide_numbers_compare_by_value() {
    assert!(wide_le([0, 0, 0, 0], [0, 0, 0, 0]));
    assert!(wide_le([u64::MAX, 0, 0, 0], [0, 1, 0, 0]));
    assert!(!wide_le([0, 1, 0, 0], [u64::MAX, 0, 0, 0]));
    assert!(wide_le([5, 5, 5, 5], [5, 5, 5, 5]));
    assert!(!wide_le([0, 0, 0, 1], [u64::MAX, u64::MAX, u64::MAX, 0]));
}

#[test]
fn wide_accumulator_adds_the_quotient() {
    let acc = wide_from_u128(100);
    assert_eq!(wide_add_mul_div(acc, 7, 10, 4), wide_from_u128(117));
    assert_eq!(wide_add_mul_div(acc, 0, 10, 4), acc);
    let big = wide_add_mul_div([0, 0, 1, 0], u128::MAX, 1, 1);
    assert_eq!(big, [u64::MAX, u64::MAX, 1, 0]);
    // 3564 out-units over 4 shares: 891 * 10^38, beyond 128 bits.
    let per_share = wide_add_mul_div([0, 0, 0, 0], 3564, MULTIPLIER, 4);
    assert_eq!(per_share, (U256::from(891u64) * U256::from(MULTIPLIER)).0);
    assert_eq!(accrued(per_share, [0, 0, 0, 0], 4), Some(3564));
    assert_eq!(accrued(per_share, [0, 0, 0, 0], 1), Some(891));
}

#[test]
fn wide_mul_div_floor_has_three_ways_to_fail() {
    assert_eq!(wide_mul_div_floor([0, 0, 1, 0], 6, 4), None);
    assert_eq!(wide_mul_div_floor([0, 0, 1, 0], 6, 1 << 64), Some(6 << 64));
    assert_eq!(wide_mul_div_floor([0, 0, 1, 0], 6, 0), None);
    assert_eq!(wide_mul_div_floor([0, 0, 0, 1], u128::MAX, u128::MAX), None);
    assert_eq!(wide_mul_div_floor([7, 0, 0, 0], 6, 4), Some(10));
}
