use soroban_templates::common::{apply_bps_fee, make_pair_key, saturating_mul_u32, BPS_DENOMINATOR};

#[test]
fn bps_fee_values() {
    assert_eq!(apply_bps_fee(500, 50), Some(2));
    assert_eq!(apply_bps_fee(10_000, 50), Some(50));
    assert_eq!(apply_bps_fee(1_000, 250), Some(25));
    assert_eq!(apply_bps_fee(1_000, BPS_DENOMINATOR), Some(1_000));
    assert_eq!(apply_bps_fee(-999, 100), Some(-9));
    assert_eq!(apply_bps_fee(i128::MAX, 2), None);
}

#[test]
fn pair_keys_are_distinct() {
    assert_eq!(make_pair_key(0, 0), 0);
    assert_eq!(make_pair_key(1, 2), (1u128 << 64) | 2);
    assert_ne!(make_pair_key(1, 2), make_pair_key(2, 1));
    assert_ne!(make_pair_key(u64::MAX, 0), make_pair_key(0, u64::MAX));
}

#[test]
fn saturating_mul_caps() {
    assert_eq!(saturating_mul_u32(3, 4), 12);
    assert_eq!(saturating_mul_u32(u32::MAX, 2), u32::MAX);
    assert_eq!(saturating_mul_u32(0, u32::MAX), 0);
}
