use primitive_types::U256;

const MAX: u64 = u64::MAX;

fn from_f64(value: f64) -> U256 {
    U256::from_f64_bits(value.to_bits())
}

fn to_f64(value: U256) -> f64 {
    let (low, shift) = value.to_f64_parts();
    (low as f64) * 2.0f64.powi(shift as i32)
}

#[test]
fn from_f64_nan_is_zero() {
    assert_eq!(from_f64(f64::NAN), U256::zero());
}

#[test]
fn from_f64_negative_is_zero() {
    assert_eq!(from_f64(-5.0), U256::zero());
    assert_eq!(from_f64(-0.0), U256::zero());
    assert_eq!(from_f64(f64::NEG_INFINITY), U256::zero());
}

#[test]
fn from_f64_below_one_is_zero() {
    assert_eq!(from_f64(0.5), U256::zero());
    assert_eq!(from_f64(0.0), U256::zero());
    assert_eq!(from_f64(0.999999), U256::zero());
}

#[test]
fn from_f64_one() {
    assert_eq!(from_f64(1.0), U256::from_limbs([1, 0, 0, 0]));
}

#[test]
fn from_f64_infinity_saturates() {
    assert_eq!(from_f64(f64::INFINITY), U256::max_value());
}

#[test]
fn from_f64_2_pow_300_saturates() {
    assert_eq!(from_f64(2.0f64.powi(300)), U256::max_value());
}

#[test]
fn from_f64_truncates_toward_zero() {
    assert_eq!(from_f64(2.5), U256::from_limbs([2, 0, 0, 0]));
    assert_eq!(from_f64(3.99), U256::from_limbs([3, 0, 0, 0]));
    assert_eq!(from_f64(12345.0), U256::from_limbs([12345, 0, 0, 0]));
}

#[test]
fn from_f64_wide_exponents() {
    // 2^100 = 2^(64 + 36): the lowest bit of the second limb's 36th position.
    assert_eq!(from_f64(2.0f64.powi(100)), U256::from_limbs([0, 1 << 36, 0, 0]));
    // 1.5 * 2^100 = 2^100 + 2^99.
    assert_eq!(
        from_f64(1.5 * 2.0f64.powi(100)),
        U256::from_limbs([0, (1 << 36) | (1 << 35), 0, 0])
    );
    // 2^255 lands in the top limb.
    assert_eq!(from_f64(2.0f64.powi(255)), U256::from_limbs([0, 0, 0, 1 << 63]));
    // 2^192 is the lowest bit of the top limb.
    assert_eq!(from_f64(2.0f64.powi(192)), U256::from_limbs([0, 0, 0, 1]));
}

#[test]
fn to_f64_parts_tiers() {
    // Low 128 bits only: no shift.
    let v = U256::from_limbs([3, 4, 0, 0]);
    assert_eq!(v.to_f64_parts(), (3u128 + (4u128 << 64), 0));

    // Third limb occupied: shift by 64. The lowest bit of the third limb is
    // the tier boundary: the value is exactly 2^128.
    let v = U256::from_limbs([0, 0, 1, 0]);
    assert_eq!(v.to_f64_parts(), (1u128 << 64, 64));
    let v = U256::from_limbs([1, 2, 3, 0]);
    assert_eq!(v.to_f64_parts(), (2u128 + (3u128 << 64), 64));

    // Fourth limb occupied: shift by 128.
    let v = U256::from_limbs([0, 0, 0, 1]);
    assert_eq!(v.to_f64_parts(), (1u128 << 64, 128));
    let v = U256::from_limbs([1, 2, 3, 4]);
    assert_eq!(v.to_f64_parts(), (3u128 + (4u128 << 64), 128));
}

#[test]
fn float_roundtrip_below_53_bits() {
    // Integers with fewer than 53 significant bits convert exactly and come
    // back unchanged through the float.
    for v in [1u64, 2, 12345, (1 << 52) - 1, 1 << 52, (1 << 53) - 1] {
        let x = U256::from_limbs([v, 0, 0, 0]);
        let f = to_f64(x);
        assert_eq!(f, v as f64);
        assert_eq!(from_f64(f), x);
    }
}

#[test]
fn to_f64_wide_value_relative_error() {
    // 2^200 + 2^100: the low addend is far below the 52-bit precision, so
    // the float is exactly 2^200 and the relative error is 2^-100, well
    // within the 2^-52 tolerance.
    let v = U256::from_limbs([0, 1 << 36, 0, 1 << 8]);
    assert_eq!(to_f64(v), 2.0f64.powi(200));

    // 2^128 - 1 rounds up to exactly 2^128: relative error about 2^-128.
    let v = U256::from_limbs([MAX, MAX, 0, 0]);
    assert_eq!(to_f64(v), 2.0f64.powi(128));

    // The largest 256-bit value rounds to exactly 2^256.
    assert_eq!(to_f64(U256::max_value()), 2.0f64.powi(256));
}
