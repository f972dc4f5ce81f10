use primitive_types::{U256, U512};

const MAX: u64 = u64::MAX;

#[test]
fn full_mul_small() {
    let a = U256::from_limbs([3, 0, 0, 0]);
    let b = U256::from_limbs([5, 0, 0, 0]);
    assert_eq!(a.full_mul(b), U512::from_limbs([15, 0, 0, 0, 0, 0, 0, 0]));
}

#[test]
fn full_mul_single_limb_carry() {
    // (2^64 - 1)^2 = 2^128 - 2^65 + 1 = (2^64 - 2) * 2^64 + 1.
    let a = U256::from_limbs([MAX, 0, 0, 0]);
    let b = U256::from_limbs([MAX, 0, 0, 0]);
    assert_eq!(a.full_mul(b), U512::from_limbs([1, MAX - 1, 0, 0, 0, 0, 0, 0]));
}

#[test]
fn full_mul_2_pow_255_squared() {
    // 2^255 * 2^255 = 2^510: nonzero only in the upper half of the limbs.
    let a = U256::from_limbs([0, 0, 0, 1 << 63]);
    let r = a.full_mul(a);
    assert_eq!(r, U512::from_limbs([0, 0, 0, 0, 0, 0, 0, 1 << 62]));
}

#[test]
fn full_mul_max_times_max() {
    // (2^256 - 1)^2 = 2^512 - 2^257 + 1 = (2^256 - 2) * 2^256 + 1.
    let a = U256::from_limbs([MAX, MAX, MAX, MAX]);
    let r = a.full_mul(a);
    assert_eq!(r, U512::from_limbs([1, 0, 0, 0, MAX - 1, MAX, MAX, MAX]));
}

#[test]
fn full_mul_cross_limbs() {
    // (2^64 + 1) * (2^64 + 2) = 2^128 + 3 * 2^64 + 2.
    let a = U256::from_limbs([1, 1, 0, 0]);
    let b = U256::from_limbs([2, 1, 0, 0]);
    assert_eq!(a.full_mul(b), U512::from_limbs([2, 3, 1, 0, 0, 0, 0, 0]));
}
