use primitive_types::{U128, U256, U512};
use primitive_types::Error;

const MAX: u64 = u64::MAX;

#[test]
fn widen_u128_to_u256() {
    let v = U128::from_limbs([5, 7]);
    assert_eq!(U256::from_u128(v), U256::from_limbs([5, 7, 0, 0]));
}

#[test]
fn widen_u128_to_u512() {
    let v = U128::from_limbs([5, 7]);
    assert_eq!(U512::from_u128(v), U512::from_limbs([5, 7, 0, 0, 0, 0, 0, 0]));
}

#[test]
fn widen_u256_to_u512() {
    let v = U256::from_limbs([1, 2, 3, 4]);
    assert_eq!(U512::from_u256(v), U512::from_limbs([1, 2, 3, 4, 0, 0, 0, 0]));
    assert_eq!(U512::from_u256_ref(&v), U512::from_u256(v));
}

#[test]
fn widen_then_narrow_u128_u256() {
    let v = U128::from_limbs([0xdead_beef, MAX]);
    let w = U256::from_u128(v);
    assert_eq!(U128::try_from_u256(w), Ok(v));
}

#[test]
fn widen_then_narrow_u128_u512() {
    let v = U128::from_limbs([11, 13]);
    let w = U512::from_u128(v);
    assert_eq!(U128::try_from_u512(w), Ok(v));
}

#[test]
fn widen_then_narrow_u256_u512() {
    let v = U256::from_limbs([11, 13, 17, 19]);
    let w = U512::from_u256(v);
    assert_eq!(U256::try_from_u512(w), Ok(v));
    assert_eq!(U256::try_from_u512_ref(&w), Ok(v));
}

#[test]
fn narrow_boundary_succeeds_at_max() {
    // Exactly 2^128 - 1 fits in 128 bits.
    let v = U256::from_limbs([MAX, MAX, 0, 0]);
    assert_eq!(U128::try_from_u256(v), Ok(U128::from_limbs([MAX, MAX])));

    // Exactly 2^256 - 1 fits in 256 bits.
    let w = U512::from_limbs([MAX, MAX, MAX, MAX, 0, 0, 0, 0]);
    assert_eq!(U256::try_from_u512(w), Ok(U256::from_limbs([MAX, MAX, MAX, MAX])));
}

#[test]
fn narrow_fails_on_any_high_bit() {
    // The lowest bit at position 128 (2^128 itself) is already too wide.
    let v = U256::from_limbs([0, 0, 1, 0]);
    assert_eq!(U128::try_from_u256(v), Err(Error::Overflow));

    // A bit in the top limb fails too.
    let v = U256::from_limbs([0, 0, 0, 1 << 63]);
    assert_eq!(U128::try_from_u256(v), Err(Error::Overflow));

    // 512 -> 256: any nonzero limb at position 4 or above overflows.
    let w = U512::from_limbs([0, 0, 0, 0, 1, 0, 0, 0]);
    assert_eq!(U256::try_from_u512(w), Err(Error::Overflow));
    assert_eq!(U256::try_from_u512_ref(&w), Err(Error::Overflow));

    // 512 -> 128: a limb in the middle overflows.
    let w = U512::from_limbs([0, 0, 1, 0, 0, 0, 0, 0]);
    assert_eq!(U128::try_from_u512(w), Err(Error::Overflow));
}

#[test]
fn scenario_2_pow_128_minus_1_roundtrip() {
    // A 256-bit value with limbs [MAX, MAX, 0, 0], that is 2^128 - 1,
    // narrows successfully and widens back losslessly.
    let v = U256::from_limbs([MAX, MAX, 0, 0]);
    let narrowed = U128::try_from_u256(v).unwrap();
    assert_eq!(narrowed, U128::from_limbs([MAX, MAX]));
    assert_eq!(U256::from_u128(narrowed), v);
}

#[test]
fn low_u128_reads_low_limbs() {
    let v = U256::from_limbs([3, 4, 5, 6]);
    assert_eq!(v.low_u128(), 3u128 + (4u128 << 64));
}

#[test]
fn zero_and_max_values() {
    assert_eq!(U256::zero(), U256::from_limbs([0, 0, 0, 0]));
    assert_eq!(U256::max_value(), U256::from_limbs([MAX, MAX, MAX, MAX]));
}
