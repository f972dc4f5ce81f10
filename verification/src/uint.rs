//! The three fixed-width unsigned integers: 128, 256 and 512 bits, each an
//! ordered array of 64-bit limbs, little-endian by limb index. Widening
//! conversions are lossless, narrowing conversions are checked and fail with
//! `Overflow` exactly when a discarded high limb is nonzero, and the widening
//! multiply of two 256-bit values is an exact 512-bit product.
use vstd::prelude::*;

verus! {

use vstd::arithmetic::power2::pow2;
use crate::Error;
use crate::limbs::{
    limbs_value,
    zero_extend,
    narrow_limbs,
    high_limbs_zero,
    lemma_zero_extend_value,
    lemma_narrow_limbs_value,
    lemma_narrow_of_zero_extend,
    lemma_value_all_max,
    lemma_value_all_zero,
    lemma_value_bound,
    mul_limbs,
};

/// 128-bit unsigned integer: two 64-bit limbs, limb 0 least significant.
#[derive(Debug, Clone, Copy, PartialEq, Eq, Hash)]
pub struct U128 {
    pub limbs: [u64; 2],
}

/// 256-bit unsigned integer: four 64-bit limbs, limb 0 least significant.
#[derive(Debug, Clone, Copy, PartialEq, Eq, Hash)]
pub struct U256 {
    pub limbs: [u64; 4],
}

/// 512-bit unsigned integer: eight 64-bit limbs, limb 0 least significant.
#[derive(Debug, Clone, Copy, PartialEq, Eq, Hash)]
pub struct U512 {
    pub limbs: [u64; 8],
}

impl View for U128 {
    type V = Seq<u64>;

    open spec fn view(&self) -> Seq<u64> {
        self.limbs@
    }
}

impl View for U256 {
    type V = Seq<u64>;

    open spec fn view(&self) -> Seq<u64> {
        self.limbs@
    }
}

impl View for U512 {
    type V = Seq<u64>;

    open spec fn view(&self) -> Seq<u64> {
        self.limbs@
    }
}

impl U128 {
    /// The numeric value: sum of limb[i] * 2^(64*i).
    pub open spec fn value(self) -> nat {
        limbs_value(self@)
    }

    /// Builds the integer from its limbs, limb 0 least significant.
    pub fn from_limbs(limbs: [u64; 2]) -> (r: U128)
        ensures
            r@ == limbs@,
    {
        U128 { limbs }
    }

    /// Checked narrowing from 256 bits: succeeds exactly when both high limbs
    /// are zero, that is when the value fits in 128 bits; the value is kept.
    pub fn try_from_u256(v: U256) -> (r: Result<U128, Error>)
        ensures
            r is Ok <==> v.value() < pow2(128),
            r matches Ok(u) ==> u@ == v@.take(2) && u.value() == v.value(),
            r is Err ==> r == Err::<U128, Error>(Error::Overflow),
    {
        let a = v.limbs[2];
        let b = v.limbs[3];
        proof {
            lemma_narrow_limbs_value(v@, 2);
            assert(((a | b) == 0) == (a == 0 && b == 0)) by (bit_vector);
        }
        if (a | b) != 0 {
            proof {
                assert(!high_limbs_zero(v@, 2));
            }
            Err(Error::Overflow)
        } else {
            let r = U128 { limbs: [v.limbs[0], v.limbs[1]] };
            proof {
                assert(high_limbs_zero(v@, 2));
                assert(r@ =~= v@.take(2));
            }
            Ok(r)
        }
    }

    /// Checked narrowing from 512 bits: succeeds exactly when all six high
    /// limbs are zero, that is when the value fits in 128 bits.
    pub fn try_from_u512(v: U512) -> (r: Result<U128, Error>)
        ensures
            r is Ok <==> v.value() < pow2(128),
            r matches Ok(u) ==> u@ == v@.take(2) && u.value() == v.value(),
            r is Err ==> r == Err::<U128, Error>(Error::Overflow),
    {
        let a = v.limbs[2];
        let b = v.limbs[3];
        let c = v.limbs[4];
        let d = v.limbs[5];
        let e = v.limbs[6];
        let f = v.limbs[7];
        proof {
            lemma_narrow_limbs_value(v@, 2);
            assert(((a | b | c | d | e | f) == 0) == (a == 0 && b == 0 && c == 0 && d == 0 && e
                == 0 && f == 0)) by (bit_vector);
        }
        if (a | b | c | d | e | f) != 0 {
            proof {
                assert(!high_limbs_zero(v@, 2));
            }
            Err(Error::Overflow)
        } else {
            let r = U128 { limbs: [v.limbs[0], v.limbs[1]] };
            proof {
                assert(high_limbs_zero(v@, 2));
                assert(r@ =~= v@.take(2));
            }
            Ok(r)
        }
    }
}

impl U256 {
    /// The numeric value: sum of limb[i] * 2^(64*i).
    pub open spec fn value(self) -> nat {
        limbs_value(self@)
    }

    /// Builds the integer from its limbs, limb 0 least significant.
    pub fn from_limbs(limbs: [u64; 4]) -> (r: U256)
        ensures
            r@ == limbs@,
    {
        U256 { limbs }
    }

    /// The value zero.
    pub fn zero() -> (r: U256)
        ensures
            r.value() == 0,
    {
        let r = U256 { limbs: [0, 0, 0, 0] };
        proof {
            lemma_value_all_zero(r@);
        }
        r
    }

    /// The largest 256-bit value: all bits set.
    pub fn max_value() -> (r: U256)
        ensures
            r.value() == pow2(256) - 1,
    {
        let r = U256 { limbs: [u64::MAX, u64::MAX, u64::MAX, u64::MAX] };
        proof {
            lemma_value_all_max(r@);
        }
        r
    }

    /// The low 128 bits of the value.
    pub fn low_u128(&self) -> (r: u128)
        ensures
            r as nat == limbs_value(self@.take(2)),
    {
        let r = (self.limbs[0] as u128) + (self.limbs[1] as u128) * 0x10000000000000000u128;
        proof {
            crate::limbs::lemma_value_pair_at(self@.take(2), 0, self.limbs[0], self.limbs[1]);
            vstd::arithmetic::power2::lemma2_to64();
            vstd::arithmetic::power2::lemma2_to64_rest();
            assert((self.limbs[0] as nat) * pow2(0) == self.limbs[0] as nat) by (nonlinear_arith)
                requires
                    pow2(0) == 1,
            ;
        }
        r
    }

    /// Lossless widening from 128 bits: the two limbs are copied into the
    /// low-order positions and the high limbs are zero; the value is kept.
    pub fn from_u128(v: U128) -> (r: U256)
        ensures
            r@ == zero_extend(v@, 4),
            r.value() == v.value(),
    {
        let r = U256 { limbs: [v.limbs[0], v.limbs[1], 0, 0] };
        proof {
            assert(r@ =~= zero_extend(v@, 4));
            lemma_zero_extend_value(v@, 4);
        }
        r
    }

    /// Checked narrowing from 512 bits: succeeds exactly when the four high
    /// limbs are zero, that is when the value fits in 256 bits.
    pub fn try_from_u512(v: U512) -> (r: Result<U256, Error>)
        ensures
            r is Ok <==> v.value() < pow2(256),
            r matches Ok(u) ==> u@ == v@.take(4) && u.value() == v.value(),
            r is Err ==> r == Err::<U256, Error>(Error::Overflow),
    {
        let a = v.limbs[4];
        let b = v.limbs[5];
        let c = v.limbs[6];
        let d = v.limbs[7];
        proof {
            lemma_narrow_limbs_value(v@, 4);
            assert(((a | b | c | d) == 0) == (a == 0 && b == 0 && c == 0 && d == 0))
                by (bit_vector);
        }
        if (a | b | c | d) != 0 {
            proof {
                assert(!high_limbs_zero(v@, 4));
            }
            Err(Error::Overflow)
        } else {
            let r = U256 { limbs: [v.limbs[0], v.limbs[1], v.limbs[2], v.limbs[3]] };
            proof {
                assert(high_limbs_zero(v@, 4));
                assert(r@ =~= v@.take(4));
            }
            Ok(r)
        }
    }

    /// Checked narrowing from a borrowed 512-bit value, without consuming it.
    pub fn try_from_u512_ref(v: &U512) -> (r: Result<U256, Error>)
        ensures
            r is Ok <==> v.value() < pow2(256),
            r matches Ok(u) ==> u@ == v@.take(4) && u.value() == v.value(),
            r is Err ==> r == Err::<U256, Error>(Error::Overflow),
    {
        U256::try_from_u512(*v)
    }

    /// Multiplies two 256-bit integers to produce the full 512-bit integer.
    /// The product is exact: no overflow is possible, since the largest
    /// possible product is below 2^512.
    pub fn full_mul(self, other: U256) -> (r: U512)
        ensures
            r.value() == self.value() * other.value(),
    {
        let prod = mul_limbs(self.limbs.as_slice(), other.limbs.as_slice());
        let r = U512 {
            limbs: [
                prod[0],
                prod[1],
                prod[2],
                prod[3],
                prod[4],
                prod[5],
                prod[6],
                prod[7],
            ],
        };
        proof {
            assert(r@ =~= prod@);
        }
        r
    }
}

impl U512 {
    /// The numeric value: sum of limb[i] * 2^(64*i).
    pub open spec fn value(self) -> nat {
        limbs_value(self@)
    }

    /// Builds the integer from its limbs, limb 0 least significant.
    pub fn from_limbs(limbs: [u64; 8]) -> (r: U512)
        ensures
            r@ == limbs@,
    {
        U512 { limbs }
    }

    /// Lossless widening from 128 bits; the value is kept.
    pub fn from_u128(v: U128) -> (r: U512)
        ensures
            r@ == zero_extend(v@, 8),
            r.value() == v.value(),
    {
        let r = U512 { limbs: [v.limbs[0], v.limbs[1], 0, 0, 0, 0, 0, 0] };
        proof {
            assert(r@ =~= zero_extend(v@, 8));
            lemma_zero_extend_value(v@, 8);
        }
        r
    }

    /// Lossless widening from 256 bits; the value is kept.
    pub fn from_u256(v: U256) -> (r: U512)
        ensures
            r@ == zero_extend(v@, 8),
            r.value() == v.value(),
    {
        let r = U512 {
            limbs: [v.limbs[0], v.limbs[1], v.limbs[2], v.limbs[3], 0, 0, 0, 0],
        };
        proof {
            assert(r@ =~= zero_extend(v@, 8));
            lemma_zero_extend_value(v@, 8);
        }
        r
    }

    /// Lossless widening from a borrowed 256-bit value, without consuming it.
    pub fn from_u256_ref(v: &U256) -> (r: U512)
        ensures
            r@ == zero_extend(v@, 8),
            r.value() == v.value(),
    {
        U512::from_u256(*v)
    }
}

/// Widening round-trip, 128 through 256 bits: widening any 128-bit value and
/// narrowing the result back succeeds and returns exactly the original limbs.
pub proof fn lemma_roundtrip_u128_u256(v: U128)
    ensures
        narrow_limbs(zero_extend(v@, 4), 2) == Some(v@),
{
    lemma_narrow_of_zero_extend(v@, 4);
}

/// Widening round-trip, 128 through 512 bits.
pub proof fn lemma_roundtrip_u128_u512(v: U128)
    ensures
        narrow_limbs(zero_extend(v@, 8), 2) == Some(v@),
{
    lemma_narrow_of_zero_extend(v@, 8);
}

/// Widening round-trip, 256 through 512 bits.
pub proof fn lemma_roundtrip_u256_u512(v: U256)
    ensures
        narrow_limbs(zero_extend(v@, 8), 4) == Some(v@),
{
    lemma_narrow_of_zero_extend(v@, 8);
}

/// Every 256-bit value sits below 2^256, so the full product of two of them
/// sits below 2^512: the widening multiply can never overflow.
pub proof fn lemma_full_mul_in_range(a: U256, b: U256)
    ensures
        a.value() * b.value() < pow2(512),
{
    lemma_value_bound(a@);
    lemma_value_bound(b@);
    vstd::arithmetic::power2::lemma_pow2_adds(256, 256);
    vstd::arithmetic::power2::lemma_pow2_pos(256);
    let p = pow2(256) as int;
    vstd::arithmetic::mul::lemma_mul_upper_bound(a.value() as int, p - 1, b.value() as int, p - 1);
    assert((p - 1) * (p - 1) < p * p) by (nonlinear_arith)
        requires
            p >= 1,
    ;
}

} // verus!
