//! Bit-level interop between the 256-bit integer and the 64-bit IEEE-754
//! floating-point format. The conversions are lossy by design and never
//! fail: out-of-range inputs saturate and excess precision is truncated.
//!
//! A double's bit pattern holds, from the top: 1 sign bit, an 11-bit biased
//! exponent field, and 52 fraction bits. For a value at least one, the
//! significand is the fraction with the implicit leading bit set, and the
//! value is significand * 2^(exponent field - 1075), so its integer part is
//! an exact shift of the significand.
use vstd::prelude::*;

verus! {

use vstd::arithmetic::power2::{
    pow2,
    lemma_pow2_adds,
    lemma_pow2_strictly_increases,
    lemma2_to64,
    lemma2_to64_rest,
};
use vstd::arithmetic::mul::{lemma_mul_inequality, lemma_mul_upper_bound};
use vstd::arithmetic::div_mod::{lemma_fundamental_div_mod, lemma_fundamental_div_mod_converse};
use vstd::bits::{
    low_bits_mask,
    lemma_u64_shr_is_div,
    lemma_u64_shl_is_mul,
    lemma_u64_low_bits_mask_is_mod,
};
use crate::limbs::{
    limbs_value,
    high_limbs_zero,
    lemma_value_bound,
    lemma_value_split,
    lemma_value_pair_at,
    lemma_narrow_limbs_value,
};
use crate::uint::U256;

/// The 11-bit biased exponent field of a double's bit pattern.
pub open spec fn f64_bits_exp_field(bits: u64) -> nat {
    ((bits as nat) / pow2(52)) % pow2(11)
}

/// The 52 fraction bits of a double's bit pattern.
pub open spec fn f64_bits_frac(bits: u64) -> nat {
    (bits as nat) % pow2(52)
}

/// The 53-bit significand: the fraction with the implicit leading bit set.
/// Meaningful for values at least one, whose exponent field is nonzero.
pub open spec fn f64_bits_significand(bits: u64) -> nat {
    pow2(52) + f64_bits_frac(bits)
}

/// Whether the sign bit is set.
pub open spec fn f64_bits_is_negative(bits: u64) -> bool {
    bits >= 0x8000000000000000
}

/// Whether the bits denote a not-a-number value: exponent field all ones
/// with a nonzero fraction.
pub open spec fn f64_bits_is_nan(bits: u64) -> bool {
    f64_bits_exp_field(bits) == 0x7ff && f64_bits_frac(bits) != 0
}

/// Whether the double truncates to zero: not-a-number, negative (or negative
/// zero), or a magnitude below one, whose integer part toward zero is zero.
pub open spec fn f64_bits_trunc_to_zero(bits: u64) -> bool {
    f64_bits_is_nan(bits) || f64_bits_is_negative(bits) || f64_bits_exp_field(bits) < 1023
}

/// Whether the double exceeds the largest 256-bit value, positive infinity
/// included: a positive value with unbiased exponent at least 256.
pub open spec fn f64_bits_saturates(bits: u64) -> bool {
    !f64_bits_is_nan(bits) && !f64_bits_is_negative(bits) && f64_bits_exp_field(bits) >= 1279
}

/// The integer part of a positive double with magnitude at least one: the
/// significand m placed at its binary point, m * 2^(e - 1075) for exponent
/// field e, truncated toward zero.
pub open spec fn f64_bits_floor(bits: u64) -> nat {
    let e = f64_bits_exp_field(bits);
    let m = f64_bits_significand(bits);
    if e <= 1075 {
        m / pow2((1075 - e) as nat)
    } else {
        m * pow2((e - 1075) as nat)
    }
}

impl U256 {
    /// Lossy saturating conversion from a double's bit pattern. Not-a-number,
    /// negative values and magnitudes below one give zero; values above the
    /// 256-bit maximum, infinity included, give the maximum; everything else
    /// gives the exact integer part, truncated toward zero.
    pub fn from_f64_bits(bits: u64) -> (r: U256)
        ensures
            f64_bits_trunc_to_zero(bits) ==> r.value() == 0,
            f64_bits_saturates(bits) ==> r.value() == pow2(256) - 1,
            !f64_bits_trunc_to_zero(bits) && !f64_bits_saturates(bits) ==> r.value()
                == f64_bits_floor(bits),
    {
        let shifted = bits >> 52;
        let exp_field = shifted & 0x7ff;
        let frac = bits & 0xfffffffffffff;
        proof {
            lemma2_to64();
            lemma2_to64_rest();
            lemma_u64_shr_is_div(bits, 52);
            assert(low_bits_mask(11) == 0x7ff);
            lemma_u64_low_bits_mask_is_mod(shifted, 11);
            assert(low_bits_mask(52) == 0xfffffffffffff);
            lemma_u64_low_bits_mask_is_mod(bits, 52);
            assert(exp_field as nat == f64_bits_exp_field(bits));
            assert(frac as nat == f64_bits_frac(bits));
        }
        if bits >= 0x8000000000000000 || exp_field < 1023 || (exp_field == 0x7ff && frac != 0) {
            U256::zero()
        } else {
            let m = frac | 0x10000000000000;
            proof {
                assert(frac < 0x10000000000000 ==> (frac | 0x10000000000000) == frac
                    + 0x10000000000000) by (bit_vector);
                assert(m as nat == f64_bits_significand(bits));
            }
            let exponent = exp_field - 1023;
            if exponent <= 52 {
                let k = 52 - exponent;
                let v0 = m >> k;
                let r = U256 { limbs: [v0, 0, 0, 0] };
                proof {
                    lemma_u64_shr_is_div(m, k);
                    lemma_value_pair_at(r@, 0, v0, 0);
                    assert((v0 as nat) * pow2(0) == v0) by (nonlinear_arith)
                        requires
                            pow2(0) == 1,
                    ;
                }
                r
            } else if exponent >= 256 {
                U256::max_value()
            } else {
                let shift = exponent - 52;
                let k = shift / 64;
                let off = shift % 64;
                let p = 1u64 << off;
                proof {
                    lemma_pow2_strictly_increases(off as nat, 64);
                    lemma_u64_shl_is_mul(1, off);
                    lemma_mul_upper_bound(m as int, 0x1fffffffffffff, p as int, u64::MAX as int);
                }
                let wide = (m as u128) * (p as u128);
                let lo = (wide % 0x10000000000000000u128) as u64;
                let hi = (wide / 0x10000000000000000u128) as u64;
                if k == 3 {
                    proof {
                        if off < 11 {
                            lemma_pow2_strictly_increases(off as nat, 11);
                        }
                        lemma_mul_upper_bound(m as int, 0x1fffffffffffff, p as int, 0x800);
                        assert(hi == 0);
                    }
                }
                let limbs: [u64; 4] = if k == 0 {
                    [lo, hi, 0, 0]
                } else if k == 1 {
                    [0, lo, hi, 0]
                } else if k == 2 {
                    [0, 0, lo, hi]
                } else {
                    [0, 0, 0, lo]
                };
                let r = U256 { limbs };
                proof {
                    lemma_fundamental_div_mod(wide as int, 0x10000000000000000);
                    lemma_value_pair_at(r@, k as int, lo, hi);
                    lemma_pow2_adds(64, (64 * k) as nat);
                    lemma_pow2_adds(off as nat, (64 * k) as nat);
                    let pk = pow2((64 * k) as nat) as int;
                    assert((lo as int) * pk + (hi as int) * (0x10000000000000000 * pk) == (
                    wide as int) * pk) by (nonlinear_arith)
                        requires
                            wide as int == (hi as int) * 0x10000000000000000 + (lo as int),
                    ;
                    assert((wide as int) * pk == (m as int) * ((p as int) * pk)) by (nonlinear_arith)
                        requires
                            wide as int == (m as int) * (p as int),
                    ;
                    assert(r.value() == f64_bits_floor(bits));
                }
                r
            }
        }
    }

    /// The integer work of the lossy conversion to a double: picks the lowest
    /// shift out of 0, 64 and 128 bits that brings the value below 2^128, and
    /// returns the shifted value with that shift. The caller promotes the
    /// 128-bit part to a double and scales it by 2^shift, so the top bits of
    /// the value reach the double intact.
    ///
    /// The last clause bounds the loss of the shift itself: what it discards
    /// is at most a 2^-64 fraction of the value, so the tolerance of the
    /// whole conversion is set by the double's 52-bit mantissa alone.
    pub fn to_f64_parts(&self) -> (r: (u128, u32))
        ensures
            r.1 == 0 || r.1 == 64 || r.1 == 128,
            r.0 as nat == self.value() / pow2(r.1 as nat),
            r.1 == 0 <==> self.value() < pow2(128),
            r.1 == 64 <==> pow2(128) <= self.value() < pow2(192),
            self.value() < pow2((r.1 + 128) as nat),
            (r.0 as nat) * pow2(r.1 as nat) <= self.value(),
            (self.value() - (r.0 as nat) * pow2(r.1 as nat)) * pow2(64) <= self.value(),
    {
        let l0 = self.limbs[0];
        let l1 = self.limbs[1];
        let l2 = self.limbs[2];
        let l3 = self.limbs[3];
        proof {
            lemma2_to64();
            lemma2_to64_rest();
            lemma_pow2_adds(64, 64);
            lemma_pow2_adds(128, 64);
            lemma_pow2_adds(192, 64);
            lemma_mul_inequality(l1 as int, u64::MAX as int, 0x10000000000000000);
            lemma_mul_inequality(l2 as int, u64::MAX as int, 0x10000000000000000);
            lemma_mul_inequality(l3 as int, u64::MAX as int, 0x10000000000000000);
            lemma_narrow_limbs_value(self@, 2);
            lemma_narrow_limbs_value(self@, 3);
        }
        if l3 == 0 && l2 == 0 {
            let x = (l0 as u128) + (l1 as u128) * 0x10000000000000000u128;
            proof {
                assert(high_limbs_zero(self@, 2));
                lemma_value_pair_at(self@, 0, l0, l1);
                assert((l0 as nat) * pow2(0) == l0) by (nonlinear_arith)
                    requires
                        pow2(0) == 1,
                ;
                vstd::arithmetic::div_mod::lemma_div_basics(self.value() as int);
                assert((x as nat) * pow2(0) == self.value()) by (nonlinear_arith)
                    requires
                        pow2(0) == 1,
                        x as nat == self.value(),
                ;
                assert((self.value() - (x as nat) * pow2(0)) * pow2(64) == 0) by (nonlinear_arith)
                    requires
                        (x as nat) * pow2(0) == self.value(),
                ;
            }
            (x, 0)
        } else if l3 == 0 {
            let x = (l1 as u128) + (l2 as u128) * 0x10000000000000000u128;
            proof {
                assert(high_limbs_zero(self@, 3));
                assert(!high_limbs_zero(self@, 2));
                lemma_value_split(self@, 1);
                let t = self@.take(1);
                let s = self@.skip(1);
                lemma_value_pair_at(t, 0, l0, 0);
                lemma_value_pair_at(s, 0, l1, l2);
                assert((l0 as nat) * pow2(0) == l0) by (nonlinear_arith)
                    requires
                        pow2(0) == 1,
                ;
                assert((l1 as nat) * pow2(0) == l1) by (nonlinear_arith)
                    requires
                        pow2(0) == 1,
                ;
                lemma_fundamental_div_mod_converse(
                    self.value() as int,
                    pow2(64) as int,
                    limbs_value(s) as int,
                    l0 as int,
                );
                assert(self.value() - (x as nat) * pow2(64) == l0);
                assert((l0 as nat) * pow2(64) < pow2(64) * pow2(64)) by (nonlinear_arith)
                    requires
                        (l0 as nat) < pow2(64),
                        pow2(64) > 0,
                ;
            }
            (x, 64)
        } else {
            let x = (l2 as u128) + (l3 as u128) * 0x10000000000000000u128;
            proof {
                assert(!high_limbs_zero(self@, 3));
                lemma_value_split(self@, 2);
                let t = self@.take(2);
                let s = self@.skip(2);
                lemma_value_bound(t);
                lemma_value_bound(self@);
                lemma_value_pair_at(s, 0, l2, l3);
                assert((l2 as nat) * pow2(0) == l2) by (nonlinear_arith)
                    requires
                        pow2(0) == 1,
                ;
                lemma_fundamental_div_mod_converse(
                    self.value() as int,
                    pow2(128) as int,
                    limbs_value(s) as int,
                    limbs_value(t) as int,
                );
                lemma_pow2_strictly_increases(128, 192);
                assert(self.value() - (x as nat) * pow2(128) == limbs_value(t));
                assert(limbs_value(t) * pow2(64) < pow2(128) * pow2(64)) by (nonlinear_arith)
                    requires
                        limbs_value(t) < pow2(128),
                        pow2(64) > 0,
                ;
            }
            (x, 128)
        }
    }
}

} // verus!
