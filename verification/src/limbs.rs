//! The limb-sequence model: a multi-precision unsigned integer is an ordered
//! sequence of 64-bit limbs, little-endian by limb index (limb 0 is least
//! significant). This module gives the numeric value of such a sequence, the
//! sequence-level meaning of widening and narrowing, the lemmas that relate
//! them, and the verified schoolbook multiplication kernel.
use vstd::prelude::*;

verus! {

use vstd::arithmetic::power2::{
    pow2,
    lemma_pow2_pos,
    lemma_pow2_adds,
    lemma_pow2_strictly_increases,
    lemma2_to64,
    lemma2_to64_rest,
};
use vstd::arithmetic::mul::{
    lemma_mul_inequality,
    lemma_mul_upper_bound,
};

/// Numeric value of a little-endian limb sequence: sum of limb[i] * 2^(64*i).
pub open spec fn limbs_value(s: Seq<u64>) -> nat
    decreases s.len(),
{
    if s.len() == 0 {
        0
    } else {
        limbs_value(s.drop_last()) + (s.last() as nat) * pow2((64 * (s.len() - 1)) as nat)
    }
}

/// A limb sequence of length n denotes a value below 2^(64*n).
pub proof fn lemma_value_bound(s: Seq<u64>)
    ensures
        limbs_value(s) < pow2(64 * s.len()),
    decreases s.len(),
{
    if s.len() == 0 {
        lemma_pow2_pos(0);
    } else {
        let n = (s.len() - 1) as nat;
        lemma_value_bound(s.drop_last());
        lemma_pow2_pos(64 * n);
        lemma_mul_inequality(s.last() as int, u64::MAX as int, pow2(64 * n) as int);
        lemma_pow2_adds(64, 64 * n);
        lemma2_to64();
        lemma2_to64_rest();
        assert(pow2(64 * n) + (u64::MAX as nat) * pow2(64 * n) == pow2(64) * pow2(64 * n))
            by (nonlinear_arith)
            requires pow2(64) == 0x10000000000000000;
    }
}

/// Taking one more limb adds that limb at its positional weight.
pub proof fn lemma_value_take_step(s: Seq<u64>, j: int)
    requires
        0 <= j < s.len(),
    ensures
        limbs_value(s.take(j + 1)) == limbs_value(s.take(j)) + (s[j] as nat) * pow2((64 * j) as nat),
{
    assert(s.take(j + 1).drop_last() =~= s.take(j));
    assert(s.take(j + 1).last() == s[j]);
}

/// The value splits at any position: low part plus shifted high part.
pub proof fn lemma_value_split(s: Seq<u64>, n: int)
    requires
        0 <= n <= s.len(),
    ensures
        limbs_value(s) == limbs_value(s.take(n)) + limbs_value(s.skip(n)) * pow2((64 * n) as nat),
    decreases s.len() - n,
{
    if n == s.len() {
        assert(s.take(n) =~= s);
        assert(s.skip(n) =~= Seq::<u64>::empty());
    } else {
        let d = s.drop_last();
        lemma_value_split(d, n);
        assert(d.take(n) =~= s.take(n));
        assert(d.skip(n) =~= s.skip(n).drop_last());
        let last = s.last() as nat;
        let k = (s.len() - 1) as nat;
        let hk = (s.skip(n).len() - 1) as nat;
        assert(s.skip(n).last() == s.last());
        lemma_pow2_adds((64 * hk) as nat, (64 * n) as nat);
        assert((limbs_value(s.skip(n).drop_last()) + last * pow2(64 * hk)) * pow2((64 * n) as nat)
            == limbs_value(s.skip(n).drop_last()) * pow2((64 * n) as nat) + last * (pow2(64 * hk)
            * pow2((64 * n) as nat)))
            by (nonlinear_arith);
    }
}

/// Replacing one limb changes the value by the weighted difference.
pub proof fn lemma_value_update(s: Seq<u64>, k: int, x: u64)
    requires
        0 <= k < s.len(),
    ensures
        limbs_value(s.update(k, x)) + (s[k] as nat) * pow2((64 * k) as nat)
            == limbs_value(s) + (x as nat) * pow2((64 * k) as nat),
    decreases s.len(),
{
    let u = s.update(k, x);
    if k == s.len() - 1 {
        assert(u.drop_last() =~= s.drop_last());
        assert(u.last() == x);
    } else {
        assert(u.drop_last() =~= s.drop_last().update(k, x));
        assert(u.last() == s.last());
        lemma_value_update(s.drop_last(), k, x);
    }
}

/// A sequence of zero limbs denotes zero.
pub proof fn lemma_value_all_zero(s: Seq<u64>)
    requires
        forall|i: int| 0 <= i < s.len() ==> s[i] == 0,
    ensures
        limbs_value(s) == 0,
    decreases s.len(),
{
    if s.len() > 0 {
        lemma_value_all_zero(s.drop_last());
    }
}

/// Widening at the sequence level: append zero limbs up to length n.
pub open spec fn zero_extend(s: Seq<u64>, n: nat) -> Seq<u64>
    recommends
        s.len() <= n,
{
    s + Seq::new((n - s.len()) as nat, |i: int| 0u64)
}

/// Whether every limb at position n or above is zero.
pub open spec fn high_limbs_zero(s: Seq<u64>, n: nat) -> bool {
    forall|i: int| n <= i < s.len() ==> s[i] == 0
}

/// Narrowing at the sequence level: keep the low n limbs when every higher
/// limb is zero; refuse otherwise.
pub open spec fn narrow_limbs(s: Seq<u64>, n: nat) -> Option<Seq<u64>>
    recommends
        n <= s.len(),
{
    if high_limbs_zero(s, n) {
        Some(s.take(n as int))
    } else {
        None
    }
}

/// Widening preserves the numeric value exactly.
pub proof fn lemma_zero_extend_value(s: Seq<u64>, n: nat)
    requires
        s.len() <= n,
    ensures
        zero_extend(s, n).len() == n,
        limbs_value(zero_extend(s, n)) == limbs_value(s),
{
    let e = zero_extend(s, n);
    lemma_value_split(e, s.len() as int);
    assert(e.take(s.len() as int) =~= s);
    lemma_value_all_zero(e.skip(s.len() as int));
}

/// Narrowing succeeds exactly on the values that fit in the target width,
/// and preserves the value when it succeeds.
pub proof fn lemma_narrow_limbs_value(s: Seq<u64>, n: nat)
    requires
        n <= s.len(),
    ensures
        narrow_limbs(s, n) is Some <==> limbs_value(s) < pow2(64 * n),
        narrow_limbs(s, n) is Some ==> limbs_value(narrow_limbs(s, n).unwrap()) == limbs_value(s),
        narrow_limbs(s, n) is Some ==> narrow_limbs(s, n).unwrap().len() == n,
{
    lemma_value_split(s, n as int);
    if high_limbs_zero(s, n) {
        lemma_value_all_zero(s.skip(n as int));
        lemma_value_bound(s.take(n as int));
    } else {
        let i = choose|i: int| n <= i < s.len() && s[i] != 0;
        lemma_value_split(s, i + 1);
        lemma_value_take_step(s, i);
        lemma_pow2_pos((64 * i) as nat);
        lemma_mul_inequality(1, s[i] as int, pow2((64 * i) as nat) as int);
        if n < i {
            lemma_pow2_strictly_increases(64 * n, (64 * i) as nat);
        }
        assert(limbs_value(s) >= pow2(64 * n));
    }
}

/// A sequence of all-ones limbs denotes the largest value of its width.
pub proof fn lemma_value_all_max(s: Seq<u64>)
    requires
        forall|i: int| 0 <= i < s.len() ==> s[i] == u64::MAX,
    ensures
        limbs_value(s) == pow2(64 * s.len()) - 1,
    decreases s.len(),
{
    lemma2_to64();
    lemma2_to64_rest();
    if s.len() > 0 {
        let n = (s.len() - 1) as nat;
        lemma_value_all_max(s.drop_last());
        lemma_pow2_adds(64, 64 * n);
        lemma_pow2_pos(64 * n);
        assert((pow2(64 * n) - 1) + (u64::MAX as int) * pow2(64 * n) == pow2(64) * pow2(64 * n)
            - 1) by (nonlinear_arith)
            requires
                pow2(64) == 0x10000000000000000,
        ;
    }
}

/// Widening then narrowing returns the original sequence: the appended limbs
/// are zero, so the narrowing succeeds and keeps exactly the original limbs.
pub proof fn lemma_narrow_of_zero_extend(s: Seq<u64>, n: nat)
    requires
        s.len() <= n,
    ensures
        narrow_limbs(zero_extend(s, n), s.len()) == Some(s),
{
    let e = zero_extend(s, n);
    assert(high_limbs_zero(e, s.len()));
    assert(e.take(s.len() as int) =~= s);
}

/// Value of a sequence whose only nonzero limbs sit at positions k and k + 1.
/// The limb above the pair may fall off the end only when it is zero.
pub proof fn lemma_value_pair_at(s: Seq<u64>, k: int, lo: u64, hi: u64)
    requires
        0 <= k < s.len(),
        s[k] == lo,
        k + 1 < s.len() ==> s[k + 1] == hi,
        k + 1 == s.len() ==> hi == 0,
        forall|i: int| 0 <= i < s.len() && i != k && i != k + 1 ==> s[i] == 0,
    ensures
        limbs_value(s) == (lo as nat) * pow2((64 * k) as nat) + (hi as nat) * pow2(
            (64 * (k + 1)) as nat,
        ),
{
    lemma2_to64();
    lemma2_to64_rest();
    lemma_value_split(s, k);
    lemma_value_all_zero(s.take(k));
    let t = s.skip(k);
    lemma_value_split(t, 1);
    assert(limbs_value(Seq::<u64>::empty()) == 0);
    assert(t.take(1) =~= seq![lo]);
    assert(seq![lo].drop_last() =~= Seq::<u64>::empty());
    assert((lo as nat) * pow2(0) == lo) by (nonlinear_arith)
        requires
            pow2(0) == 1,
    ;
    assert(limbs_value(t.take(1)) == lo);
    if k + 1 < s.len() {
        let u = t.skip(1);
        lemma_value_split(u, 1);
        assert(u.take(1) =~= seq![hi]);
        assert(seq![hi].drop_last() =~= Seq::<u64>::empty());
        assert((hi as nat) * pow2(0) == hi) by (nonlinear_arith)
            requires
                pow2(0) == 1,
        ;
        lemma_value_all_zero(u.skip(1));
        assert(limbs_value(u) == hi);
    } else {
        assert(t.skip(1) =~= Seq::<u64>::empty());
    }
    assert(limbs_value(t) == (lo as nat) + (hi as nat) * pow2(64));
    lemma_pow2_adds(64, (64 * k) as nat);
    assert(((lo as nat) + (hi as nat) * pow2(64)) * pow2((64 * k) as nat) == (lo as nat) * pow2(
        (64 * k) as nat) + (hi as nat) * (pow2(64) * pow2((64 * k) as nat))) by (nonlinear_arith);
}

/// Schoolbook multiplication of two little-endian limb sequences. The result
/// has as many limbs as both inputs together, so the product is always exact:
/// no overflow is possible at any width.
pub fn mul_limbs(a: &[u64], b: &[u64]) -> (r: Vec<u64>)
    requires
        a@.len() + b@.len() <= usize::MAX,
    ensures
        r@.len() == a@.len() + b@.len(),
        limbs_value(r@) == limbs_value(a@) * limbs_value(b@),
{
    let n = a.len();
    let m = b.len();
    let mut r: Vec<u64> = Vec::new();
    let mut z: usize = 0;
    while z < n + m
        invariant
            z <= n + m,
            n + m <= usize::MAX,
            r@.len() == z,
            forall|k: int| 0 <= k < z ==> r@[k] == 0,
        decreases n + m - z,
    {
        r.push(0);
        z += 1;
    }
    proof {
        lemma_value_all_zero(r@);
        assert(a@.take(0) =~= Seq::<u64>::empty());
        assert(limbs_value(a@.take(0)) * limbs_value(b@) == 0) by (nonlinear_arith)
            requires
                limbs_value(a@.take(0)) == 0,
        ;
    }
    let mut i: usize = 0;
    while i < n
        invariant
            i <= n,
            n == a@.len(),
            m == b@.len(),
            n + m <= usize::MAX,
            r@.len() == n + m,
            limbs_value(r@) == limbs_value(a@.take(i as int)) * limbs_value(b@),
            forall|k: int| i + m <= k < n + m ==> r@[k] == 0,
        decreases n - i,
    {
        let ghost ai = a@[i as int] as int;
        let ghost big_a = limbs_value(a@.take(i as int)) as int;
        let ghost big_b = limbs_value(b@) as int;
        let ghost pi = pow2((64 * i) as nat) as int;
        let mut carry: u64 = 0;
        let mut j: usize = 0;
        proof {
            assert(b@.take(0) =~= Seq::<u64>::empty());
            assert(ai * limbs_value(b@.take(0)) * pi == 0) by (nonlinear_arith)
                requires
                    limbs_value(b@.take(0)) == 0,
            ;
        }
        while j < m
            invariant
                i < n,
                j <= m,
                n == a@.len(),
                m == b@.len(),
                n + m <= usize::MAX,
                r@.len() == n + m,
                ai == a@[i as int] as int,
                big_a == limbs_value(a@.take(i as int)) as int,
                big_b == limbs_value(b@) as int,
                pi == pow2((64 * i) as nat) as int,
                limbs_value(r@) + (carry as int) * pow2((64 * (i + j)) as nat)
                    == big_a * big_b + ai * limbs_value(b@.take(j as int)) * pi,
                forall|k: int| i + m <= k < n + m ==> r@[k] == 0,
            decreases m - j,
        {
            let av = a[i];
            let bv = b[j];
            let rv = r[i + j];
            proof {
                lemma_mul_upper_bound(av as int, u64::MAX as int, bv as int, u64::MAX as int);
            }
            let t: u128 = (av as u128) * (bv as u128) + (rv as u128) + (carry as u128);
            let lo: u64 = (t % 0x10000000000000000u128) as u64;
            let hi: u64 = (t / 0x10000000000000000u128) as u64;
            let ghost old_r = r@;
            let ghost old_carry = carry as int;
            r[i + j] = lo;
            carry = hi;
            proof {
                let p = pow2((64 * (i + j)) as nat) as int;
                let q = pow2((64 * (i + j + 1)) as nat) as int;
                let pj = pow2((64 * j) as nat) as int;
                let bj = limbs_value(b@.take(j as int)) as int;
                let bj1 = limbs_value(b@.take(j as int + 1)) as int;
                let rv_old = old_r[i + j] as int;
                lemma_value_update(old_r, i + j, lo);
                lemma_pow2_adds(64, (64 * (i + j)) as nat);
                lemma_pow2_adds((64 * j) as nat, (64 * i) as nat);
                lemma_value_take_step(b@, j as int);
                lemma2_to64();
                lemma2_to64_rest();
                assert((t as int) * p == (av as int) * (bv as int) * p + rv_old * p + old_carry
                    * p) by (nonlinear_arith)
                    requires
                        t as int == (av as int) * (bv as int) + rv_old + old_carry,
                ;
                assert((t as int) * p == (hi as int) * q + (lo as int) * p) by (nonlinear_arith)
                    requires
                        t as int == (hi as int) * 0x10000000000000000 + (lo as int),
                        q == 0x10000000000000000 * p,
                ;
                assert(ai * bj1 * pi == ai * bj * pi + ai * ((bv as int) * pj) * pi)
                    by (nonlinear_arith)
                    requires
                        bj1 == bj + (bv as int) * pj,
                ;
                assert(ai * ((bv as int) * pj) * pi == (av as int) * (bv as int) * p)
                    by (nonlinear_arith)
                    requires
                        p == pj * pi,
                        ai == av as int,
                ;
                assert(limbs_value(r@) + (hi as int) * q == big_a * big_b + ai * bj1 * pi);
            }
            j += 1;
        }
        let idx = i + m;
        let ghost old_r = r@;
        r[idx] = carry;
        proof {
            let p = pow2((64 * (i + m)) as nat) as int;
            lemma_value_update(old_r, idx as int, carry);
            lemma_value_take_step(a@, i as int);
            assert(b@.take(m as int) =~= b@);
            assert(limbs_value(a@.take(i as int + 1)) * big_b == big_a * big_b + ai * big_b * pi)
                by (nonlinear_arith)
                requires
                    limbs_value(a@.take(i as int + 1)) == big_a + ai * pi,
                    big_b >= 0,
            ;
            assert(limbs_value(r@) == limbs_value(a@.take(i as int + 1)) * limbs_value(b@));
        }
        i += 1;
    }
    proof {
        assert(a@.take(n as int) =~= a@);
    }
    r
}

} // verus!
