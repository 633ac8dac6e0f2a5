//! The arithmetic model of two's-complement sign extension.
//!
//! A mantissa handed to the constructor carries its intended value in its low
//! `t` bits. `sign_extend` says, over mathematical integers, what the
//! bit-level extension step produces: when the sign bit at width `t` is set,
//! the two's-complement value of those low `t` bits; otherwise the mantissa
//! unchanged.

use vstd::arithmetic::power2::{
    lemma2_to64, lemma_pow2_adds, lemma_pow2_pos, lemma_pow2_strictly_increases, pow2,
};
use vstd::arithmetic::div_mod::{lemma_mod_multiples_vanish, lemma_small_mod};
use vstd::bits::{
    lemma_u32_low_bits_mask_is_mod, lemma_u32_pow2_no_overflow, lemma_u32_shl_is_mul,
    low_bits_mask,
};
use vstd::prelude::*;

verus! {

/// The value of `m` after sign extension at width `t`: if the bit at position
/// `t - 1` is set (equivalently, `m`'s low `t` bits read as an unsigned number
/// reach `2^(t-1)`), the two's-complement value of the low `t` bits; otherwise
/// `m` itself, untouched.
pub open spec fn sign_extend(m: int, t: nat) -> int
    recommends
        1 <= t,
{
    if m % (pow2(t) as int) >= pow2((t - 1) as nat) {
        m % (pow2(t) as int) - pow2(t)
    } else {
        m
    }
}

/// `m` is representable in `t`-bit two's complement: all bits from position
/// `t - 1` upward already replicate the sign.
pub open spec fn fits(m: int, t: nat) -> bool
    recommends
        1 <= t,
{
    -(pow2((t - 1) as nat) as int) <= m < pow2((t - 1) as nat)
}

/// Sign extension leaves a mantissa that already fits its width alone.
pub proof fn lemma_sign_extend_identity(m: int, t: nat)
    requires
        1 <= t,
        fits(m, t),
    ensures
        sign_extend(m, t) == m,
{
    let h = pow2((t - 1) as nat) as int;
    let p = pow2(t) as int;
    lemma_pow2_adds((t - 1) as nat, 1);
    lemma2_to64();
    assert(p == 2 * h);
    if m >= 0 {
        lemma_small_mod(m as nat, p as nat);
        assert(m % p == m);
    } else {
        lemma_mod_multiples_vanish(1, m, p);
        lemma_small_mod((m + p) as nat, p as nat);
        assert(m % p == m + p);
    }
}

/// A mantissa presented as its unsigned low-bits encoding (zeros above width
/// `t`) sign-extends to a value that fits width `t`.
pub proof fn lemma_sign_extend_range(m: int, t: nat)
    requires
        1 <= t,
        0 <= m < pow2(t),
    ensures
        fits(sign_extend(m, t), t),
{
    let h = pow2((t - 1) as nat) as int;
    let p = pow2(t) as int;
    lemma_pow2_adds((t - 1) as nat, 1);
    lemma2_to64();
    assert(p == 2 * h);
    lemma_small_mod(m as nat, p as nat);
    assert(m % p == m);
}

/// A value that fits a width also fits any wider width.
pub proof fn lemma_fits_widen(a: int, t1: nat, t2: nat)
    requires
        1 <= t1 <= t2,
        fits(a, t1),
    ensures
        fits(a, t2),
{
    if t1 < t2 {
        lemma_pow2_strictly_increases((t1 - 1) as nat, (t2 - 1) as nat);
    }
}

/// Scaling a `t`-bit value by `2^sh` keeps it within `t + sh` bits.
pub proof fn lemma_scaled_fits(a: int, t: nat, sh: nat)
    requires
        1 <= t,
        fits(a, t),
    ensures
        fits(a * pow2(sh), t + sh),
{
    let p = pow2((t - 1) as nat) as int;
    let s = pow2(sh) as int;
    lemma_pow2_adds((t - 1) as nat, sh);
    lemma_pow2_pos(sh);
    lemma_pow2_pos((t - 1) as nat);
    assert(-(p * s) <= a * s < p * s) by (nonlinear_arith)
        requires
            -p <= a < p,
            s >= 1,
    ;
}

/// Two values of the same width sum into that width plus one guard bit.
pub proof fn lemma_sum_fits(a: int, b: int, t: nat)
    requires
        1 <= t,
        fits(a, t),
        fits(b, t),
    ensures
        fits(a + b, t + 1),
{
    lemma_pow2_adds((t - 1) as nat, 1);
    lemma2_to64();
}

/// The product of a `t1`-bit and a `t2`-bit two's-complement value fits in
/// `t1 + t2` bits, with a bit to spare.
pub proof fn lemma_product_fits(a: int, b: int, t1: nat, t2: nat)
    requires
        1 <= t1,
        1 <= t2,
        fits(a, t1),
        fits(b, t2),
    ensures
        -(pow2((t1 + t2 - 2) as nat) as int) <= a * b <= pow2((t1 + t2 - 2) as nat),
        fits(a * b, t1 + t2),
{
    let p = pow2((t1 - 1) as nat) as int;
    let q = pow2((t2 - 1) as nat) as int;
    let pq = pow2((t1 + t2 - 2) as nat) as int;
    lemma_pow2_adds((t1 - 1) as nat, (t2 - 1) as nat);
    lemma_pow2_pos((t1 - 1) as nat);
    lemma_pow2_pos((t2 - 1) as nat);
    assert(-pq <= a * b <= pq) by (nonlinear_arith)
        requires
            -p <= a < p,
            -q <= b < q,
            p * q == pq,
            p >= 1,
            q >= 1,
    ;
    lemma_pow2_strictly_increases((t1 + t2 - 2) as nat, (t1 + t2 - 1) as nat);
}

/// A power of two below the word width, written as a shift.
pub proof fn lemma_shift_one_is_pow2(t: u32)
    requires
        t < 32,
    ensures
        (1u32 << t) == pow2(t as nat),
{
    lemma_u32_pow2_no_overflow(t as nat);
    lemma_u32_shl_is_mul(1u32, t);
}

/// The same power of two as a positive `i32` shift, for exec code that
/// builds a scale factor.
pub proof fn lemma_i32_shift_one_is_pow2(sh: u32)
    requires
        sh <= 30,
    ensures
        (1i32 << sh) as int == pow2(sh as nat),
{
    lemma_shift_one_is_pow2(sh);
    assert((1i32 << sh) == (1u32 << sh)) by (bit_vector)
        requires
            sh <= 30,
    ;
}

/// The low `t` bits of an `i32`, read as an unsigned number, are its value
/// modulo `2^t`.
pub proof fn lemma_low_bits_mod(m: i32, t: u32)
    requires
        1 <= t <= 31,
    ensures
        ((m as u32) & (low_bits_mask(t as nat) as u32)) as int == (m as int) % (pow2(
            t as nat,
        ) as int),
        low_bits_mask(t as nat) == (1u32 << t) - 1,
{
    let p = pow2(t as nat) as int;
    lemma_shift_one_is_pow2(t);
    lemma_pow2_pos(t as nat);
    lemma_u32_low_bits_mask_is_mod(m as u32, t as nat);
    assert(m >= 0 ==> m as u32 == m) by (bit_vector);
    assert(m < 0 ==> m as u32 == m + 0x1_0000_0000) by (bit_vector);
    if m < 0 {
        lemma_pow2_adds(t as nat, (32 - t) as nat);
        lemma2_to64();
        assert(p * (pow2((32 - t) as nat) as int) == pow2(32));
        lemma_mod_multiples_vanish(pow2((32 - t) as nat) as int, m as int, p);
    }
}

/// The sign-bit test at width `s + 1` (bit `s` of `m`) reads, in arithmetic
/// terms, whether the low `s + 1` bits of `m` reach `2^s`.
pub proof fn lemma_sign_bit_reads_low_bits(m: i32, s: u32)
    requires
        s < 31,
    ensures
        (m & (1i32 << s) != 0) <==> (m as int) % (pow2((s + 1) as nat) as int) >= pow2(
            s as nat,
        ),
{
    let t: u32 = (s + 1) as u32;
    lemma_low_bits_mod(m, t);
    let mask: u32 = (low_bits_mask(t as nat) as u32);
    assert((m & (1i32 << s) != 0) <==> (((m as u32) & mask) >= (1u32 << s))) by (bit_vector)
        requires
            s < 31,
            t == s + 1,
            mask == (1u32 << t) - 1,
    ;
    lemma_shift_one_is_pow2(s);
}

/// Setting every bit from position `s + 1` upward in a mantissa whose sign
/// bit at width `s + 1` is set yields exactly the two's-complement value of
/// its low `s + 1` bits.
pub proof fn lemma_extend_negative(m: i32, s: u32)
    requires
        s < 31,
        m & (1i32 << s) != 0,
    ensures
        (m | ((-1i32) << ((s + 1) as u32))) as int == (m as int) % (pow2((s + 1) as nat) as int)
            - pow2((s + 1) as nat),
{
    let t: u32 = (s + 1) as u32;
    let r: i32 = m | ((-1i32) << t);
    lemma_low_bits_mod(m, t);
    let mask: u32 = (low_bits_mask(t as nat) as u32);
    assert((m | ((-1i32) << t)) as u32 == ((m as u32) & mask) + (0xffff_ffffu32 << t))
        by (bit_vector)
        requires
            s < 31,
            t == s + 1,
            mask == (1u32 << t) - 1,
    ;
    assert((m | ((-1i32) << t)) < 0) by (bit_vector)
        requires
            s < 31,
            t == s + 1,
    ;
    assert(r < 0 ==> r as u32 == r + 0x1_0000_0000) by (bit_vector);
    assert((0xffff_ffffu32 << t) == 0x1_0000_0000 - (1u32 << t)) by (bit_vector)
        requires
            s < 31,
            t == s + 1,
    ;
    lemma_shift_one_is_pow2(t);
}

/// At the full word width the mantissa is already its own sign extension.
pub proof fn lemma_sign_extend_full_width(m: i32)
    ensures
        sign_extend(m as int, 32) == m as int,
{
    let p = pow2(32) as int;
    lemma2_to64();
    if m >= 0 {
        lemma_small_mod(m as nat, p as nat);
    } else {
        lemma_mod_multiples_vanish(1, m as int, p);
        lemma_small_mod((m + p) as nat, p as nat);
    }
}

} // verus!
