//! Conversions between numbers of fixed width, and division toward zero.

use vstd::prelude::*;

verus! {

/// The 64 bits of a signed number, read as unsigned.
pub open spec fn as_unsigned(v: i64) -> nat {
    if v < 0 {
        (v + 0x1_0000_0000_0000_0000) as nat
    } else {
        v as nat
    }
}

/// 64 bits read as a signed number.
pub open spec fn as_signed(v: u64) -> int {
    if v > i64::MAX {
        v - 0x1_0000_0000_0000_0000
    } else {
        v as int
    }
}

/// The low 32 bits of a number.
pub open spec fn low32(v: u64) -> u32 {
    (v as nat % 0x1_0000_0000) as u32
}

/// `a / b` without its fraction.
pub open spec fn quotient(a: int, b: int) -> int
    recommends
        b > 0,
{
    if a >= 0 {
        a / b
    } else {
        -((-a) / b)
    }
}

/// Whether `v` fits in 64 bits with a sign.
pub open spec fn fits_i64(v: int) -> bool {
    i64::MIN <= v <= i64::MAX
}

/// A number keeps its bits when it is read as unsigned and back.
pub proof fn signed_read_back(v: i64)
    ensures
        as_unsigned(v) <= u64::MAX,
        as_signed(as_unsigned(v) as u64) == v,
{
}

/// The 64 bits of a signed number, read as unsigned.
pub fn to_unsigned(v: i64) -> (r: u64)
    ensures
        r == as_unsigned(v),
{
    if v < 0 {
        u64::MAX - (-(v + 1)) as u64
    } else {
        v as u64
    }
}

/// 64 bits read as a signed number.
pub fn to_signed(v: u64) -> (r: i64)
    ensures
        r == as_signed(v),
{
    if v > i64::MAX as u64 {
        -((u64::MAX - v) as i64) - 1
    } else {
        v as i64
    }
}

/// The low 32 bits of a number.
pub fn to_low32(v: u64) -> (r: u32)
    ensures
        r == low32(v),
{
    (v % 0x1_0000_0000) as u32
}

/// `a / b` without its fraction.
pub fn div_toward_zero(a: i64, b: u32) -> (r: i64)
    requires
        b > 0,
    ensures
        r == quotient(a as int, b as int),
{
    if a >= 0 {
        (a as u64 / b as u64) as i64
    } else {
        let magnitude: u64 = (-(a + 1)) as u64 + 1;
        let q: u64 = magnitude / b as u64;
        proof {
            assert(q <= magnitude) by (nonlinear_arith)
                requires
                    q == magnitude / b as u64,
                    b >= 1,
            ;
        }
        if q > i64::MAX as u64 {
            i64::MIN
        } else {
            -(q as i64)
        }
    }
}

/// A quotient is off by less than one, toward zero, and has the sign of what
/// was divided.
pub proof fn quotient_is_cut_toward_zero(a: int, b: int)
    requires
        b > 0,
    ensures
        a >= 0 ==> 0 <= quotient(a, b) * b <= a < (quotient(a, b) + 1) * b,
        a <= 0 ==> (quotient(a, b) - 1) * b < a <= quotient(a, b) * b <= 0,
        quotient(-a, b) == -quotient(a, b),
{
    let q = quotient(a, b);
    let m = if a >= 0 {
        a
    } else {
        -a
    };
    vstd::arithmetic::div_mod::lemma_fundamental_div_mod(m, b);
    vstd::arithmetic::div_mod::lemma_mod_bound(m, b);
    let d = m / b;
    vstd::arithmetic::div_mod::lemma_div_pos_is_pos(m, b);
    assert(b * d == d * b) by (nonlinear_arith);
    assert((d + 1) * b == d * b + b) by (nonlinear_arith);
    assert(d * b >= 0) by (nonlinear_arith)
        requires
            d >= 0,
            b > 0,
    ;
    assert((-d) * b == -(d * b)) by (nonlinear_arith);
    assert((-d - 1) * b == -(d * b) - b) by (nonlinear_arith);
    if a == 0 {
        assert(d == 0) by (nonlinear_arith)
            requires
                d * b <= 0,
                b > 0,
                d >= 0,
        ;
    }
}

/// Quotients keep the order of what is divided.
pub proof fn quotient_keeps_order(a: int, c: int, b: int)
    requires
        b > 0,
        a <= c,
    ensures
        quotient(a, b) <= quotient(c, b),
{
    quotient_is_cut_toward_zero(a, b);
    quotient_is_cut_toward_zero(c, b);
    let (qa, qc) = (quotient(a, b), quotient(c, b));
    if qa > qc {
        if a >= 0 {
            assert(qa * b >= (qc + 1) * b) by (nonlinear_arith)
                requires
                    qa >= qc + 1,
                    b > 0,
            ;
        } else if c <= 0 {
            assert((qa - 1) * b >= qc * b) by (nonlinear_arith)
                requires
                    qa - 1 >= qc,
                    b > 0,
            ;
        } else {
            assert(qa <= 0) by (nonlinear_arith)
                requires
                    qa * b <= 0,
                    b > 0,
            ;
            assert(qc >= 0) by (nonlinear_arith)
                requires
                    qc * b >= 0,
                    b > 0,
            ;
        }
    }
}

/// Adding whole divisors to a number that is not negative adds as many to its
/// quotient.
pub proof fn quotient_counts_divisors(a: int, k: int, b: int)
    requires
        b > 0,
        a >= 0,
        k >= 0,
    ensures
        quotient(a + k * b, b) == quotient(a, b) + k,
{
    assert(k * b >= 0) by (nonlinear_arith)
        requires
            k >= 0,
            b > 0,
    ;
    vstd::arithmetic::div_mod::lemma_hoist_over_denominator(a, k, b as nat);
}

/// A number read with a sign, or without one, differs by nothing or by 2^64.
pub proof fn signs_differ_by_all_bits(v: u64, w: i64)
    ensures
        as_signed(v) == v || as_signed(v) == v - 0x1_0000_0000_0000_0000,
        i64::MIN <= as_signed(v) <= i64::MAX,
        as_unsigned(w) == w || as_unsigned(w) == w + 0x1_0000_0000_0000_0000,
        as_unsigned(w) <= u64::MAX,
{
}

/// The low 32 bits of a number are what is left of it above whole multiples of
/// 2^32.
pub proof fn low_bits_are_the_rest(v: u64, high: nat)
    requires
        high * 0x1_0000_0000 <= v < (high + 1) * 0x1_0000_0000,
    ensures
        low32(v) == v - high * 0x1_0000_0000,
{
}

} // verus!
