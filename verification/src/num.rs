//! Numbers by their IEEE 754 double-precision bit patterns: a sign bit, eleven exponent bits and
//! fifty-two fraction bits.

use vstd::arithmetic::power2::{
    lemma2_to64, lemma2_to64_rest, lemma_pow2_adds, lemma_pow2_pos, lemma_pow2_strictly_increases, pow2,
};
use vstd::prelude::*;

verus! {

pub const SIGN: u64 = 0x8000_0000_0000_0000;

pub const FRAC: u64 = 0x10_0000_0000_0000;

pub open spec fn negative(bits: u64) -> bool {
    bits >= SIGN
}

/// The biased exponent.
pub open spec fn exponent(bits: u64) -> int {
    (bits as int / FRAC as int) % 2048
}

pub open spec fn fraction(bits: u64) -> int {
    bits as int % FRAC as int
}

/// The significand of a normal number, as an integer.
pub open spec fn significand(bits: u64) -> int {
    FRAC + fraction(bits)
}

pub open spec fn nan(bits: u64) -> bool {
    exponent(bits) == 2047 && fraction(bits) != 0
}

/// `+0` or `-0`.
pub open spec fn zero(bits: u64) -> bool {
    bits == 0 || bits == SIGN
}

/// Strict equality of Numbers: `NaN` equals nothing, and the zeros equal each other.
pub open spec fn num_eq(a: u64, b: u64) -> bool {
    !nan(a) && !nan(b) && (a == b || (zero(a) && zero(b)))
}

/// The magnitude of the Number, where it is an integer.
pub open spec fn integer_magnitude(bits: u64) -> Option<int> {
    let e = exponent(bits);
    if zero(bits) {
        Some(0)
    } else if e < 1023 || e == 2047 {
        None
    } else if e >= 1075 {
        Some(significand(bits) * pow2((e - 1075) as nat))
    } else if significand(bits) % (pow2((1075 - e) as nat) as int) == 0 {
        Some(significand(bits) / (pow2((1075 - e) as nat) as int))
    } else {
        None
    }
}

/// The Number's value, where it is an integer.
pub open spec fn integer_value(bits: u64) -> Option<int> {
    match integer_magnitude(bits) {
        None => None,
        Some(m) => Some(if negative(bits) {
            -m
        } else {
            m
        }),
    }
}

pub fn is_nan(bits: u64) -> (r: bool)
    ensures
        r == nan(bits),
{
    (bits / FRAC) % 2048 == 2047 && bits % FRAC != 0
}

pub fn is_zero(bits: u64) -> (r: bool)
    ensures
        r == zero(bits),
{
    bits == 0 || bits == SIGN
}

/// Strict equality of Numbers.
pub fn same_number(a: u64, b: u64) -> (r: bool)
    ensures
        r == num_eq(a, b),
{
    !is_nan(a) && !is_nan(b) && (a == b || (is_zero(a) && is_zero(b)))
}

/// `2^n`.
fn power_of_two(n: u64) -> (r: u64)
    requires
        n < 64,
    ensures
        r == pow2(n as nat),
        r >= 1,
{
    let mut r: u64 = 1;
    let mut i: u64 = 0;
    proof {
        lemma2_to64();
    }
    while i < n
        invariant
            i <= n < 64,
            r == pow2(i as nat),
            r >= 1,
            r <= 0x8000_0000_0000_0000,
        decreases n - i,
    {
        proof {
            lemma_pow2_adds(i as nat, 1);
            lemma2_to64();
            if i + 1 < 63 {
                lemma_pow2_strictly_increases((i + 1) as nat, 63);
            }
            assert(pow2(63) == 0x8000_0000_0000_0000) by {
                lemma_pow2_adds(31, 32);
            }
        }
        r = r * 2;
        i = i + 1;
    }
    r
}

/// The Number's value, where it is an integer of magnitude below `2^63`.
pub fn exact_int(bits: u64) -> (r: Option<i64>)
    ensures
        match integer_value(bits) {
            None => r is None,
            Some(v) => if -0x8000_0000_0000_0000 < v < 0x8000_0000_0000_0000 {
                r == Some(v as i64)
            } else {
                r is None
            },
        },
{
    if is_zero(bits) {
        return Some(0);
    }
    let e: u64 = (bits / FRAC) % 2048;
    if e < 1023 || e == 2047 {
        return None;
    }
    let m: u64 = FRAC + bits % FRAC;
    let neg: bool = bits >= SIGN;
    let v: i64;
    if e >= 1075 {
        if e >= 1086 {
            proof {
                lemma_pow2_pos((e - 1075) as nat);
                lemma2_to64();
                if e > 1086 {
                    lemma_pow2_strictly_increases(11, (e - 1075) as nat);
                }
                let p = pow2((e - 1075) as nat);
                assert(m * p >= 0x10_0000_0000_0000 * 2048) by (nonlinear_arith)
                    requires
                        m >= 0x10_0000_0000_0000,
                        p >= 2048,
                ;
            }
            return None;
        }
        let p: u64 = power_of_two(e - 1075);
        proof {
            lemma2_to64();
            if e < 1085 {
                lemma_pow2_strictly_increases((e - 1075) as nat, 10);
            }
            assert(m * p <= 0x1f_ffff_ffff_ffff * 1024) by (nonlinear_arith)
                requires
                    m <= 0x1f_ffff_ffff_ffff,
                    p <= 1024,
            ;
        }
        v = (m * p) as i64;
    } else {
        let p: u64 = power_of_two(1075 - e);
        if m % p != 0 {
            return None;
        }
        proof {
            assert(0 <= m / p <= m) by (nonlinear_arith)
                requires
                    p >= 1,
            ;
        }
        v = (m / p) as i64;
    }
    if neg {
        Some(-v)
    } else {
        Some(v)
    }
}

/// The position of the highest set bit.
fn top_bit(n: u64) -> (e: u64)
    requires
        0 < n < 0x20_0000_0000_0000,
    ensures
        e <= 52,
        pow2(e as nat) <= n < pow2((e + 1) as nat),
{
    let mut e: u64 = 0;
    proof {
        lemma2_to64();
        lemma2_to64_rest();
    }
    while e < 52 && power_of_two(e + 1) <= n
        invariant
            e <= 52,
            pow2(e as nat) <= n,
        decreases 52 - e,
    {
        e = e + 1;
    }
    proof {
        if e == 52 {
            assert(pow2(53) == 0x20_0000_0000_0000);
        }
    }
    e
}

/// The Number of an integer below 2^53.
#[verifier::spinoff_prover]
pub fn from_int(n: u64) -> (r: u64)
    requires
        n < 0x20_0000_0000_0000,
    ensures
        integer_value(r) == Some(n as int),
        r < SIGN,
        n == 0 ==> r == 0,
{
    if n == 0 {
        return 0;
    }
    let e: u64 = top_bit(n);
    let unit: u64 = power_of_two(52 - e);
    let low: u64 = power_of_two(e);
    proof {
        lemma2_to64();
        lemma2_to64_rest();
        lemma_pow2_adds(e as nat, (52 - e) as nat);
        assert(low * unit == FRAC);
        lemma_pow2_adds(e as nat, 1);
        assert(pow2((e + 1) as nat) == 2 * low);
        assert((n - low) * unit < low * unit) by (nonlinear_arith)
            requires
                low <= n < 2 * low,
                unit > 0,
        ;
        assert((n - low) * unit >= 0) by (nonlinear_arith)
            requires
                low <= n,
                unit > 0,
        ;
    }
    let frac: u64 = (n - low) * unit;
    let r: u64 = (1023 + e) * FRAC + frac;
    proof {
        assert(r as int / FRAC as int == 1023 + e) by (nonlinear_arith)
            requires
                r == (1023 + e) * FRAC + frac,
                0 <= frac < FRAC,
                FRAC == 0x10_0000_0000_0000,
        ;
        assert(fraction(r) == frac);
        assert(exponent(r) == 1023 + e);
        assert(significand(r) == n * unit) by (nonlinear_arith)
            requires
                significand(r) == FRAC + frac,
                FRAC == low * unit,
                frac == (n - low) * unit,
        ;
        assert((n * unit) % (unit as int) == 0 && (n * unit) / (unit as int) == n) by {
            vstd::arithmetic::div_mod::lemma_div_by_multiple(n as int, unit as int);
            vstd::arithmetic::div_mod::lemma_mod_multiples_basic(n as int, unit as int);
        }
        assert(!zero(r));
        if e == 52 {
            assert(unit == 1);
            assert(pow2(0) == 1);
            assert(n * unit == n) by (nonlinear_arith)
                requires
                    unit == 1,
            ;
            assert(significand(r) * pow2(0) == n) by (nonlinear_arith)
                requires
                    significand(r) == n,
                    pow2(0) == 1,
            ;
            assert(integer_magnitude(r) == Some(n as int));
        } else {
            assert(pow2((1075 - exponent(r)) as nat) == unit);
            assert(significand(r) % (unit as int) == 0);
            assert(significand(r) / (unit as int) == n);
            assert(1023 <= exponent(r) < 1075);
            assert(integer_magnitude(r) == Some(n as int));
        }
        assert(!negative(r));
    }
    r
}

/// The magnitude of the Number's integer part; 0 for `NaN` and the infinities.
pub open spec fn integer_part(bits: u64) -> int {
    let e = exponent(bits);
    if e < 1023 || e == 2047 {
        0
    } else if e >= 1075 {
        significand(bits) * pow2((e - 1075) as nat)
    } else {
        significand(bits) / (pow2((1075 - e) as nat) as int)
    }
}

pub proof fn lemma_integer_part(bits: u64)
    ensures
        integer_part(bits) >= 0,
{
    let e = exponent(bits);
    let m = significand(bits);
    if e >= 1075 {
        let p = pow2((e - 1075) as nat) as int;
        assert(m * p >= 0) by (nonlinear_arith)
            requires
                m >= 0,
                p >= 0,
        ;
    } else if e >= 1023 {
        lemma_pow2_pos((1075 - e) as nat);
        let p = pow2((1075 - e) as nat) as int;
        assert(m / p >= 0) by (nonlinear_arith)
            requires
                m >= 0,
                p > 0,
        ;
    }
}

/// The Number rounded toward zero; 0 for `NaN` and the infinities.
pub open spec fn to_integer(bits: u64) -> int {
    if negative(bits) {
        -integer_part(bits)
    } else {
        integer_part(bits)
    }
}

/// The Number rounded toward zero, modulo 2^32.
pub fn to_uint32(bits: u64) -> (r: u32)
    ensures
        r == to_integer(bits) % 0x1_0000_0000,
{
    let e: u64 = (bits / FRAC) % 2048;
    let neg: bool = bits >= SIGN;
    if e < 1023 || e == 2047 {
        return 0;
    }
    let m: u64 = FRAC + bits % FRAC;
    let low: u64;
    if e >= 1075 {
        let k: u64 = e - 1075;
        if k >= 32 {
            low = 0;
            proof {
                lemma2_to64();
                lemma_pow2_adds(32, (k - 32) as nat);
                let q = pow2((k - 32) as nat) as int;
                assert(m * pow2(k as nat) == (m * q) * 0x1_0000_0000) by (nonlinear_arith)
                    requires
                        pow2(k as nat) == 0x1_0000_0000 * q,
                ;
                vstd::arithmetic::div_mod::lemma_mod_multiples_basic(m * q, 0x1_0000_0000);
            }
        } else {
            let p: u64 = power_of_two(k);
            proof {
                lemma2_to64();
                if k < 31 {
                    lemma_pow2_strictly_increases(k as nat, 31);
                }
                assert((m % 0x1_0000_0000) * p <= 0xffff_ffff * 0x8000_0000) by (nonlinear_arith)
                    requires
                        m % 0x1_0000_0000 <= 0xffff_ffff,
                        p <= 0x8000_0000,
                ;
                vstd::arithmetic::div_mod::lemma_mul_mod_noop_left(
                    m as int,
                    p as int,
                    0x1_0000_0000,
                );
            }
            low = ((m % 0x1_0000_0000) * p) % 0x1_0000_0000;
        }
    } else {
        let p: u64 = power_of_two(1075 - e);
        low = (m / p) % 0x1_0000_0000;
    }
    assert(low == integer_part(bits) % 0x1_0000_0000);
    if neg {
        let r: u64 = (0x1_0000_0000 - low) % 0x1_0000_0000;
        proof {
            let x = integer_part(bits);
            assert((-x) % 0x1_0000_0000 == r) by {
                assert(low == x % 0x1_0000_0000);
                assert(r == (0x1_0000_0000 - x % 0x1_0000_0000) % 0x1_0000_0000);
                let q = x / 0x1_0000_0000;
                assert(-x == (0x1_0000_0000 - low) + (-(q + 1)) * 0x1_0000_0000);
            }
        }
        r as u32
    } else {
        low as u32
    }
}

/// The Number rounded toward zero, as a count: 0 for `NaN` and below zero, and the largest count
/// where it is larger.
pub open spec fn count_of(bits: u64) -> int {
    if negative(bits) || nan(bits) {
        0
    } else if exponent(bits) == 2047 || integer_part(bits) > usize::MAX {
        usize::MAX as int
    } else {
        integer_part(bits)
    }
}

/// The Number as a count.
pub fn to_count(bits: u64) -> (r: usize)
    ensures
        r == count_of(bits),
{
    let e: u64 = (bits / FRAC) % 2048;
    if bits >= SIGN || is_nan(bits) {
        return 0;
    }
    if e == 2047 {
        return usize::MAX;
    }
    if e < 1023 {
        return 0;
    }
    let m: u64 = FRAC + bits % FRAC;
    let n: u64;
    if e >= 1087 {
        proof {
            lemma2_to64();
            if e > 1087 {
                lemma_pow2_strictly_increases(12, (e - 1075) as nat);
            }
            let p = pow2((e - 1075) as nat);
            assert(m * p >= 0x10_0000_0000_0000 * 4096) by (nonlinear_arith)
                requires
                    m >= 0x10_0000_0000_0000,
                    p >= 4096,
            ;
        }
        return usize::MAX;
    } else if e >= 1075 {
        let p: u64 = power_of_two(e - 1075);
        proof {
            lemma2_to64();
            if e < 1086 {
                lemma_pow2_strictly_increases((e - 1075) as nat, 11);
            }
            assert(m * p <= 0x1f_ffff_ffff_ffff * 2048) by (nonlinear_arith)
                requires
                    m <= 0x1f_ffff_ffff_ffff,
                    p <= 2048,
            ;
        }
        n = m * p;
    } else {
        let p: u64 = power_of_two(1075 - e);
        n = m / p;
    }
    if n > usize::MAX as u64 {
        usize::MAX
    } else {
        n as usize
    }
}

/// `u` as a signed integer of the same bits.
pub fn as_signed(u: u32) -> (r: i32)
    ensures
        r == if u < 0x8000_0000 {
            u as int
        } else {
            u - 0x1_0000_0000
        },
{
    if u < 0x8000_0000 {
        u as i32
    } else {
        ((u - 0x8000_0000) as i32) - 0x7fff_ffff - 1
    }
}

} // verus!
