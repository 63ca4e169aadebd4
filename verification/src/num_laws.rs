//! What the parts of a Number say: its exact value, its rounding and its integers.

use crate::num::{
    count_of, exponent, fraction, integer_part, integer_value, nan, negative, num_eq, significand,
    to_integer, zero, FRAC, SIGN,
};
use vstd::arithmetic::power2::{
    lemma2_to64, lemma2_to64_rest, lemma_pow2_adds, lemma_pow2_pos, lemma_pow2_strictly_increases,
    pow2,
};
use vstd::prelude::*;

verus! {

/// The magnitude of a finite Number in units of 2^-1074, of which every Number is a multiple.
pub open spec fn units(bits: u64) -> int {
    if exponent(bits) == 0 {
        fraction(bits)
    } else {
        (FRAC + fraction(bits)) * pow2((exponent(bits) - 1) as nat)
    }
}

/// One, in units.
pub open spec fn one() -> int {
    pow2(1074) as int
}

proof fn lemma_units(bits: u64)
    requires
        exponent(bits) != 2047,
    ensures
        integer_part(bits) * one() <= units(bits),
        units(bits) < (integer_part(bits) + 1) * one(),
        0 <= integer_part(bits),
        exponent(bits) >= 1075 ==> units(bits) == integer_part(bits) * one(),
        1023 <= exponent(bits) < 1075 ==> (units(bits) == integer_part(bits) * one()
            <==> significand(bits) % (pow2((1075 - exponent(bits)) as nat) as int) == 0),
        exponent(bits) < 1023 ==> integer_part(bits) == 0,
        units(bits) == 0 <==> zero(bits),
{
    let e = exponent(bits);
    let f = fraction(bits);
    let m = FRAC + f;
    crate::num::lemma_integer_part(bits);
    lemma_pow2_pos(1074);
    lemma2_to64();
    lemma2_to64_rest();
    assert(0 <= e < 2048);
    assert(0 <= f < FRAC);
    if e == 0 {
        lemma_pow2_strictly_increases(52, 1074);
        assert(bits as int == (bits as int / FRAC as int) * FRAC + f) by {
            vstd::arithmetic::div_mod::lemma_fundamental_div_mod(bits as int, FRAC as int);
        }
        let q = bits as int / FRAC as int;
        assert(q % 2048 == 0);
        assert(0 <= q < 4096);
        assert(q == 0 || q == 2048);
    } else {
        let p = pow2((e - 1) as nat) as int;
        lemma_pow2_pos((e - 1) as nat);
        assert(m * p > 0) by (nonlinear_arith)
            requires
                m > 0,
                p > 0,
        ;
        assert(!zero(bits)) by {
            assert(exponent(0) == 0 && exponent(SIGN) == 0);
        }
        if e >= 1075 {
            let k = pow2((e - 1075) as nat) as int;
            lemma_pow2_adds((e - 1075) as nat, 1074);
            assert(m * p == (m * k) * one()) by (nonlinear_arith)
                requires
                    p == k * one(),
            ;
            assert((m * k) * one() < (m * k + 1) * one()) by (nonlinear_arith)
                requires
                    one() > 0,
            ;
        } else if e >= 1023 {
            let k = pow2((1075 - e) as nat) as int;
            lemma_pow2_pos((1075 - e) as nat);
            lemma_pow2_adds((e - 1) as nat, (1075 - e) as nat);
            assert(one() == p * k);
            let i = m / k;
            let r = m % k;
            vstd::arithmetic::div_mod::lemma_fundamental_div_mod(m, k);
            vstd::arithmetic::div_mod::lemma_mod_bound(m, k);
            assert(m * p == i * (p * k) + r * p) by (nonlinear_arith)
                requires
                    m == k * i + r,
            ;
            assert(0 <= r * p < p * k) by (nonlinear_arith)
                requires
                    0 <= r < k,
                    p > 0,
            ;
            assert((i + 1) * (p * k) == i * (p * k) + p * k) by (nonlinear_arith);
            assert(r * p == 0 <==> r == 0) by (nonlinear_arith)
                requires
                    p > 0,
                    r >= 0,
            ;
        } else {
            lemma_pow2_adds(53, (e - 1) as nat);
            if 53 + e - 1 < 1074 {
                lemma_pow2_strictly_increases((53 + e - 1) as nat, 1074);
            }
            assert(m * p < pow2(53) * p) by (nonlinear_arith)
                requires
                    m < pow2(53),
                    p > 0,
            ;
        }
    }
}

/// The integer part of a finite Number is the integer below its magnitude.
pub proof fn lemma_integer_part_rounds_down(bits: u64)
    requires
        exponent(bits) != 2047,
    ensures
        integer_part(bits) * one() <= units(bits) < (integer_part(bits) + 1) * one(),
        to_integer(bits) == if negative(bits) {
            -integer_part(bits)
        } else {
            integer_part(bits)
        },
{
    lemma_units(bits);
}

/// A Number is an integer exactly where its magnitude is a whole number of ones, and then it is
/// that integer with its sign; `NaN` and the infinities are none.
pub proof fn lemma_integers_are_whole(bits: u64, x: int)
    ensures
        integer_value(bits) == Some(x) <==> exponent(bits) != 2047 && units(bits) == (if x < 0 {
            -x
        } else {
            x
        }) * one() && (x < 0 ==> negative(bits)) && (x > 0 ==> !negative(bits)),
{
    lemma_pow2_pos(1074);
    let o = one();
    let a = if x < 0 {
        -x
    } else {
        x
    };
    if exponent(bits) != 2047 {
        lemma_units(bits);
        let i = integer_part(bits);
        assert(i * o <= a * o < (i + 1) * o ==> i == a) by (nonlinear_arith)
            requires
                o > 0,
        ;
        assert(0 * o == 0) by (nonlinear_arith);
        assert(a * o == 0 <==> a == 0) by (nonlinear_arith)
            requires
                o > 0,
        ;
        assert(i * o == 0 <==> i == 0) by (nonlinear_arith)
            requires
                o > 0,
        ;
    }
}

/// An integer is rounded to itself.
pub proof fn lemma_integers_round_to_themselves(bits: u64)
    ensures
        integer_value(bits) matches Some(x) ==> to_integer(bits) == x,
{
    lemma_pow2_pos(1074);
    if integer_value(bits) is Some && zero(bits) {
        assert(exponent(0) == 0 && exponent(SIGN) == 0);
    }
}

/// Not a number, and so equal to nothing; the zeros are equal, and any other Number is equal to
/// itself alone.
pub proof fn lemma_equal_numbers(a: u64, b: u64)
    ensures
        num_eq(a, b) == num_eq(b, a),
        nan(a) ==> !num_eq(a, b),
        !nan(a) ==> num_eq(a, a),
        num_eq(0, SIGN),
        num_eq(a, b) && a != b ==> (a == 0 && b == SIGN) || (a == SIGN && b == 0),
        nan(a) <==> exponent(a) == 2047 && a as int % 0x10_0000_0000_0000 != 0,
{
    assert(exponent(0) == 0 && exponent(SIGN) == 0);
}

/// A count is the integer part, from nothing up to the largest count.
pub proof fn lemma_counts_are_clamped(bits: u64)
    ensures
        nan(bits) || negative(bits) ==> count_of(bits) == 0,
        !negative(bits) && exponent(bits) == 2047 && !nan(bits) ==> count_of(bits) == usize::MAX,
        !negative(bits) && exponent(bits) != 2047 ==> count_of(bits) == if to_integer(bits)
            <= usize::MAX {
            to_integer(bits)
        } else {
            usize::MAX as int
        },
{
}

} // verus!
