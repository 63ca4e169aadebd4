//! Laws of hexadecimal texts and of the order of packed strings.

use crate::cldr_pack::before;
use crate::value::{
    canonical_hex, digit_value, hex_digit, hex_digits, hex_lower, hex_magnitude, hex_value, is_hex,
    is_hex_digit, strip_zeros,
};
use vstd::prelude::*;

verus! {

/// A digit is worth its place among the sixteen, in either case.
pub proof fn lemma_hex_digits_have_values(c: char, d: nat)
    ensures
        '0' <= c <= '9' ==> digit_value(c) == c as u32 - '0' as u32,
        'a' <= c <= 'f' ==> digit_value(c) == 10 + (c as u32 - 'a' as u32),
        'A' <= c <= 'F' ==> digit_value(hex_lower(c)) == 10 + (c as u32 - 'A' as u32),
        is_hex(c) ==> hex_lower(c) == c && digit_value(c) < 16,
        is_hex_digit(c) <==> '0' <= c <= '9' || 'a' <= c <= 'f' || 'A' <= c <= 'F',
        d < 16 ==> is_hex(hex_digit(d)) && digit_value(hex_digit(d)) == d,
{
}

/// Writing a number in hexadecimal and reading it gives the number, without leading zeros.
pub proof fn lemma_hex_digits_write_the_number(n: nat)
    ensures
        hex_value(hex_digits(n)) == n,
        canonical_hex(hex_digits(n)),
        n > 0 ==> hex_digits(n)[0] != '0',
    decreases n,
{
    reveal_with_fuel(hex_value, 2);
    lemma_hex_digits_have_values('0', n % 16);
    if n < 16 {
        lemma_hex_digits_have_values('0', n);
        assert(hex_digits(n).drop_last() =~= Seq::empty());
    } else {
        lemma_hex_digits_write_the_number(n / 16);
        let init = hex_digits(n / 16);
        let s = hex_digits(n);
        assert(s.drop_last() =~= init);
        assert(s.last() == hex_digit(n % 16));
        assert(n == (n / 16) * 16 + n % 16) by (nonlinear_arith);
        assert forall|i: int| 0 <= i < s.len() implies is_hex(#[trigger] s[i]) by {
            if i < init.len() {
                assert(s[i] == init[i]);
            }
        }
        assert(s[0] == init[0]);
    }
}

proof fn lemma_leading_zero(s: Seq<char>)
    requires
        s.len() > 0,
        s[0] == '0',
    ensures
        hex_value(s) == hex_value(s.drop_first()),
    decreases s.len(),
{
    reveal_with_fuel(hex_value, 2);
    if s.len() == 1 {
        assert(s.drop_last() =~= Seq::empty());
        assert(s.drop_first() =~= Seq::empty());
    } else {
        lemma_leading_zero(s.drop_last());
        assert(s.drop_last().drop_first() =~= s.drop_first().drop_last());
        assert(s.drop_first().last() == s.last());
    }
}

/// Leading zeros are taken away, down to one digit, and the value stays.
pub proof fn lemma_leading_zeros_are_stripped(s: Seq<char>)
    requires
        s.len() > 0,
    ensures
        strip_zeros(s).len() > 0,
        strip_zeros(s).len() > 1 ==> strip_zeros(s)[0] != '0',
        hex_value(strip_zeros(s)) == hex_value(s),
        (forall|i: int| 0 <= i < s.len() ==> is_hex(#[trigger] s[i])) ==> canonical_hex(
            strip_zeros(s),
        ),
    decreases s.len(),
{
    if s.len() > 1 && s[0] == '0' {
        lemma_leading_zeros_are_stripped(s.drop_first());
        lemma_leading_zero(s);
        if forall|i: int| 0 <= i < s.len() ==> is_hex(#[trigger] s[i]) {
            assert forall|i: int| 0 <= i < s.drop_first().len() implies is_hex(
                #[trigger] s.drop_first()[i],
            ) by {
                assert(is_hex(s[i + 1]));
            }
        }
    }
}

/// A hexadecimal text is read when it is nothing but digits, in either case; what comes of it is
/// written without leading zeros and has the digits' value.
pub proof fn lemma_hex_texts_are_read(s: Seq<char>)
    ensures
        hex_magnitude(s) is Some <==> s.len() > 0 && forall|i: int|
            0 <= i < s.len() ==> is_hex_digit(#[trigger] s[i]),
        hex_magnitude(s) matches Some(h) ==> {
            &&& canonical_hex(h)
            &&& hex_value(h) == hex_value(Seq::new(s.len(), |i: int| hex_lower(s[i])))
        },
{
    if hex_magnitude(s) is Some {
        let low = Seq::new(s.len(), |i: int| hex_lower(s[i]));
        assert forall|i: int| 0 <= i < low.len() implies is_hex(#[trigger] low[i]) by {
            assert(is_hex_digit(s[i]));
            lemma_hex_digits_have_values(s[i], 0);
        }
        lemma_leading_zeros_are_stripped(low);
    }
}

/// Strings are ordered by the first byte in which they differ, a string coming before those that
/// it begins.
pub proof fn lemma_strings_are_ordered_bytewise(a: Seq<u8>, b: Seq<u8>, k: int)
    requires
        0 <= k <= a.len(),
        k <= b.len(),
        forall|i: int| 0 <= i < k ==> a[i] == b[i],
    ensures
        k < a.len() && k < b.len() && a[k] < b[k] ==> before(a, b) && !before(b, a),
        k == a.len() && k < b.len() ==> before(a, b) && !before(b, a),
        k == a.len() && k == b.len() ==> !before(a, b) && !before(b, a),
    decreases k,
{
    if k > 0 {
        let c = a.drop_first();
        let d = b.drop_first();
        assert(a[0] == b[0]);
        assert forall|i: int| 0 <= i < k - 1 implies c[i] == d[i] by {
            assert(a[i + 1] == b[i + 1]);
        }
        lemma_strings_are_ordered_bytewise(c, d, k - 1);
    }
}

} // verus!
