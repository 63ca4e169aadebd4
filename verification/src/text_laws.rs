//! What digits say.

use crate::text::{dec_digits, letter_or_digit};
use vstd::prelude::*;

verus! {

/// The number that a text of decimal digits writes.
pub open spec fn dec_value(s: Seq<char>) -> int
    decreases s.len(),
{
    if s.len() == 0 {
        0
    } else {
        dec_value(s.drop_last()) * 10 + (s.last() as u32 - '0' as u32)
    }
}

/// The digits of a number write it: they are decimal digits, without a leading zero, and read as
/// the number.
pub proof fn lemma_digits_write_the_number(n: nat)
    ensures
        dec_value(dec_digits(n)) == n,
        dec_digits(n).len() > 0,
        forall|i: int| 0 <= i < dec_digits(n).len() ==> '0' <= #[trigger] dec_digits(n)[i] <= '9',
        n > 0 ==> dec_digits(n)[0] != '0',
    decreases n,
{
    let s = dec_digits(n);
    reveal_with_fuel(dec_value, 2);
    if n < 10 {
        assert(s.drop_last() =~= Seq::<char>::empty());
        assert(s.last() as u32 == 48 + n);
    } else {
        lemma_digits_write_the_number(n / 10);
        assert(s.drop_last() =~= dec_digits(n / 10));
        assert(s.last() as u32 == 48 + n % 10);
    }
}

/// Different numbers have different digits.
pub proof fn lemma_digits_tell_numbers_apart(a: nat, b: nat)
    ensures
        dec_digits(a) == dec_digits(b) <==> a == b,
{
    lemma_digits_write_the_number(a);
    lemma_digits_write_the_number(b);
}

/// The letters and digits of ASCII.
pub proof fn lemma_ascii_letters_and_digits(c: char)
    requires
        (c as u32) < 0x80,
    ensures
        letter_or_digit(c) <==> ('a' <= c <= 'z' || 'A' <= c <= 'Z' || '0' <= c <= '9'),
{
}

} // verus!
