//! What objects are: their kinds, their keys and what new functions have.

use crate::object::{
    digits_value, fresh_function, fresh_object, index_of, lookup, private_key, sym_key, Callable,
    Exotic, Object, PropKind,
};
use crate::text::dec_digits;
use crate::text_laws::{dec_value, lemma_digits_write_the_number};
use crate::value::Value;
use vstd::prelude::*;

verus! {

/// A function that was made has a `length` and a `name`, neither of which can be written or
/// enumerated, and both of which can be configured.
pub proof fn lemma_functions_have_a_length_and_a_name(
    o: Object,
    proto: u64,
    call: Callable,
    length: int,
    name: Seq<char>,
)
    requires
        fresh_function(o, proto, call, length, name),
    ensures
        o.call == call,
        o.proto == Some(proto),
        !o.is_constructor,
        o.extensible,
        o.exotic == Exotic::Ordinary,
        o.props@.len() == 2,
        lookup(o.props@, "length"@) matches Some(p) && (p.kind matches PropKind::Data(
            Value::Num(n),
        ) && crate::num::integer_value(n) == Some(length)) && !p.writable && !p.enumerable
            && p.configurable,
        lookup(o.props@, "name"@) matches Some(p) && (p.kind matches PropKind::Data(Value::Str(s))
            && s@ == name) && !p.writable && !p.enumerable && p.configurable,
{
    reveal_strlit("length");
    reveal_strlit("name");
    assert("length"@.len() == 6 && "name"@.len() == 4);
    crate::object::lemma_index_of_key_is(o.props@, "length"@, 0);
    crate::object::lemma_index_of_key_is(o.props@, "name"@, 1);
}

/// A new object is empty and ordinary, and can be extended.
pub proof fn lemma_new_objects_are_empty(o: Object, proto: Option<u64>, key: Seq<char>)
    requires
        fresh_object(o, proto),
    ensures
        o.proto == proto,
        o.extensible,
        o.exotic == Exotic::Ordinary,
        !o.spec_is_fn(),
        !o.is_constructor,
        o.elems@.len() == 0,
        lookup(o.props@, key) is None,
{
}

/// What can be called.
pub proof fn lemma_what_can_be_called(o: Object)
    ensures
        o.call is Native || o.call is User || o.call is Resolver ==> o.spec_is_fn(),
        o.call is Never || o.call is Promise ==> !o.spec_is_fn(),
{
}

/// The keys of symbols start with two at signs, those of private names with a number sign.
pub proof fn lemma_keys_of_symbols_and_private_names(s: Seq<char>)
    ensures
        sym_key(seq!['@', '@'] + s),
        private_key(seq!['#'] + s),
        sym_key(s) ==> s.take(2) == seq!['@', '@'],
        private_key(s) ==> s.take(1) == seq!['#'],
{
    if sym_key(s) {
        assert(s.take(2) =~= seq!['@', '@']);
    }
    if private_key(s) {
        assert(s.take(1) =~= seq!['#']);
    }
}

proof fn lemma_same_value(s: Seq<char>)
    requires
        forall|i: int| 0 <= i < s.len() ==> '0' <= #[trigger] s[i] <= '9',
    ensures
        digits_value(s) == dec_value(s),
    decreases s.len(),
{
    if s.len() > 0 {
        let d = s.drop_last();
        assert forall|i: int| 0 <= i < d.len() implies '0' <= #[trigger] d[i] <= '9' by {
            assert(d[i] == s[i]);
        }
        lemma_same_value(d);
        assert(s.last() == s[s.len() - 1]);
    }
}

/// Digits without a leading zero are those of the number they write.
pub proof fn lemma_digits_are_unique(s: Seq<char>)
    requires
        s.len() > 0,
        forall|i: int| 0 <= i < s.len() ==> '0' <= #[trigger] s[i] <= '9',
        s.len() == 1 || s[0] != '0',
    ensures
        dec_value(s) >= 0,
        s.len() > 1 ==> dec_value(s) >= 10,
        s.len() == 1 ==> dec_value(s) < 10,
        s == dec_digits(dec_value(s) as nat),
    decreases s.len(),
{
    let d = s.drop_last();
    let l = s.last();
    assert(l == s[s.len() - 1]);
    reveal_with_fuel(dec_value, 2);
    if d.len() == 0 {
        assert(dec_value(d) == 0);
        assert(s =~= seq![l]);
        assert(crate::text::digit(dec_value(s) as nat) == l);
    } else {
        assert forall|i: int| 0 <= i < d.len() implies '0' <= #[trigger] d[i] <= '9' by {
            assert(d[i] == s[i]);
        }
        assert(d[0] == s[0]);
        lemma_digits_are_unique(d);
        let n = dec_value(s);
        let v = dec_value(d);
        assert(v >= 1) by {
            if d.len() == 1 {
                assert(d =~= seq![d[0]]);
                assert(d.drop_last() =~= Seq::<char>::empty());
                assert(dec_value(d.drop_last()) == 0);
                assert(d.last() == d[0]);
            }
        }
        assert(n == v * 10 + (l as u32 - 48));
        assert(n / 10 == v && n % 10 == l as u32 - 48);
        assert(s =~= d.push(l));
    }
}

/// The array indices are the decimal texts of the integers below 2^32 - 1, and nothing else.
pub proof fn lemma_indices_are_decimal(key: Seq<char>, n: u32)
    ensures
        index_of(key) == Some(n) <==> n < 0xffff_ffff && key == dec_digits(n as nat),
{
    lemma_digits_write_the_number(n as nat);
    let s = dec_digits(n as nat);
    lemma_same_value(s);
    if n == 0 {
        assert(s.len() == 1);
    }
    if index_of(key) == Some(n) {
        lemma_same_value(key);
        lemma_digits_are_unique(key);
    }
}

} // verus!
