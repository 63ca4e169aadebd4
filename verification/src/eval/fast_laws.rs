//! Laws of the fast paths: iteration over arrays, enumeration, and copying of properties.

use crate::eval::fastpaths::{
    dense_values, element, indices_below, intrinsics_of, iter_step, iterator_index, iterator_state,
    length_of, no_return, past, pristine, return_absent, revalued, slot_in, values_kind, with_value,
    Intrinsics, IterStep, Recorded,
};
use crate::eval::props_fast::{
    copies, copyable, elements, enum_keys, enum_names, enumerable_kind, lets_create, living,
    named_keys, own_index, plain_keys, program_of, regexp_named, sets_create, silent_chain,
    silent_proto, some_index_key, string_key, KeyLists, MAX_ASSIGN_CHAIN, MAX_CHAIN,
};
use crate::num::{exponent, integer_part, integer_value, nan, negative, zero};
use crate::num_laws::{lemma_integer_part_rounds_down, lemma_integers_are_whole, one, units};
use crate::object::{
    data_of, index_of, lemma_index_of_key, lemma_index_of_key_is, lemma_put_reads_back, lookup,
    private_key, sym_key, Exotic, Heap, Named, Object, PropKind, Property,
};
use crate::value::Value;
use vstd::arithmetic::power2::lemma_pow2_pos;
use vstd::prelude::*;

verus! {

// ---- prototypes -------------------------------------------------------------------------------

/// The object `n` prototypes up.
pub open spec fn upward(h: Heap, cur: Option<u64>, n: nat) -> Option<u64>
    decreases n,
{
    match cur {
        None => None,
        Some(o) => if n == 0 {
            Some(o)
        } else {
            upward(h, h.at(o).proto, (n - 1) as nat)
        },
    }
}

// ---- array iteration --------------------------------------------------------------------------

/// The slot of a key is where it stands.
pub proof fn lemma_slots_are_places(s: Named, key: Seq<char>, i: int)
    requires
        s.len() <= usize::MAX,
    ensures
        slot_in(s, key) matches Some(k) ==> {
            &&& k < s.len()
            &&& s[k as int].0 == key
            &&& 0 <= i < k ==> s[i].0 != key
        },
        slot_in(s, key) is None && 0 <= i < s.len() ==> s[i].0 != key,
{
    lemma_index_of_key(s, key);
}

/// The intrinsics are known once the realm has recorded all of them.
pub proof fn lemma_intrinsics_are_recorded(array_proto: u64, r: Recorded)
    ensures
        intrinsics_of(array_proto, r) is Some <==> r.values is Some && r.next is Some && r.aip
            is Some,
        intrinsics_of(array_proto, r) matches Some(i) ==> {
            &&& i.array_proto == array_proto
            &&& r.values == Some(i.values)
            &&& r.next == Some(i.next)
            &&& r.aip == Some(i.aip)
            &&& i.step_enabled == r.step_enabled
        },
{
}

/// An array iterates as built in while nothing on the way was replaced: the array itself has no
/// property of the iteration key, its prototype is the array prototype and still holds the
/// built-in there, and the iterator prototype still holds the built-in `next`.
pub proof fn lemma_pristine_arrays_iterate_as_built_in(
    h: Heap,
    i: Intrinsics,
    key: Seq<char>,
    arr: u64,
    view: bool,
)
    requires
        h.has(arr),
        h.has(i.array_proto),
        h.has(i.aip),
    ensures
        pristine(h, i, key, arr, view) ==> {
            &&& h.at(arr).proto == Some(i.array_proto)
            &&& lookup(h.at(arr).props@, key) is None
            &&& lookup(h.at(i.array_proto).props@, key) matches Some(p) && p.kind == PropKind::Data(
                Value::Obj(i.values),
            )
            &&& lookup(h.at(i.aip).props@, "next"@) matches Some(p) && p.kind == PropKind::Data(
                Value::Obj(i.next),
            )
            &&& !view ==> h.at(arr).exotic is Array && h.at(arr).ic_plain
            &&& view ==> h.at(arr).exotic is SplitView
            &&& h.at(i.array_proto).ic_plain
            &&& h.at(i.aip).ic_plain
            &&& h.at(i.aip).exotic is Ordinary
        },
        !pristine(h, i, key, arr, view) ==> {
            ||| h.at(arr).proto != Some(i.array_proto)
            ||| lookup(h.at(arr).props@, key) is Some
            ||| lookup(h.at(i.array_proto).props@, key) is None
            ||| lookup(h.at(i.array_proto).props@, key)->0.kind != PropKind::Data(
                Value::Obj(i.values),
            )
            ||| lookup(h.at(i.aip).props@, "next"@) is None
            ||| lookup(h.at(i.aip).props@, "next"@)->0.kind != PropKind::Data(Value::Obj(i.next))
            ||| !view && !(h.at(arr).exotic is Array && h.at(arr).ic_plain)
            ||| view && !(h.at(arr).exotic is SplitView)
            ||| !h.at(i.array_proto).ic_plain
            ||| !h.at(i.aip).ic_plain
            ||| !(h.at(i.aip).exotic is Ordinary)
        },
{
}

/// Closing an iterator does nothing when no object up its chain, four at the most, has a
/// `return` method.
pub proof fn lemma_nothing_to_return_to(h: Heap, cur: Option<u64>, left: nat, k: nat)
    requires
        return_absent(h, cur, left),
        upward(h, cur, k) is Some,
    ensures
        k < left,
        ({
            let o = upward(h, cur, k)->0;
            &&& h.has(o)
            &&& lookup(h.at(o).props@, "return"@) is None
            &&& h.at(o).ic_plain
            &&& h.at(o).exotic is Ordinary
        }),
    decreases k,
{
    if k > 0 {
        lemma_nothing_to_return_to(h, h.at(cur->0).proto, (left - 1) as nat, (k - 1) as nat);
    }
}

/// Where a `return` may be found, some object up the chain has one or is not an ordinary object,
/// or the chain is longer than is looked at.
pub proof fn lemma_something_to_return_to(h: Heap, cur: Option<u64>, left: nat) -> (k: nat)
    requires
        !return_absent(h, cur, left),
    ensures
        k <= left,
        upward(h, cur, k) is Some,
        k == left || ({
            let o = upward(h, cur, k)->0;
            !h.has(o) || !h.at(o).ic_plain || !(h.at(o).exotic is Ordinary) || lookup(
                h.at(o).props@,
                "return"@,
            ) is Some
        }),
    decreases left,
{
    reveal_with_fuel(upward, 2);
    let o = cur->0;
    if left == 0 || !h.has(o) || !h.at(o).ic_plain || h.at(o).exotic != Exotic::Ordinary || lookup(
        h.at(o).props@,
        "return"@,
    ) is Some {
        0
    } else {
        let k = lemma_something_to_return_to(h, h.at(o).proto, (left - 1) as nat);
        assert(upward(h, cur, k + 1) == upward(h, h.at(o).proto, k));
        k + 1
    }
}

/// Whether a close is skipped is asked of the iterator prototype, over four objects.
pub proof fn lemma_closing_asks_the_iterator_prototype(h: Heap, i: Option<Intrinsics>)
    ensures
        i is None ==> !no_return(h, i),
        i matches Some(x) ==> no_return(h, i) == return_absent(h, Some(x.aip), 4),
{
}

/// Writing a value through a key keeps the property's attributes and every other property, and
/// adds none.
pub proof fn lemma_values_are_replaced_in_place(s: Named, key: Seq<char>, v: Value, other: Seq<char>)
    ensures
        lookup(s, key) is None ==> with_value(s, key, v) == s,
        lookup(s, key) matches Some(p) ==> {
            &&& lookup(with_value(s, key, v), key) matches Some(q)
            &&& q.kind == PropKind::Data(v)
            &&& q.writable == p.writable
            &&& q.enumerable == p.enumerable
            &&& q.configurable == p.configurable
        },
        other != key ==> lookup(with_value(s, key, v), other) == lookup(s, other),
        with_value(s, key, v).len() == s.len(),
{
    if let Some(p) = lookup(s, key) {
        lemma_index_of_key(s, key);
        lemma_put_reads_back(s, key, revalued(p, v), key);
        lemma_put_reads_back(s, key, revalued(p, v), other);
    }
}

/// An element that can be read at once is data that is there and not a hole.
pub proof fn lemma_elements_are_data(o: Object, i: int, v: Value)
    ensures
        element(o, i) == Some(v) <==> {
            &&& 0 <= i < o.elems@.len()
            &&& o.elems@[i] is Some
            &&& o.elems@[i]->0.kind == PropKind::Data(v)
            &&& !(v is Empty)
        },
        length_of(o) is Some <==> (lookup(o.props@, "length"@) is Some && (lookup(
            o.props@,
            "length"@,
        )->0.kind matches PropKind::Data(Value::Num(_)))),
{
}

/// An index is past a length when it is not less, as numbers compare.
pub proof fn lemma_past_compares_numbers(i: int, len: u64)
    requires
        0 <= i,
    ensures
        nan(len) ==> !past(i, len),
        negative(len) && !nan(len) ==> past(i, len),
        !negative(len) && exponent(len) == 2047 ==> !past(i, len),
        !negative(len) && exponent(len) != 2047 ==> (past(i, len) <==> i * one() >= units(len)),
{
    if !negative(len) && exponent(len) != 2047 {
        lemma_pow2_pos(1074);
        let u = one();
        match integer_value(len) {
            Some(n) => {
                lemma_integers_are_whole(len, n);
                if n < 0 {
                    assert(false);
                }
                assert(i >= n <==> i * u >= n * u) by (nonlinear_arith)
                    requires
                        u > 0,
                ;
            },
            None => {
                lemma_integer_part_rounds_down(len);
                let p = integer_part(len);
                if i > p {
                    assert(i * u >= (p + 1) * u) by (nonlinear_arith)
                        requires
                            u > 0,
                            i >= p + 1,
                    ;
                } else {
                    assert(i * u <= p * u) by (nonlinear_arith)
                        requires
                            u > 0,
                            i <= p,
                    ;
                    lemma_integers_are_whole(len, i);
                }
            },
        }
    }
}

/// A length that is an integer of an array has as many indices below it, and those are the ones
/// it is not past; no other length but zero has any count.
pub proof fn lemma_lengths_count_their_indices(len: u64, n: int)
    ensures
        zero(len) ==> indices_below(len) == Some(0int),
        nan(len) ==> indices_below(len) is None,
        negative(len) && !zero(len) ==> indices_below(len) is None,
        !zero(len) && exponent(len) == 2047 ==> indices_below(len) is None,
        integer_value(len) == Some(n) && 0 <= n <= 0xffff_ffff ==> indices_below(len) == Some(n),
        integer_value(len) == Some(n) && n > 0xffff_ffff ==> indices_below(len) is None,
        indices_below(len) matches Some(k) ==> 0 <= k <= 0xffff_ffff,
{
    lemma_pow2_pos(1074);
    if integer_value(len) == Some(n) && exponent(len) != 2047 && !zero(len) {
        lemma_integers_are_whole(len, n);
        lemma_integer_part_rounds_down(len);
        let u = one();
        let p = integer_part(len);
        let e = exponent(len);
        let sig = crate::num::significand(len);
        lemma_pow2_pos((e - 1) as nat);
        let w = vstd::arithmetic::power2::pow2((e - 1) as nat) as int;
        assert(sig * w > 0) by (nonlinear_arith)
            requires
                sig > 0,
                w > 0,
        ;
        assert(e >= 1023);
        assert(units(len) == sig * w);
        if n == 0 {
            assert(n * u == 0) by (nonlinear_arith)
                requires
                    n == 0,
            ;
            assert(false);
        }
        assert(n > 0 ==> !negative(len));
        if n >= 0 {
            assert(p == n) by (nonlinear_arith)
                requires
                    u > 0,
                    p * u <= n * u,
                    n * u < (p + 1) * u,
            ;
        }
    }
    if exponent(len) != 2047 && !zero(len) && integer_value(len) is Some {
        let m = integer_value(len)->0;
        lemma_integers_are_whole(len, m);
        lemma_integer_part_rounds_down(len);
    }
    crate::num::lemma_integer_part(len);
}

/// An iterator's place is a small natural number in a property that can be written.
pub proof fn lemma_iterators_keep_their_place(s: Named, i: int)
    ensures
        iterator_index(s) == Some(i) <==> {
            &&& lookup(s, "__ai_index"@) matches Some(p)
            &&& p.writable
            &&& p.kind matches PropKind::Data(Value::Num(n))
            &&& integer_value(n) == Some(i)
            &&& 0 <= i < 0xffff_ffff
        },
        values_kind(s) ==> iterator_state(s),
        iterator_state(s) <==> lookup(s, "__ai_target"@) is Some && lookup(s, "__ai_index"@) is Some
            && lookup(s, "__ai_kind"@) is Some,
{
}

/// A step over an array gives the element at the iterator's place while there is one, and is
/// done past the length; an iterator that was done stays so. What is not a plain iterator over
/// values of a plain array is left to the built-in.
pub proof fn lemma_steps_over_arrays(h: Heap, it: u64, v: Value)
    requires
        h.has(it),
    ensures
        ({
            let o = h.at(it);
            let s = o.props@;
            let plain = o.ic_plain && o.exotic is Ordinary && values_kind(s);
            let step = iter_step(h, Value::Obj(it));
            &&& !plain ==> step is NotApplicable
            &&& plain && data_of(s, "__ai_target"@) == Some(Value::Undefined) ==> step is Done
            &&& plain ==> (data_of(s, "__ai_target"@) matches Some(Value::Obj(t)) ==> {
                let a = h.at(t);
                let here = h.has(t) && a.ic_plain && a.exotic is Array && length_of(a) is Some
                    && iterator_index(s) is Some;
                &&& !here ==> step is NotApplicable
                &&& here ==> {
                    let i = iterator_index(s)->0;
                    let n = length_of(a)->0;
                    &&& step is Done <==> past(i, n)
                    &&& step == IterStep::Yield(v) <==> !past(i, n) && element(a, i) == Some(v)
                }
            })
        }),
        forall|w: Value| !(w is Obj) ==> #[trigger] iter_step(h, w) is NotApplicable,
{
}

/// The dense values of an array are its elements from first to last, when none is missing.
pub proof fn lemma_dense_values_are_the_elements(o: Object, i: int)
    ensures
        dense_values(o) matches Some(vs) ==> {
            &&& length_of(o) is Some
            &&& indices_below(length_of(o)->0) == Some(vs.len() as int)
            &&& 0 <= i < vs.len() ==> element(o, i) == Some(vs[i])
        },
        dense_values(o) is None && length_of(o) is Some && indices_below(length_of(o)->0) is Some
            ==> exists|j: int|
            0 <= j < indices_below(length_of(o)->0)->0 && (#[trigger] element(o, j)) is None,
{
    crate::num::lemma_integer_part(length_of(o)->0);
}

// ---- enumeration ------------------------------------------------------------------------------

/// The keys that enumerate are the enumerable properties with string keys, in their order.
pub proof fn lemma_enumerable_keys_in_order(s: Named, key: Seq<char>, p: Property)
    ensures
        enum_keys(Seq::empty()).len() == 0,
        enum_names(Seq::empty()).len() == 0,
        p.enumerable && !sym_key(key) && !private_key(key) ==> enum_keys(s.push((key, p)))
            == enum_keys(s).push(key),
        !p.enumerable || sym_key(key) || private_key(key) ==> enum_keys(s.push((key, p)))
            == enum_keys(s) && enum_names(s.push((key, p))) == enum_names(s),
        p.enumerable && !sym_key(key) && !private_key(key) && index_of(key) is None ==> enum_names(
            s.push((key, p)),
        ) == enum_names(s).push(key),
        index_of(key) is Some ==> enum_names(s.push((key, p))) == enum_names(s),
{
    assert(s.push((key, p)).drop_last() =~= s);
}

/// A list of named keys is given where no key is an index, which would come first.
pub proof fn lemma_named_keys_have_no_index(s: Named, i: int)
    ensures
        named_keys(s) is Some && 0 <= i < s.len() && !sym_key(s[i].0) && !private_key(s[i].0)
            ==> index_of(s[i].0) is None,
        named_keys(s) matches Some(ks) ==> ks == enum_keys(s),
        named_keys(s) is None ==> exists|j: int|
            0 <= j < s.len() && index_of((#[trigger] s[j]).0) is Some,
{
    let keys = crate::eval::fastpaths::keys_of(s);
    if 0 <= i < s.len() {
        assert(keys[i] == s[i].0);
    }
    if some_index_key(keys) {
        let j = choose|j: int|
            0 <= j < keys.len() && string_key(#[trigger] keys[j]) && index_of(keys[j]) is Some;
        assert(s[j].0 == keys[j]);
    }
}

/// Keys are listed at once for an ordinary object without elements.
pub proof fn lemma_plain_objects_list_their_keys(o: Object)
    ensures
        o.ic_plain && o.exotic is Ordinary && !elements(o) ==> plain_keys(o) == named_keys(
            o.props@,
        ),
        !(o.ic_plain && o.exotic is Ordinary && !elements(o)) ==> plain_keys(o) is None,
        elements(o) <==> exists|i: int| 0 <= i < o.elems@.len() && (#[trigger] o.elems@[i]) is Some,
        enumerable_kind(o) <==> o.ic_plain && (o.exotic is Ordinary || o.exotic is Array),
{
}

/// A `for`-`in` over own keys alone is right where no object up the chain, sixteen at the most,
/// has an enumerable property or an element to add.
pub proof fn lemma_silent_chains_add_no_key(h: Heap, o: u64, cur: Option<u64>, left: nat, k: nat, i: int)
    requires
        silent_chain(h, o, cur, left),
        upward(h, cur, k) is Some,
    ensures
        k < left,
        ({
            let p = upward(h, cur, k)->0;
            &&& h.has(p)
            &&& p != o
            &&& !elements(h.at(p))
            &&& h.at(p).ic_plain
            &&& h.at(p).exotic is Ordinary || h.at(p).exotic is Array
            &&& 0 <= i < h.at(p).props@.len() ==> !h.at(p).props@[i].1.enumerable || sym_key(
                h.at(p).props@[i].0,
            ) || private_key(h.at(p).props@[i].0)
        }),
    decreases k,
{
    if k > 0 {
        lemma_silent_chains_add_no_key(
            h,
            o,
            h.at(cur->0).proto,
            (left - 1) as nat,
            (k - 1) as nat,
            i,
        );
    } else {
        let p = cur->0;
        assert(silent_proto(h.at(p)));
        if 0 <= i < h.at(p).props@.len() {
            let e = h.at(p).props@[i];
            assert(!(string_key(h.at(p).props@[i].0) && h.at(p).props@[i].1.enumerable));
        }
    }
}

/// A chain that is not silent has an object that adds a key, is not plain, or is the object
/// itself, or it is longer than is looked at.
pub proof fn lemma_other_chains_may_add_a_key(h: Heap, o: u64, cur: Option<u64>, left: nat) -> (k: nat)
    requires
        !silent_chain(h, o, cur, left),
    ensures
        k <= left,
        upward(h, cur, k) is Some,
        k == left || ({
            let p = upward(h, cur, k)->0;
            ||| !h.has(p)
            ||| p == o
            ||| elements(h.at(p))
            ||| !h.at(p).ic_plain
            ||| !(h.at(p).exotic is Ordinary || h.at(p).exotic is Array)
            ||| exists|i: int|
                0 <= i < h.at(p).props@.len() && (#[trigger] h.at(p).props@[i]).1.enumerable
                    && string_key(h.at(p).props@[i].0)
        }),
    decreases left,
{
    reveal_with_fuel(upward, 2);
    let p = cur->0;
    if left == 0 || p == o || !h.has(p) || !silent_proto(h.at(p)) {
        0
    } else {
        let k = lemma_other_chains_may_add_a_key(h, o, h.at(p).proto, (left - 1) as nat);
        assert(upward(h, cur, k + 1) == upward(h, h.at(p).proto, k));
        k + 1
    }
}

/// Chains are looked at this far.
pub proof fn lemma_chain_bounds()
    ensures
        MAX_CHAIN == 16,
        MAX_ASSIGN_CHAIN == 8,
{
}

/// An index enumerates when the object has an enumerable element or property there.
pub proof fn lemma_own_indices(o: Object, i: u32, j: int)
    ensures
        i < o.elems@.len() && o.elems@[i as int] is Some && o.elems@[i as int]->0.enumerable
            ==> own_index(o, i),
        0 <= j < o.props@.len() && o.props@[j].1.enumerable && index_of(o.props@[j].0) == Some(i)
            && string_key(o.props@[j].0) ==> own_index(o, i),
        own_index(o, i) && !(i < o.elems@.len() && o.elems@[i as int] is Some
            && o.elems@[i as int]->0.enumerable) ==> exists|k: int|
            0 <= k < o.props@.len() && index_of((#[trigger] o.props@[k]).0) == Some(i)
                && o.props@[k].1.enumerable,
{
}

/// A full table of key lists starts over; a list that is there is kept.
pub proof fn lemma_key_lists_start_over(
    before: KeyLists,
    after: KeyLists,
    shape: u32,
    keys: Seq<Seq<char>>,
    other: u32,
)
    requires
        before.listed(after, shape, keys),
        other != shape,
    ensures
        after.by_shape@.contains_key(other) ==> before.by_shape@.contains_key(other)
            && after.by_shape@[other] == before.by_shape@[other],
        before.by_shape@.len() < 1024 && before.by_shape@.contains_key(other)
            ==> after.by_shape@.contains_key(other),
        before.by_shape@.contains_key(shape) ==> after.by_shape@ == before.by_shape@,
        !before.by_shape@.contains_key(shape) && before.by_shape@.len() >= 1024 && !some_index_key(
            keys,
        ) ==> !after.by_shape@.contains_key(other),
{
    let rest = after.by_shape@.remove(shape);
    assert(rest.contains_key(other) <==> after.by_shape@.contains_key(other));
    assert(rest.contains_key(other) ==> rest[other] == after.by_shape@[other]);
}

// ---- copying ----------------------------------------------------------------------------------

/// Properties are copied whole to a fresh ordinary object from another plain one, where each is
/// plain data under a key that is no index and not private.
pub proof fn lemma_plain_objects_are_copied_whole(
    h: Heap,
    target: u64,
    source: u64,
    inline: bool,
    i: int,
)
    ensures
        copies(h, target, source, inline) ==> {
            let s = h.at(source);
            let t = h.at(target);
            &&& inline
            &&& target != source
            &&& s.exotic is Ordinary && t.exotic is Ordinary
            &&& s.ic_plain && t.ic_plain && t.extensible
            &&& t.props@.len() == 0
            &&& !elements(s) && !elements(t)
            &&& 0 <= i < s.props@.len() ==> {
                let (k, p) = s.props@[i];
                &&& p.kind is Data
                &&& p.enumerable && p.writable && p.configurable
                &&& !private_key(k)
                &&& index_of(k) is None
            }
        },
        !copies(h, target, source, inline) && inline && target != source ==> {
            let s = h.at(source);
            let t = h.at(target);
            ||| !(s.exotic is Ordinary && t.exotic is Ordinary)
            ||| !(s.ic_plain && t.ic_plain && t.extensible)
            ||| t.props@.len() != 0
            ||| elements(s) || elements(t)
            ||| exists|j: int| 0 <= j < s.props@.len() && !copyable((#[trigger] s.props@[j]).0, s.props@[j].1)
        },
{
    if copies(h, target, source, inline) && 0 <= i < h.at(source).props@.len() {
        assert(copyable(h.at(source).props@[i].0, h.at(source).props@[i].1));
    }
}

/// Assigning creates the properties where no object up the chain, eight at the most, has a
/// setter or a read-only property under one of the keys.
pub proof fn lemma_assigning_creates(
    h: Heap,
    target: u64,
    source: u64,
    cur: Option<u64>,
    left: nat,
    k: nat,
    i: int,
)
    requires
        sets_create(h, target, source, cur, left),
        upward(h, cur, k) is Some,
        0 <= i < h.at(source).props@.len(),
    ensures
        k < left,
        ({
            let p = upward(h, cur, k)->0;
            &&& h.has(p)
            &&& p != source && p != target
            &&& h.at(p).ic_plain && h.at(p).exotic is Ordinary
            &&& lookup(h.at(p).props@, h.at(source).props@[i].0) matches Some(q) ==> q.kind is Data
                && q.writable
        }),
    decreases k,
{
    if k > 0 {
        lemma_assigning_creates(
            h,
            target,
            source,
            h.at(cur->0).proto,
            (left - 1) as nat,
            (k - 1) as nat,
            i,
        );
    } else {
        assert(lets_create(h.at(cur->0), h.at(source).props@));
    }
}

/// Where assigning may not create them, some object up the chain has a setter or a read-only
/// property under one of the keys, is not plain or is one of the two, or the chain is longer
/// than is looked at.
pub proof fn lemma_assigning_may_not_create(
    h: Heap,
    target: u64,
    source: u64,
    cur: Option<u64>,
    left: nat,
) -> (k: nat)
    requires
        !sets_create(h, target, source, cur, left),
    ensures
        k <= left,
        upward(h, cur, k) is Some,
        k == left || ({
            let p = upward(h, cur, k)->0;
            ||| !h.has(p)
            ||| p == source
            ||| p == target
            ||| !h.at(p).ic_plain
            ||| !(h.at(p).exotic is Ordinary)
            ||| exists|i: int|
                0 <= i < h.at(source).props@.len() && ({
                    let q = lookup(h.at(p).props@, (#[trigger] h.at(source).props@[i]).0);
                    q is Some && !(q->0.kind is Data && q->0.writable)
                })
        }),
    decreases left,
{
    reveal_with_fuel(upward, 2);
    let p = cur->0;
    if left == 0 || p == source || p == target || !h.has(p) || !lets_create(
        h.at(p),
        h.at(source).props@,
    ) {
        0
    } else {
        let k = lemma_assigning_may_not_create(
            h,
            target,
            source,
            h.at(p).proto,
            (left - 1) as nat,
        );
        assert(upward(h, cur, k + 1) == upward(h, h.at(p).proto, k));
        k + 1
    }
}

// ---- regular expressions ----------------------------------------------------------------------

/// A regular expression starts with its last index at zero, which can be written and neither
/// enumerated nor reconfigured.
pub proof fn lemma_regular_expressions_start_at_zero()
    ensures
        regexp_named().len() == 1,
        lookup(regexp_named(), "lastIndex"@) matches Some(p) && p.kind == PropKind::Data(
            Value::Num(0),
        ) && p.writable && !p.enumerable && !p.configurable,
{
    lemma_index_of_key_is(regexp_named(), "lastIndex"@, 0);
}

/// The pins that live are kept, in order.
pub proof fn lemma_living_pins_are_kept(pins: Seq<u64>, o: u64, alive: Set<u64>)
    ensures
        living(Seq::empty(), alive).len() == 0,
        alive.contains(o) ==> living(pins.push(o), alive) == living(pins, alive).push(o),
        !alive.contains(o) ==> living(pins.push(o), alive) == living(pins, alive),
{
    assert(pins.push(o).drop_last() =~= pins);
}

/// A site's program is found by both its source and its flags.
pub proof fn lemma_programs_are_found_by_source_and_flags(
    sites: Map<u128, u64>,
    source: u64,
    flags: u64,
    s: u64,
    f: u64,
    program: u64,
)
    ensures
        ({
            let after = sites.insert(crate::eval::props_fast::site_key(source, flags), program);
            &&& program_of(after, source, flags) == Some(program)
            &&& (s, f) != (source, flags) ==> program_of(after, s, f) == program_of(sites, s, f)
        }),
        program_of(Map::empty(), source, flags) is None,
{
    crate::eval::props_fast::lemma_site_key_injective(source, flags, s, f);
}

} // verus!
