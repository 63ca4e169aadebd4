//! Guarded fast paths over whole objects: the keys of `for`-`in` and `Object.keys`, copying the
//! properties of plain objects, and the objects of regular expression literals.

use crate::eval::fastpaths::keys_of;
use crate::object::{
    canonical_index, index_of, is_private_key, is_sym_key, lookup, only_props_changed,
    plain_object, private_key, put, sym_key, Callable, Exotic, Heap, Named, Object, Property, Props,
};
use crate::text::{dec_digits, push_dec};
use crate::value::Value;
use std::collections::{HashMap, HashSet};
use vstd::prelude::*;

verus! {

broadcast use vstd::std_specs::hash::group_hash_axioms;

/// Whether a key is a string, neither a symbol's nor private.
pub open spec fn string_key(key: Seq<char>) -> bool {
    !sym_key(key) && !private_key(key)
}

fn is_string_key(key: &str) -> (r: bool)
    ensures
        r == string_key(key@),
{
    !is_sym_key(key) && !is_private_key(key)
}

/// The slots of the string keys.
pub open spec fn string_slots(keys: Seq<Seq<char>>) -> Seq<int>
    decreases keys.len(),
{
    if keys.len() == 0 {
        Seq::empty()
    } else {
        let rest = string_slots(keys.drop_last());
        if string_key(keys.last()) {
            rest.push(keys.len() - 1)
        } else {
            rest
        }
    }
}

/// Whether some string key is an array index.
pub open spec fn some_index_key(keys: Seq<Seq<char>>) -> bool {
    exists|i: int|
        0 <= i < keys.len() && string_key(#[trigger] keys[i]) && index_of(keys[i]) is Some
}

/// The enumerable string keys, in order.
pub open spec fn enum_keys(s: Named) -> Seq<Seq<char>>
    decreases s.len(),
{
    if s.len() == 0 {
        Seq::empty()
    } else {
        let rest = enum_keys(s.drop_last());
        if string_key(s.last().0) && s.last().1.enumerable {
            rest.push(s.last().0)
        } else {
            rest
        }
    }
}

/// The keys under slots whose properties are enumerable.
pub open spec fn enumerable_at(s: Named, slots: Seq<int>) -> Seq<Seq<char>>
    decreases slots.len(),
{
    if slots.len() == 0 {
        Seq::empty()
    } else {
        let rest = enumerable_at(s, slots.drop_last());
        if s[slots.last()].1.enumerable {
            rest.push(s[slots.last()].0)
        } else {
            rest
        }
    }
}

proof fn lemma_slots_give_enum_keys(s: Named, n: int)
    requires
        0 <= n <= s.len(),
    ensures
        enumerable_at(s, string_slots(keys_of(s).take(n))) == enum_keys(s.take(n)),
    decreases n,
{
    let keys = keys_of(s);
    if n > 0 {
        lemma_slots_give_enum_keys(s, n - 1);
        assert(keys.take(n).drop_last() =~= keys.take(n - 1));
        assert(s.take(n).drop_last() =~= s.take(n - 1));
        let slots = string_slots(keys.take(n));
        if string_key(keys[n - 1]) {
            assert(slots.drop_last() =~= string_slots(keys.take(n - 1)));
            assert(slots.last() == n - 1);
        }
    } else {
        assert(keys.take(0) =~= Seq::<Seq<char>>::empty());
        assert(s.take(0) =~= Seq::<(Seq<char>, Property)>::empty());
    }
}

proof fn lemma_slots_in_range(keys: Seq<Seq<char>>)
    ensures
        forall|i: int|
            0 <= i < string_slots(keys).len() ==> 0 <= #[trigger] string_slots(keys)[i]
                < keys.len(),
    decreases keys.len(),
{
    if keys.len() > 0 {
        lemma_slots_in_range(keys.drop_last());
        let rest = string_slots(keys.drop_last());
        assert forall|i: int| 0 <= i < string_slots(keys).len() implies 0
            <= #[trigger] string_slots(keys)[i] < keys.len() by {
            if i < rest.len() {
                assert(string_slots(keys)[i] == rest[i]);
            }
        }
    }
}

/// What texts say.
pub open spec fn texts(v: Seq<String>) -> Seq<Seq<char>> {
    Seq::new(v.len(), |i: int| v[i]@)
}

/// The string keys of a shape, with their slots.
pub struct KeyList {
    slots: Vec<usize>,
    /// The keys that the shape pins.
    keys: Ghost<Seq<Seq<char>>>,
}

impl KeyList {
    /// The list is that of the keys.
    pub closed spec fn wf(self) -> bool {
        &&& self.slots@.len() == string_slots(self.keys@).len()
        &&& forall|i: int|
            0 <= i < self.slots@.len() ==> #[trigger] self.slots@[i] as int == string_slots(
                self.keys@,
            )[i]
        &&& !some_index_key(self.keys@)
    }

    /// The keys that the shape pins.
    pub closed spec fn pinned(self) -> Seq<Seq<char>> {
        self.keys@
    }
}

/// The lists that are kept before all are dropped.
pub const MAX_KEY_LISTS: usize = 1024;

/// The key lists of shapes.
pub struct KeyLists {
    pub by_shape: HashMap<u32, KeyList>,
}

/// The enumerable string keys of properties without elements, unless one is an array index, which
/// sorts first.
pub open spec fn named_keys(s: Named) -> Option<Seq<Seq<char>>> {
    if some_index_key(keys_of(s)) {
        None
    } else {
        Some(enum_keys(s))
    }
}

impl KeyLists {
    /// Every list is that of its keys, and there are not too many.
    pub open spec fn wf(self) -> bool {
        &&& self.by_shape@.len() <= MAX_KEY_LISTS
        &&& forall|sh: u32| #[trigger] self.by_shape@.contains_key(sh) ==> self.by_shape@[sh].wf()
    }

    /// A shape pins the given keys.
    pub open spec fn agrees(self, shape: u32, keys: Seq<Seq<char>>) -> bool {
        self.by_shape@.contains_key(shape) ==> self.by_shape@[shape].pinned() == keys
    }

    /// The lists after the keys of a shape were listed: its list is there unless a key is an array
    /// index, and it took the place of all others where there were too many.
    pub open spec fn listed(self, after: KeyLists, shape: u32, keys: Seq<Seq<char>>) -> bool {
        if self.by_shape@.contains_key(shape) || some_index_key(keys) {
            after.by_shape@ == self.by_shape@
        } else {
            &&& after.by_shape@.contains_key(shape)
            &&& after.by_shape@[shape].pinned() == keys
            &&& after.by_shape@.remove(shape) == if self.by_shape@.len() >= MAX_KEY_LISTS {
                Map::empty()
            } else {
                self.by_shape@
            }
        }
    }

    /// No lists.
    pub fn new() -> (r: KeyLists)
        ensures
            r.wf(),
            r.by_shape@ == Map::<u32, KeyList>::empty(),
    {
        KeyLists { by_shape: HashMap::new() }
    }

    fn list_of(props: &Props) -> (r: Option<KeyList>)
        ensures
            match r {
                Some(l) => l.wf() && l.pinned() == keys_of(props@),
                None => some_index_key(keys_of(props@)),
            },
    {
        let ghost keys = keys_of(props@);
        let mut slots: Vec<usize> = Vec::new();
        let mut i: usize = 0;
        assert(keys.take(0) =~= Seq::<Seq<char>>::empty());
        assert(props@.len() == props.items@.len());
        while i < props.items.len()
            invariant
                i <= props.items@.len(),
                keys == keys_of(props@),
                props@.len() == props.items@.len(),
                slots@.len() == string_slots(keys.take(i as int)).len(),
                forall|j: int|
                    0 <= j < slots@.len() ==> #[trigger] slots@[j] as int == string_slots(
                        keys.take(i as int),
                    )[j],
                forall|j: int|
                    0 <= j < i ==> !(string_key(#[trigger] keys[j]) && index_of(keys[j]) is Some),
            decreases props.items@.len() - i,
        {
            let k = props.items[i].key.as_str();
            proof {
                assert(keys[i as int] == k@);
                assert(keys.take(i + 1).drop_last() =~= keys.take(i as int));
                assert(keys.take(i + 1).last() == k@);
            }
            if is_string_key(k) {
                if canonical_index(k).is_some() {
                    return None;
                }
                slots.push(i);
            }
            i = i + 1;
        }
        assert(keys.take(i as int) =~= keys);
        Some(KeyList { slots, keys: Ghost(keys) })
    }

    /// The enumerable string keys of the named properties of a shape, in order. None when one is
    /// an array index.
    pub fn named_enum_keys(&mut self, shape: u32, props: &Props) -> (r: Option<Vec<String>>)
        requires
            old(self).wf(),
            old(self).agrees(shape, keys_of(props@)),
        ensures
            final(self).wf(),
            final(self).agrees(shape, keys_of(props@)),
            old(self).listed(*final(self), shape, keys_of(props@)),
            match r {
                Some(ks) => named_keys(props@) == Some(texts(ks@)),
                None => named_keys(props@) is None,
            },
    {
        if !self.by_shape.contains_key(&shape) {
            match KeyLists::list_of(props) {
                None => {
                    return None;
                },
                Some(l) => {
                    if self.by_shape.len() >= MAX_KEY_LISTS {
                        self.by_shape.clear();
                    }
                    let ghost kept = self.by_shape@;
                    let _ = self.by_shape.insert(shape, l);
                    assert(self.by_shape@.remove(shape) =~= kept);
                },
            }
        }
        let ghost keys = keys_of(props@);
        let mut out: Vec<String> = Vec::new();
        match self.by_shape.get(&shape) {
            None => {
                None
            },
            Some(l) => {
                let ghost slots = string_slots(keys);
                proof {
                    lemma_slots_in_range(keys);
                    assert(slots.take(0) =~= Seq::<int>::empty());
                    assert(texts(out@) =~= Seq::<Seq<char>>::empty());
                }
                let mut j: usize = 0;
                while j < l.slots.len()
                    invariant
                        j <= l.slots@.len(),
                        l.wf(),
                        l.keys@ == keys,
                        keys == keys_of(props@),
                        slots == string_slots(keys),
                        forall|i: int|
                            0 <= i < slots.len() ==> 0 <= #[trigger] slots[i] < keys.len(),
                        texts(out@) == enumerable_at(props@, slots.take(j as int)),
                    decreases l.slots@.len() - j,
                {
                    let s: usize = l.slots[j];
                    assert(s as int == slots[j as int]);
                    assert(props.items.len() == props@.len());
                    let ghost before = out@;
                    let item = &props.items[s];
                    proof {
                        assert(slots.take(j + 1).drop_last() =~= slots.take(j as int));
                        assert(slots.take(j + 1).last() == s as int);
                        assert(props@[s as int] == (item.key@, item.prop));
                    }
                    if item.prop.enumerable {
                        out.push(item.key.clone());
                        assert(texts(out@) =~= texts(before).push(item.key@));
                    }
                    j = j + 1;
                }
                proof {
                    assert(slots.take(j as int) =~= slots);
                    lemma_slots_give_enum_keys(props@, props@.len() as int);
                    assert(keys.take(props@.len() as int) =~= keys);
                    assert(props@.take(props@.len() as int) =~= props@);
                }
                Some(out)
            },
        }
    }

    /// `Object.keys` of a plain object without elements. None: the general path.
    pub fn object_keys_fast(&mut self, shape: u32, o: &Object) -> (r: Option<Vec<String>>)
        requires
            old(self).wf(),
            old(self).agrees(shape, keys_of(o.props@)),
        ensures
            final(self).wf(),
            final(self).agrees(shape, keys_of(o.props@)),
            if plain_object_keys(*o) {
                old(self).listed(*final(self), shape, keys_of(o.props@))
            } else {
                *final(self) == *old(self)
            },
            match r {
                Some(ks) => plain_keys(*o) == Some(texts(ks@)),
                None => plain_keys(*o) is None,
            },
    {
        if !o.ic_plain || o.exotic != Exotic::Ordinary || has_elements(o) {
            return None;
        }
        self.named_enum_keys(shape, &o.props)
    }

    /// The keys of `for`-`in` over an object whose prototypes contribute none: the object's own
    /// enumerable string keys, array indices first. None: the general path.
    pub fn for_in_keys_fast(&mut self, heap: &Heap, shape: u32, o: u64) -> (r: Option<Vec<String>>)
        requires
            old(self).wf(),
            heap.has(o),
            heap.at(o).elems@.len() < 0xffff_ffff,
            old(self).agrees(shape, keys_of(heap.at(o).props@)),
        ensures
            final(self).wf(),
            final(self).agrees(shape, keys_of(heap.at(o).props@)),
            ({
                let ob = heap.at(o);
                if enumerable_kind(ob) && silent_chain(*heap, o, ob.proto, MAX_CHAIN as nat)
                    && !elements(ob) {
                    old(self).listed(*final(self), shape, keys_of(ob.props@))
                } else {
                    *final(self) == *old(self)
                }
            }),
            match r {
                Some(ks) => {
                    let ob = heap.at(o);
                    &&& enumerable_kind(ob)
                    &&& silent_chain(*heap, o, ob.proto, MAX_CHAIN as nat)
                    &&& if elements(ob) {
                        ordered_keys(ob, texts(ks@))
                    } else {
                        named_keys(ob.props@) == Some(texts(ks@))
                    }
                },
                None => {
                    let ob = heap.at(o);
                    ||| !enumerable_kind(ob)
                    ||| !silent_chain(*heap, o, ob.proto, MAX_CHAIN as nat)
                    ||| !elements(ob) && named_keys(ob.props@) is None
                },
            },
    {
        let b = heap.get(o);
        if !is_enumerable_kind(b) {
            return None;
        }
        if !is_silent_chain(heap, o, b.proto) {
            return None;
        }
        if has_elements(b) {
            return Some(exec_ordered_keys(b));
        }
        self.named_enum_keys(shape, &b.props)
    }
}

/// Listing the keys of one shape leaves what other shapes pin.
pub proof fn lemma_lists_keep_agreeing(
    before: KeyLists,
    after: KeyLists,
    shape: u32,
    keys: Seq<Seq<char>>,
    other: u32,
    pinned: Seq<Seq<char>>,
)
    requires
        before.listed(after, shape, keys),
        other != shape,
        before.agrees(other, pinned),
    ensures
        after.agrees(other, pinned),
{
    if after.by_shape@.contains_key(other) {
        assert(after.by_shape@.remove(shape).contains_key(other));
    }
}

/// Whether an object has elements.
pub open spec fn elements(o: Object) -> bool {
    exists|i: int| 0 <= i < o.elems@.len() && (#[trigger] o.elems@[i]) is Some
}

/// Whether an object has elements.
pub fn has_elements(o: &Object) -> (r: bool)
    ensures
        r == elements(*o),
{
    let mut i: usize = 0;
    while i < o.elems.len()
        invariant
            i <= o.elems@.len(),
            forall|j: int| 0 <= j < i ==> (#[trigger] o.elems@[j]) is None,
        decreases o.elems@.len() - i,
    {
        if o.elems[i].is_some() {
            return true;
        }
        i = i + 1;
    }
    false
}

/// Whether the keys of an object are those of its named properties.
pub open spec fn plain_object_keys(o: Object) -> bool {
    o.ic_plain && o.exotic == Exotic::Ordinary && !elements(o)
}

/// The keys of a plain object without elements.
pub open spec fn plain_keys(o: Object) -> Option<Seq<Seq<char>>> {
    if plain_object_keys(o) {
        named_keys(o.props@)
    } else {
        None
    }
}

/// Whether enumerating an object's own keys runs no code.
pub open spec fn enumerable_kind(o: Object) -> bool {
    o.ic_plain && (o.exotic == Exotic::Ordinary || o.exotic == Exotic::Array)
}

fn is_enumerable_kind(o: &Object) -> (r: bool)
    ensures
        r == enumerable_kind(*o),
{
    o.ic_plain && (o.exotic == Exotic::Ordinary || o.exotic == Exotic::Array)
}

/// The longest prototype chain that is looked at.
pub const MAX_CHAIN: usize = 16;

/// Whether an object contributes no key to an enumeration of what inherits from it.
pub open spec fn silent_proto(o: Object) -> bool {
    enumerable_kind(o) && !elements(o) && forall|i: int|
        0 <= i < o.props@.len() ==> !(string_key((#[trigger] o.props@[i]).0)
            && o.props@[i].1.enumerable)
}

/// Whether a prototype chain, of at most `left` objects, contributes no key.
pub open spec fn silent_chain(h: Heap, o: u64, cur: Option<u64>, left: nat) -> bool
    decreases left,
{
    match cur {
        None => true,
        Some(p) => {
            &&& left > 0
            &&& p != o
            &&& h.has(p)
            &&& silent_proto(h.at(p))
            &&& silent_chain(h, o, h.at(p).proto, (left - 1) as nat)
        },
    }
}

fn is_silent_proto(o: &Object) -> (r: bool)
    ensures
        r == silent_proto(*o),
{
    if !is_enumerable_kind(o) || has_elements(o) {
        return false;
    }
    let mut i: usize = 0;
    assert(o.props@.len() == o.props.items@.len());
    while i < o.props.items.len()
        invariant
            i <= o.props.items@.len(),
            o.props@.len() == o.props.items@.len(),
            forall|j: int|
                0 <= j < i ==> !(string_key((#[trigger] o.props@[j]).0)
                    && o.props@[j].1.enumerable),
        decreases o.props.items@.len() - i,
    {
        let it = &o.props.items[i];
        assert(o.props@[i as int] == (it.key@, it.prop));
        if it.prop.enumerable && is_string_key(it.key.as_str()) {
            return false;
        }
        i = i + 1;
    }
    true
}

fn is_silent_chain(heap: &Heap, o: u64, proto: Option<u64>) -> (r: bool)
    ensures
        r == silent_chain(*heap, o, proto, MAX_CHAIN as nat),
{
    let mut cur: Option<u64> = proto;
    let mut left: usize = MAX_CHAIN;
    loop
        invariant
            silent_chain(*heap, o, proto, MAX_CHAIN as nat) == silent_chain(
                *heap,
                o,
                cur,
                left as nat,
            ),
        decreases left,
    {
        let p: u64 = match cur {
            Some(p) => p,
            None => {
                return true;
            },
        };
        if left == 0 || p == o || !heap.holds(p) {
            return false;
        }
        let b = heap.get(p);
        if !is_silent_proto(b) {
            return false;
        }
        cur = b.proto;
        left = left - 1;
    }
}

/// Whether an object has an enumerable own property under an array index.
pub open spec fn own_index(o: Object, i: u32) -> bool {
    ||| i < o.elems@.len() && (o.elems@[i as int] matches Some(p) && p.enumerable)
    ||| exists|j: int|
        0 <= j < o.props@.len() && index_of((#[trigger] o.props@[j]).0) == Some(i) && string_key(
            o.props@[j].0,
        ) && o.props@[j].1.enumerable
}

/// The enumerable string keys that are no array index, in order.
pub open spec fn enum_names(s: Named) -> Seq<Seq<char>>
    decreases s.len(),
{
    if s.len() == 0 {
        Seq::empty()
    } else {
        let rest = enum_names(s.drop_last());
        if string_key(s.last().0) && s.last().1.enumerable && index_of(s.last().0) is None {
            rest.push(s.last().0)
        } else {
            rest
        }
    }
}

/// Numbers in strictly ascending order.
pub open spec fn ascending(s: Seq<u32>) -> bool {
    forall|i: int, j: int| 0 <= i < j < s.len() ==> s[i] < s[j]
}

/// The decimal texts of numbers.
pub open spec fn decimals(s: Seq<u32>) -> Seq<Seq<char>> {
    Seq::new(s.len(), |i: int| dec_digits(s[i] as nat))
}

/// The enumerable own string keys of an object: its array indices in ascending order, then the
/// other names in their order.
pub open spec fn ordered_keys(o: Object, ks: Seq<Seq<char>>) -> bool {
    exists|idx: Seq<u32>|
        {
            &&& #[trigger] ascending(idx)
            &&& forall|i: u32| idx.contains(i) <==> #[trigger] own_index(o, i)
            &&& ks == decimals(idx) + enum_names(o.props@)
        }
}

/// Puts a number in its place among ascending ones.
fn insert_sorted(v: &mut Vec<u32>, n: u32)
    requires
        ascending(old(v)@),
    ensures
        ascending(final(v)@),
        forall|i: u32| final(v)@.contains(i) <==> old(v)@.contains(i) || i == n,
{
    let mut k: usize = 0;
    while k < v.len() && v[k] < n
        invariant
            k <= v@.len(),
            v@ == old(v)@,
            forall|j: int| 0 <= j < k ==> #[trigger] v@[j] < n,
        decreases v@.len() - k,
    {
        k = k + 1;
    }
    let ghost s = v@;
    if k < v.len() && v[k] == n {
        assert(s[k as int] == n);
        return;
    }
    v.insert(k, n);
    proof {
        let t = v@;
        assert forall|i: u32| t.contains(i) <==> s.contains(i) || i == n by {
            if t.contains(i) {
                let j = choose|j: int| 0 <= j < t.len() && t[j] == i;
                if j < k {
                    assert(s[j] == i);
                } else if j > k {
                    assert(s[j - 1] == i);
                }
            }
            if s.contains(i) {
                let j = choose|j: int| 0 <= j < s.len() && s[j] == i;
                if j < k {
                    assert(t[j] == i);
                } else {
                    assert(t[j + 1] == i);
                }
            }
            assert(t[k as int] == n);
        }
        assert forall|i: int, j: int| 0 <= i < j < t.len() implies t[i] < t[j] by {
            if k < s.len() {
                assert(s[k as int] > n);
            }
            if j < k {
            } else if j == k {
                assert(t[i] == s[i]);
            } else if i == k {
                assert(t[j] == s[j - 1]);
                if j - 1 > k {
                    assert(s[k as int] < s[j - 1]);
                }
            } else if i < k {
                assert(t[i] == s[i] && t[j] == s[j - 1]);
            } else {
                assert(t[i] == s[i - 1] && t[j] == s[j - 1]);
            }
        }
    }
}

/// The array indices under which the first elements and the first properties are enumerable.
pub open spec fn index_among(o: Object, n: int, m: int, i: u32) -> bool {
    ||| i < n && (o.elems@[i as int] matches Some(p) && p.enumerable)
    ||| exists|j: int|
        0 <= j < m && index_of((#[trigger] o.props@[j]).0) == Some(i) && string_key(o.props@[j].0)
            && o.props@[j].1.enumerable
}

fn exec_ordered_keys(o: &Object) -> (r: Vec<String>)
    requires
        o.elems@.len() < 0xffff_ffff,
    ensures
        ordered_keys(*o, texts(r@)),
{
    let mut idx: Vec<u32> = Vec::new();
    let mut n: usize = 0;
    while n < o.elems.len()
        invariant
            n <= o.elems@.len(),
            o.elems@.len() < 0xffff_ffff,
            ascending(idx@),
            forall|i: u32| #[trigger] idx@.contains(i) <==> index_among(*o, n as int, 0, i),
        decreases o.elems@.len() - n,
    {
        let ghost before = idx@;
        let e = match &o.elems[n] {
            Some(p) => p.enumerable,
            None => false,
        };
        if e {
            insert_sorted(&mut idx, n as u32);
        }
        n = n + 1;
        assert forall|i: u32| #[trigger] idx@.contains(i) <==> index_among(*o, n as int, 0, i) by {
            assert(before.contains(i) <==> index_among(*o, n - 1, 0, i));
        }
    }
    let mut names: Vec<String> = Vec::new();
    let mut m: usize = 0;
    assert(o.props@.len() == o.props.items@.len());
    assert(o.props@.take(0) =~= Seq::<(Seq<char>, Property)>::empty());
    assert(texts(names@) =~= Seq::<Seq<char>>::empty());
    while m < o.props.items.len()
        invariant
            m <= o.props.items@.len(),
            o.props@.len() == o.props.items@.len(),
            n == o.elems@.len(),
            ascending(idx@),
            forall|i: u32| #[trigger] idx@.contains(i) <==> index_among(*o, n as int, m as int, i),
            texts(names@) == enum_names(o.props@.take(m as int)),
        decreases o.props.items@.len() - m,
    {
        let it = &o.props.items[m];
        let ghost before = idx@;
        let ghost nb = names@;
        proof {
            assert(o.props@[m as int] == (it.key@, it.prop));
            assert(o.props@.take(m + 1).drop_last() =~= o.props@.take(m as int));
            assert(o.props@.take(m + 1).last() == (it.key@, it.prop));
        }
        if it.prop.enumerable && is_string_key(it.key.as_str()) {
            match canonical_index(it.key.as_str()) {
                Some(i) => {
                    insert_sorted(&mut idx, i);
                },
                None => {
                    names.push(it.key.clone());
                    assert(texts(names@) =~= texts(nb).push(it.key@));
                },
            }
        }
        m = m + 1;
        assert forall|i: u32| #[trigger] idx@.contains(i) <==> index_among(
            *o,
            n as int,
            m as int,
            i,
        ) by {
            assert(before.contains(i) <==> index_among(*o, n as int, m - 1, i));
            if index_among(*o, n as int, m as int, i) && !index_among(*o, n as int, m - 1, i) {
                assert(index_of(o.props@[m - 1].0) == Some(i));
            }
        }
    }
    assert(o.props@.take(m as int) =~= o.props@);
    let mut out: Vec<String> = Vec::new();
    let mut k: usize = 0;
    assert(texts(out@) =~= decimals(idx@.take(0)));
    while k < idx.len()
        invariant
            k <= idx@.len(),
            texts(out@) == decimals(idx@.take(k as int)),
        decreases idx@.len() - k,
    {
        let ghost ob = out@;
        let mut t = String::new();
        push_dec(&mut t, idx[k] as u64);
        assert(t@ =~= dec_digits(idx@[k as int] as nat));
        let ghost tv = t@;
        out.push(t);
        k = k + 1;
        proof {
            assert(texts(out@) =~= texts(ob).push(tv));
            assert(decimals(idx@.take(k as int)) =~= decimals(idx@.take(k - 1)).push(tv));
        }
    }
    assert(idx@.take(k as int) =~= idx@);
    let ghost ob = out@;
    let ghost nv = names@;
    out.append(&mut names);
    proof {
        assert(texts(out@) =~= texts(ob) + texts(nv));
        assert forall|i: u32| idx@.contains(i) <==> #[trigger] own_index(*o, i) by {
            assert(idx@.contains(i) <==> index_among(*o, n as int, m as int, i));
        }
        assert(ascending(idx@));
    }
    out
}

/// Whether a property is copied as it stands by creating a data property.
pub open spec fn copyable(k: Seq<char>, p: Property) -> bool {
    &&& p.kind is Data
    &&& p.enumerable && p.writable && p.configurable
    &&& !private_key(k)
    &&& index_of(k) is None
}

/// Whether copying the properties of one object into another is copying its property map.
pub open spec fn copies(h: Heap, target: u64, source: u64, inline: bool) -> bool {
    let s = h.at(source);
    let t = h.at(target);
    &&& target != source
    &&& s.ic_plain && s.exotic == Exotic::Ordinary && !elements(s)
    &&& t.ic_plain && t.extensible && t.exotic == Exotic::Ordinary
    &&& t.props@.len() == 0 && !elements(t)
    &&& inline
    &&& forall|i: int|
        0 <= i < s.props@.len() ==> copyable((#[trigger] s.props@[i]).0, s.props@[i].1)
}

/// Copies the properties of a plain object into a plain empty one, where that is copying its
/// property map. `inline`: the target has the empty shape (no shape that it was emptied from),
/// and the maps of both can be made in place.
pub fn copy_data_props_fast(heap: &mut Heap, target: u64, source: u64, inline: bool) -> (r: bool)
    requires
        old(heap).has(target),
        old(heap).has(source),
    ensures
        r == copies(*old(heap), target, source, inline),
        if r {
            only_props_changed(
                *old(heap),
                *final(heap),
                target,
                old(heap).at(source).props@,
            )
        } else {
            *final(heap) == *old(heap)
        },
{
    if target == source || !inline {
        return false;
    }
    let s = heap.get(source);
    if !s.ic_plain || s.exotic != Exotic::Ordinary {
        return false;
    }
    let t = heap.get(target);
    if !t.ic_plain || !t.extensible || t.exotic != Exotic::Ordinary || t.props.items.len() != 0
        || has_elements(t) {
        return false;
    }
    if has_elements(s) {
        return false;
    }
    let mut i: usize = 0;
    assert(s.props@.len() == s.props.items@.len());
    while i < s.props.items.len()
        invariant
            i <= s.props.items@.len(),
            s.props@.len() == s.props.items@.len(),
            *s == old(heap).at(source),
            *heap == *old(heap),
            forall|j: int|
                0 <= j < i ==> copyable((#[trigger] s.props@[j]).0, s.props@[j].1),
        decreases s.props.items@.len() - i,
    {
        let it = &s.props.items[i];
        assert(s.props@[i as int] == (it.key@, it.prop));
        if it.prop.accessor() || !it.prop.enumerable || !it.prop.writable || !it.prop.configurable
            || is_private_key(it.key.as_str()) || canonical_index(it.key.as_str()).is_some() {
            return false;
        }
        i = i + 1;
    }
    let props = s.props.duplicate();
    heap.set_props(target, props);
    true
}

/// The longest prototype chain that an assignment looks at.
pub const MAX_ASSIGN_CHAIN: usize = 8;

/// Whether setting each of the keys creates an own property, as far as one prototype goes.
pub open spec fn lets_create(p: Object, keys: Named) -> bool {
    p.ic_plain && p.exotic == Exotic::Ordinary && forall|i: int|
        0 <= i < keys.len() ==> match lookup(p.props@, (#[trigger] keys[i]).0) {
            Some(q) => q.kind is Data && q.writable,
            None => true,
        }
}

/// Whether setting each of the keys creates an own property, along a prototype chain.
pub open spec fn sets_create(
    h: Heap,
    target: u64,
    source: u64,
    cur: Option<u64>,
    left: nat,
) -> bool
    decreases left,
{
    match cur {
        None => true,
        Some(p) => {
            &&& left > 0
            &&& p != source && p != target
            &&& h.has(p)
            &&& lets_create(h.at(p), h.at(source).props@)
            &&& sets_create(h, target, source, h.at(p).proto, (left - 1) as nat)
        },
    }
}

fn does_let_create(p: &Object, keys: &Props) -> (r: bool)
    ensures
        r == lets_create(*p, keys@),
{
    if !p.ic_plain || p.exotic != Exotic::Ordinary {
        return false;
    }
    let mut i: usize = 0;
    assert(keys@.len() == keys.items@.len());
    while i < keys.items.len()
        invariant
            i <= keys.items@.len(),
            keys@.len() == keys.items@.len(),
            forall|j: int|
                0 <= j < i ==> match lookup(p.props@, (#[trigger] keys@[j]).0) {
                    Some(q) => q.kind is Data && q.writable,
                    None => true,
                },
        decreases keys.items@.len() - i,
    {
        assert(keys@[i as int].0 == keys.items@[i as int].key@);
        if let Some(q) = p.props.get(keys.items[i].key.as_str()) {
            if q.accessor() || !q.writable {
                return false;
            }
        }
        i = i + 1;
    }
    true
}

/// Assigns the properties of a plain object to a plain empty one, where every assignment would
/// create an own data property and that is copying its property map.
pub fn assign_props_fast(heap: &mut Heap, target: u64, source: u64, inline: bool) -> (r: bool)
    requires
        old(heap).has(target),
        old(heap).has(source),
    ensures
        r == (sets_create(
            *old(heap),
            target,
            source,
            old(heap).at(target).proto,
            MAX_ASSIGN_CHAIN as nat,
        ) && copies(*old(heap), target, source, inline)),
        if r {
            only_props_changed(
                *old(heap),
                *final(heap),
                target,
                old(heap).at(source).props@,
            )
        } else {
            *final(heap) == *old(heap)
        },
{
    let mut cur: Option<u64> = heap.get(target).proto;
    let mut left: usize = MAX_ASSIGN_CHAIN;
    loop
        invariant
            *heap == *old(heap),
            heap.has(target),
            heap.has(source),
            sets_create(
                *heap,
                target,
                source,
                heap.at(target).proto,
                MAX_ASSIGN_CHAIN as nat,
            ) == sets_create(*heap, target, source, cur, left as nat),
        decreases left,
    {
        let p: u64 = match cur {
            Some(p) => p,
            None => {
                return copy_data_props_fast(heap, target, source, inline);
            },
        };
        if left == 0 || p == source || p == target || !heap.holds(p) {
            return false;
        }
        let b = heap.get(p);
        if !does_let_create(b, &heap.get(source).props) {
            return false;
        }
        cur = b.proto;
        left = left - 1;
    }
}

/// A copy that was made has every property of its source, and nothing else.
pub proof fn lemma_copies_are_whole(h: Heap, k: Heap, target: u64, source: u64, key: Seq<char>)
    requires
        h.has(target),
        h.has(source),
        target != source,
        only_props_changed(h, k, target, h.at(source).props@),
    ensures
        lookup(k.at(target).props@, key) == lookup(h.at(source).props@, key),
        k.at(source) == h.at(source),
{
    assert(k.objects@[source as int] == h.objects@[source as int]);
}

/// The own property of a fresh regular expression: `lastIndex`, writable and nothing else.
pub open spec fn regexp_named() -> Named {
    seq![("lastIndex"@, Property::spec_data(Value::Num(0), true, false, false))]
}

/// The own property of a fresh regular expression.
pub fn regexp_props() -> (r: Props)
    ensures
        r@ == regexp_named(),
{
    let mut props = Props::new();
    props.insert("lastIndex", Property::data(Value::Num(0), true, false, false));
    proof {
        let e = Seq::<(Seq<char>, Property)>::empty();
        let p = Property::spec_data(Value::Num(0), true, false, false);
        assert(put(e, "lastIndex"@, p) =~= regexp_named());
    }
    props
}

/// Makes the object of a regular expression.
pub fn new_regexp_object(heap: &mut Heap, proto: Option<u64>) -> (r: u64)
    requires
        old(heap).objects@.len() < u64::MAX,
    ensures
        r == old(heap).objects@.len(),
        final(heap).objects@.len() == r + 1,
        final(heap).objects@.drop_last() == old(heap).objects@,
        plain_object(final(heap).at(r), proto, Callable::Never, false),
        final(heap).at(r).props@ == regexp_named(),
{
    let mut o = Object::new(proto);
    o.props = regexp_props();
    let id = heap.add_object(o);
    assert(heap.objects@.drop_last() =~= old(heap).objects@);
    id
}

/// The pins that are at least collected before the dead are looked for.
pub const MIN_PINS: usize = 1024;

/// The objects of regular expressions, tied to their programs without being kept alive.
pub struct RegexpPins {
    pub pins: Vec<u64>,
    /// The length at which the dead are looked for.
    pub next: usize,
    /// An object's program.
    pub programs: HashMap<u64, u64>,
}

/// The pins of objects that are alive.
pub open spec fn living(pins: Seq<u64>, alive: Set<u64>) -> Seq<u64>
    decreases pins.len(),
{
    if pins.len() == 0 {
        Seq::empty()
    } else {
        let rest = living(pins.drop_last(), alive);
        if alive.contains(pins.last()) {
            rest.push(pins.last())
        } else {
            rest
        }
    }
}

/// Whether an object is pinned and dead.
pub open spec fn dead_pin(pins: Seq<u64>, alive: Set<u64>, o: u64) -> bool {
    pins.contains(o) && !alive.contains(o)
}

impl RegexpPins {
    /// Nothing is pinned.
    pub fn new() -> (r: RegexpPins)
        ensures
            r.pins@.len() == 0,
            r.next == 0,
            r.programs@ == Map::<u64, u64>::empty(),
    {
        RegexpPins { pins: Vec::new(), next: 0, programs: HashMap::new() }
    }

    /// Pins an object. Once enough are pinned, those of dead objects are dropped with their
    /// programs.
    pub fn regexp_weak_pin(&mut self, obj: u64, alive: &HashSet<u64>)
        ensures
            if old(self).pins@.len() >= old(self).next {
                let kept = living(old(self).pins@, alive@);
                &&& final(self).pins@ == kept.push(obj)
                &&& final(self).next == if kept.len() * 2 > MIN_PINS {
                    if kept.len() * 2 > usize::MAX {
                        usize::MAX as int
                    } else {
                        (kept.len() * 2) as int
                    }
                } else {
                    MIN_PINS as int
                }
                &&& final(self).programs@ == old(self).programs@.remove_keys(
                    Set::new(|o: u64| dead_pin(old(self).pins@, alive@, o)),
                )
            } else {
                &&& final(self).pins@ == old(self).pins@.push(obj)
                &&& final(self).next == old(self).next
                &&& final(self).programs == old(self).programs
            },
    {
        if self.pins.len() >= self.next {
            let ghost ps = self.pins@;
            let ghost progs = self.programs@;
            let mut kept: Vec<u64> = Vec::new();
            let mut i: usize = 0;
            proof {
                assert(ps.take(0) =~= Seq::<u64>::empty());
                assert(progs =~= progs.remove_keys(
                    Set::new(|o: u64| dead_pin(ps.take(0), alive@, o)),
                ));
            }
            while i < self.pins.len()
                invariant
                    i <= self.pins@.len(),
                    self.pins@ == ps,
                    self.next == old(self).next,
                    kept@ == living(ps.take(i as int), alive@),
                    self.programs@ == progs.remove_keys(
                        Set::new(|o: u64| dead_pin(ps.take(i as int), alive@, o)),
                    ),
                decreases self.pins@.len() - i,
            {
                let o: u64 = self.pins[i];
                let ghost before = self.programs@;
                proof {
                    assert(ps.take(i + 1).drop_last() =~= ps.take(i as int));
                    assert(ps.take(i + 1).last() == o);
                }
                if alive.contains(&o) {
                    kept.push(o);
                } else {
                    let _ = self.programs.remove(&o);
                }
                i = i + 1;
                proof {
                    let a = ps.take(i - 1);
                    let b = ps.take(i as int);
                    assert forall|x: u64| dead_pin(b, alive@, x) <==> dead_pin(a, alive@, x) || (x
                        == o && !alive@.contains(o)) by {
                        if b.contains(x) {
                            let j = choose|j: int| 0 <= j < b.len() && b[j] == x;
                            if j < a.len() {
                                assert(a[j] == x);
                            }
                        }
                        if a.contains(x) {
                            let j = choose|j: int| 0 <= j < a.len() && a[j] == x;
                            assert(b[j] == x);
                        }
                        assert(b[i - 1] == o);
                    }
                    assert(self.programs@ =~= progs.remove_keys(
                        Set::new(|x: u64| dead_pin(b, alive@, x)),
                    ));
                }
            }
            assert(ps.take(i as int) =~= ps);
            let n: usize = kept.len();
            self.pins = kept;
            let twice: usize = if n > usize::MAX / 2 {
                usize::MAX
            } else {
                n * 2
            };
            self.next = if twice > MIN_PINS {
                twice
            } else {
                MIN_PINS
            };
        }
        self.pins.push(obj);
    }
}

/// The programs that are kept before all are dropped.
pub const MAX_SITES: usize = 512;

/// The programs of regular expression literals, by their sites.
pub struct RegexpSites {
    pub sites: HashMap<u128, u64>,
}

/// The key of a literal's site: the identities of its source and of its flags.
pub open spec fn site_key(source: u64, flags: u64) -> u128 {
    (source * 0x1_0000_0000_0000_0000 + flags) as u128
}

/// Two sites have one key only where they are one site.
pub proof fn lemma_site_key_injective(source: u64, flags: u64, s: u64, f: u64)
    ensures
        site_key(source, flags) == site_key(s, f) ==> source == s && flags == f,
{
}

fn key_of_site(source: u64, flags: u64) -> (r: u128)
    ensures
        r == site_key(source, flags),
{
    source as u128 * 0x1_0000_0000_0000_0000 + flags as u128
}

/// The program of a site.
pub open spec fn program_of(sites: Map<u128, u64>, source: u64, flags: u64) -> Option<u64> {
    if sites.contains_key(site_key(source, flags)) {
        Some(sites[site_key(source, flags)])
    } else {
        None
    }
}

impl RegexpSites {
    /// No programs.
    pub fn new() -> (r: RegexpSites)
        ensures
            r.sites@ == Map::<u128, u64>::empty(),
    {
        RegexpSites { sites: HashMap::new() }
    }

    /// The program of a literal's site, where it is kept.
    pub fn regexp_site_program(&self, source: u64, flags: u64) -> (r: Option<u64>)
        ensures
            r == program_of(self.sites@, source, flags),
    {
        match self.sites.get(&key_of_site(source, flags)) {
            Some(p) => Some(*p),
            None => None,
        }
    }

    /// Keeps the program that a site was compiled to; a full table is emptied first.
    pub fn keep_site_program(&mut self, source: u64, flags: u64, program: u64)
        ensures
            final(self).sites@ == (if old(self).sites@.len() >= MAX_SITES {
                Map::empty()
            } else {
                old(self).sites@
            }).insert(site_key(source, flags), program),
            program_of(final(self).sites@, source, flags) == Some(program),
    {
        if self.sites.len() >= MAX_SITES {
            self.sites.clear();
        }
        let _ = self.sites.insert(key_of_site(source, flags), program);
    }
}

/// Pruning drops no program of an object that is alive.
pub proof fn lemma_living_programs_stay(
    programs: Map<u64, u64>,
    pins: Seq<u64>,
    alive: Set<u64>,
    o: u64,
)
    requires
        alive.contains(o),
        programs.contains_key(o),
    ensures
        programs.remove_keys(Set::new(|x: u64| dead_pin(pins, alive, x))).contains_key(o),
        programs.remove_keys(Set::new(|x: u64| dead_pin(pins, alive, x)))[o] == programs[o],
{
}

} // verus!
