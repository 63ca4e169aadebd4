//! Guarded fast paths for iterating arrays: whether iteration is the intrinsic one and runs no
//! code, the iterators themselves, and their steps.
//!
//! A shape pins the key list of its objects. Values and attributes are not part of a shape, so
//! each use reads them anew.

use crate::num::{
    exact_int, exponent, integer_part, integer_value, is_nan, is_zero, nan, negative, to_count, zero,
    FRAC, SIGN,
};
use crate::object::{
    data_of, index_of_key, lemma_index_of_key, lookup, only_props_changed, put, Exotic, Heap, Named,
    Object, PropKind, Property, Props,
};
use crate::value::Value;
use vstd::prelude::*;

verus! {

/// No shape is remembered.
pub const NO_SHAPE: u32 = 0xffff_ffff;

/// The key is absent.
pub const ABSENT: u32 = 0xffff_ffff;

/// The key list of named properties.
pub open spec fn keys_of(s: Named) -> Seq<Seq<char>> {
    Seq::new(s.len(), |i: int| s[i].0)
}

/// The slot of a key.
pub open spec fn slot_in(s: Named, key: Seq<char>) -> Option<usize> {
    let i = index_of_key(s, key);
    if i < s.len() {
        Some(i as usize)
    } else {
        None
    }
}

proof fn lemma_keys_pin_slots(s: Named, t: Named, key: Seq<char>)
    requires
        keys_of(s) == keys_of(t),
    ensures
        index_of_key(s, key) == index_of_key(t, key),
        s.len() == t.len(),
{
    assert(keys_of(s).len() == s.len());
    assert(keys_of(t).len() == t.len());
    lemma_index_of_key(s, key);
    let k = index_of_key(s, key) as int;
    assert forall|i: int| 0 <= i < s.len() implies (#[trigger] t[i]).0 == s[i].0 by {
        assert(keys_of(s)[i] == keys_of(t)[i]);
    }
    crate::object::lemma_index_of_key_is(t, key, k);
}

/// The slot of one named key in one shape.
pub struct SlotCache {
    shape: u32,
    slot: u32,
    /// The properties that the shape was seen with.
    seen: Ghost<Named>,
}

impl SlotCache {
    /// The memo is of a key.
    pub closed spec fn is_of(self, key: Seq<char>) -> bool {
        self.shape != NO_SHAPE ==> {
            &&& self.seen@.len() < ABSENT
            &&& self.slot == match slot_in(self.seen@, key) {
                Some(s) => s as u32,
                None => ABSENT,
            }
        }
    }

    /// What is remembered agrees with a shape that pins the given keys.
    pub closed spec fn agrees(self, shape: u32, keys: Seq<Seq<char>>) -> bool {
        self.shape == shape ==> keys_of(self.seen@) == keys
    }

    /// An empty memo.
    pub fn new() -> (r: SlotCache)
        ensures
            forall|key: Seq<char>| r.is_of(key),
            forall|shape: u32, keys: Seq<Seq<char>>|
                shape != NO_SHAPE ==> #[trigger] r.agrees(shape, keys),
    {
        SlotCache { shape: NO_SHAPE, slot: ABSENT, seen: Ghost(Seq::empty()) }
    }

    /// The slot of the memo's key in properties of a shape.
    pub fn slot(&mut self, shape: u32, props: &Props, key: &str) -> (r: Option<usize>)
        requires
            shape != NO_SHAPE,
            props@.len() < ABSENT,
            old(self).is_of(key@),
            old(self).agrees(shape, keys_of(props@)),
        ensures
            r == slot_in(props@, key@),
            final(self).is_of(key@),
            final(self).agrees(shape, keys_of(props@)),
            forall|other: u32, keys: Seq<Seq<char>>|
                other != shape ==> #[trigger] final(self).agrees(other, keys),
    {
        proof {
            lemma_index_of_key(props@, key@);
        }
        if self.shape != shape {
            let k: usize = props.find(key);
            assert(props.items.len() == props@.len());
            self.shape = shape;
            self.slot = if k < props.items.len() {
                k as u32
            } else {
                ABSENT
            };
            self.seen = Ghost(props@);
        } else {
            proof {
                lemma_keys_pin_slots(self.seen@, props@, key@);
            }
        }
        if self.slot == ABSENT {
            None
        } else {
            Some(self.slot as usize)
        }
    }

    /// The property of the memo's key in properties of a shape.
    pub fn get<'a>(&mut self, shape: u32, props: &'a Props, key: &str) -> (r: Option<&'a Property>)
        requires
            shape != NO_SHAPE,
            props@.len() < ABSENT,
            old(self).is_of(key@),
            old(self).agrees(shape, keys_of(props@)),
        ensures
            match r {
                Some(p) => lookup(props@, key@) == Some(*p),
                None => lookup(props@, key@) is None,
            },
            final(self).is_of(key@),
            final(self).agrees(shape, keys_of(props@)),
            forall|other: u32, keys: Seq<Seq<char>>|
                other != shape ==> #[trigger] final(self).agrees(other, keys),
    {
        proof {
            lemma_index_of_key(props@, key@);
            assert(props.items.len() == props@.len());
        }
        match self.slot(shape, props, key) {
            Some(s) => Some(&props.items[s].prop),
            None => None,
        }
    }
}

/// The iteration intrinsics of a realm.
#[derive(Clone, Copy, Debug, PartialEq, Eq, Structural)]
pub struct Intrinsics {
    pub array_proto: u64,
    /// `Array.prototype.values`.
    pub values: u64,
    /// `%ArrayIteratorPrototype%.next`.
    pub next: u64,
    /// `%ArrayIteratorPrototype%`.
    pub aip: u64,
    /// Steps may be elided.
    pub step_enabled: bool,
}

/// What a realm has recorded of its iteration intrinsics.
#[derive(Clone, Copy, Debug, PartialEq, Eq, Structural)]
pub struct Recorded {
    pub values: Option<u64>,
    pub next: Option<u64>,
    pub aip: Option<u64>,
    pub step_enabled: bool,
}

/// The iteration intrinsics of a realm, once all are recorded.
pub open spec fn intrinsics_of(array_proto: u64, r: Recorded) -> Option<Intrinsics> {
    match (r.values, r.next, r.aip) {
        (Some(values), Some(next), Some(aip)) => Some(
            Intrinsics { array_proto, values, next, aip, step_enabled: r.step_enabled },
        ),
        _ => None,
    }
}

/// Whether a property is a data property that holds exactly one object.
pub open spec fn holds_object(p: Option<Property>, expected: u64) -> bool {
    p matches Some(q) && q.kind == PropKind::Data(Value::Obj(expected))
}

fn holds(p: Option<&Property>, expected: u64) -> (r: bool)
    ensures
        r == match p {
            Some(q) => holds_object(Some(*q), expected),
            None => false,
        },
{
    match p {
        Some(q) => match q.data_value() {
            Some(Value::Obj(f)) => *f == expected,
            _ => false,
        },
        None => false,
    }
}

/// Whether iterating an object is the intrinsic iteration and runs no code: it is an array of the
/// realm, or a lazy split view, without an own iterator, and the intrinsics are in their places.
pub open spec fn pristine(h: Heap, i: Intrinsics, key: Seq<char>, arr: u64, view: bool) -> bool {
    &&& h.has(arr) && h.has(i.array_proto) && h.has(i.aip)
    &&& if view {
        h.at(arr).exotic == Exotic::SplitView
    } else {
        h.at(arr).ic_plain && h.at(arr).exotic == Exotic::Array
    }
    &&& h.at(arr).proto == Some(i.array_proto)
    &&& lookup(h.at(arr).props@, key) is None
    &&& h.at(i.array_proto).ic_plain
    &&& holds_object(lookup(h.at(i.array_proto).props@, key), i.values)
    &&& h.at(i.aip).ic_plain && h.at(i.aip).exotic == Exotic::Ordinary
    &&& holds_object(lookup(h.at(i.aip).props@, "next"@), i.next)
}

/// Whether there is no `return` on a prototype chain of at most `left` ordinary objects.
pub open spec fn return_absent(h: Heap, cur: Option<u64>, left: nat) -> bool
    decreases left,
{
    match cur {
        None => true,
        Some(o) => {
            &&& left > 0
            &&& h.has(o)
            &&& h.at(o).ic_plain && h.at(o).exotic == Exotic::Ordinary
            &&& lookup(h.at(o).props@, "return"@) is None
            &&& return_absent(h, h.at(o).proto, (left - 1) as nat)
        },
    }
}

/// Whether the intrinsics are known and their array iterators have no `return` on their chain.
pub open spec fn no_return(h: Heap, i: Option<Intrinsics>) -> bool {
    i matches Some(i) && return_absent(h, Some(i.aip), RETURN_LEVELS as nat)
}

/// The objects of a prototype chain that a search for `return` passes over.
pub open spec fn passed(h: Heap, cur: Option<u64>, left: nat) -> Seq<u64>
    decreases left,
{
    match cur {
        None => Seq::empty(),
        Some(o) => if left > 0 && h.has(o) && h.at(o).ic_plain && h.at(o).exotic
            == Exotic::Ordinary && lookup(h.at(o).props@, "return"@) is None {
            seq![o] + passed(h, h.at(o).proto, (left - 1) as nat)
        } else {
            Seq::empty()
        },
    }
}

/// The longest chain that is searched for a `return`.
pub const RETURN_LEVELS: usize = 4;

/// A property with another value.
pub open spec fn revalued(p: Property, v: Value) -> Property {
    Property { kind: PropKind::Data(v), ..p }
}

/// The properties with another value under a key that is there.
pub open spec fn with_value(s: Named, key: Seq<char>, v: Value) -> Named {
    match lookup(s, key) {
        Some(p) => put(s, key, revalued(p, v)),
        None => s,
    }
}

/// The properties are those of an array iterator's.
pub open spec fn iterator_state(s: Named) -> bool {
    &&& lookup(s, "__ai_target"@) is Some
    &&& lookup(s, "__ai_index"@) is Some
    &&& lookup(s, "__ai_kind"@) is Some
}

/// What a step of an array iterator comes to.
pub enum IterStep {
    Yield(Value),
    Done,
    /// The protocol is to be run; nothing was touched.
    NotApplicable,
}

/// The element that an array holds under an index, as data.
pub open spec fn element(o: Object, i: int) -> Option<Value> {
    if 0 <= i < o.elems@.len() {
        match o.elems@[i] {
            Some(p) => match p.kind {
                PropKind::Data(v) => if v == Value::Empty {
                    None
                } else {
                    Some(v)
                },
                PropKind::Accessor { .. } => None,
            },
            None => None,
        }
    } else {
        None
    }
}

/// The Number that an array's `length` holds.
pub open spec fn length_of(o: Object) -> Option<u64> {
    match data_of(o.props@, "length"@) {
        Some(Value::Num(n)) => Some(n),
        _ => None,
    }
}

/// Whether an index is at or past a length: no index is past `NaN` or infinity.
pub open spec fn past(i: int, len: u64) -> bool {
    if nan(len) {
        false
    } else if negative(len) {
        true
    } else if exponent(len) == 2047 {
        false
    } else {
        match integer_value(len) {
            Some(n) => i >= n,
            None => i > integer_part(len),
        }
    }
}

/// How many indices are below a length of at most 2^32 - 1.
pub open spec fn indices_below(len: u64) -> Option<int> {
    if zero(len) {
        Some(0)
    } else if nan(len) || negative(len) || exponent(len) == 2047 {
        None
    } else if integer_part(len) < 0xffff_ffff || integer_value(len) == Some(0xffff_ffffint) {
        Some(integer_part(len))
    } else {
        None
    }
}

/// The index that an iterator is at: a whole number below 2^32 - 1, in a writable data property.
pub open spec fn iterator_index(s: Named) -> Option<int> {
    match lookup(s, "__ai_index"@) {
        Some(p) => match p.kind {
            PropKind::Data(Value::Num(n)) => match integer_value(n) {
                Some(i) => if p.writable && 0 <= i < 0xffff_ffff {
                    Some(i)
                } else {
                    None
                },
                None => None,
            },
            _ => None,
        },
        None => None,
    }
}

/// Whether an object's state is that of an iterator over values.
pub open spec fn values_kind(s: Named) -> bool {
    iterator_state(s) && (data_of(s, "__ai_kind"@) matches Some(Value::Num(k)) && zero(k))
}

/// What the intrinsic `next` comes to on an iterator, where it runs no code.
pub open spec fn iter_step(h: Heap, iter: Value) -> IterStep {
    match iter {
        Value::Obj(it) => if h.has(it) && h.at(it).ic_plain && h.at(it).exotic == Exotic::Ordinary
            && values_kind(h.at(it).props@) {
            match data_of(h.at(it).props@, "__ai_target"@) {
                Some(Value::Undefined) => IterStep::Done,
                Some(Value::Obj(t)) => match iterator_index(h.at(it).props@) {
                    Some(i) => target_step(h, t, i),
                    None => IterStep::NotApplicable,
                },
                _ => IterStep::NotApplicable,
            }
        } else {
            IterStep::NotApplicable
        },
        _ => IterStep::NotApplicable,
    }
}

/// What reading the next element of an array comes to.
pub open spec fn target_step(h: Heap, t: u64, i: int) -> IterStep {
    if h.has(t) && h.at(t).ic_plain && h.at(t).exotic == Exotic::Array {
        match length_of(h.at(t)) {
            Some(n) => if past(i, n) {
                IterStep::Done
            } else {
                match element(h.at(t), i) {
                    Some(v) => IterStep::Yield(v),
                    None => IterStep::NotApplicable,
                }
            },
            None => IterStep::NotApplicable,
        }
    } else {
        IterStep::NotApplicable
    }
}

fn num_of(p: Option<Value>) -> (r: Option<u64>)
    ensures
        match r {
            Some(n) => p == Some(Value::Num(n)),
            None => !(p matches Some(Value::Num(n))),
        },
{
    match p {
        Some(Value::Num(n)) => Some(n),
        _ => None,
    }
}

fn revalue(props: &mut Props, key: &str, v: Value)
    requires
        lookup(old(props)@, key@) is Some,
    ensures
        final(props)@ == with_value(old(props)@, key@, v),
{
    let p = match props.get(key) {
        Some(p) => Property {
            kind: PropKind::Data(v),
            writable: p.writable,
            enumerable: p.enumerable,
            configurable: p.configurable,
        },
        None => Property::plain(v),
    };
    props.insert(key, p);
}

fn exec_element(o: &Object, i: usize) -> (r: Option<Value>)
    ensures
        r == element(*o, i as int),
{
    if i >= o.elems.len() {
        return None;
    }
    match &o.elems[i] {
        Some(p) => match p.data_value() {
            Some(v) => match v {
                Value::Empty => None,
                _ => Some(v.duplicate()),
            },
            None => None,
        },
        None => None,
    }
}

fn exec_length(o: &Object) -> (r: Option<u64>)
    ensures
        r == length_of(*o),
{
    num_of(o.props.get_data("length"))
}

fn is_past(i: u64, len: u64) -> (r: bool)
    requires
        i < 0xffff_ffff,
    ensures
        r == past(i as int, len),
{
    if is_nan(len) {
        return false;
    }
    if len >= SIGN {
        return true;
    }
    if (len / FRAC) % 2048 == 2047 {
        return false;
    }
    let c: u64 = to_count(len) as u64;
    if i < c {
        false
    } else if i > c {
        true
    } else {
        exact_int(len).is_some()
    }
}

fn count_below(len: u64) -> (r: Option<u64>)
    ensures
        match r {
            Some(n) => indices_below(len) == Some(n as int),
            None => indices_below(len) is None,
        },
        r matches Some(n) ==> n <= 0xffff_ffff,
{
    if is_zero(len) {
        return Some(0);
    }
    if is_nan(len) || len >= SIGN || (len / FRAC) % 2048 == 2047 {
        return None;
    }
    let c: u64 = to_count(len) as u64;
    if c < 0xffff_ffff {
        return Some(c);
    }
    match exact_int(len) {
        Some(v) => if v == 0xffff_ffff {
            Some(0xffff_ffff)
        } else {
            None
        },
        None => None,
    }
}

/// The memos of the fast paths.
pub struct LangCaches {
    pub intrinsics: Option<Intrinsics>,
    /// The prototype epoch and the realm at which no `return` was found.
    pub ret_absent: Option<(u32, u64)>,
    /// The properties of a fresh array iterator, without its target.
    pub iter_template: Option<Props>,
}

impl LangCaches {
    /// The template is an array iterator's, without its target.
    pub open spec fn wf(self) -> bool {
        self.iter_template matches Some(t) ==> iterator_state(t@) && data_of(t@, "__ai_target"@)
            == Some(Value::Undefined)
    }

    /// What is remembered of the intrinsics is what the realm has recorded.
    pub open spec fn knows(self, array_proto: u64, rec: Recorded) -> bool {
        self.intrinsics matches Some(m) ==> m.array_proto == array_proto ==> Some(m)
            == intrinsics_of(array_proto, rec)
    }

    /// No memo.
    pub fn new() -> (r: LangCaches)
        ensures
            r.wf(),
            r.intrinsics is None,
            r.ret_absent is None,
            r.iter_template is None,
    {
        LangCaches { intrinsics: None, ret_absent: None, iter_template: None }
    }

    /// The iteration intrinsics of a realm.
    pub fn iter_intrinsics(&mut self, array_proto: u64, rec: Recorded) -> (r: Option<Intrinsics>)
        requires
            old(self).knows(array_proto, rec),
        ensures
            r == intrinsics_of(array_proto, rec),
            final(self).knows(array_proto, rec),
            *final(self) == (LangCaches { intrinsics: final(self).intrinsics, ..*old(self) }),
    {
        if let Some(m) = self.intrinsics {
            if m.array_proto == array_proto {
                return Some(m);
            }
        }
        match (rec.values, rec.next, rec.aip) {
            (Some(values), Some(next), Some(aip)) => {
                let m = Intrinsics {
                    array_proto,
                    values,
                    next,
                    aip,
                    step_enabled: rec.step_enabled,
                };
                self.intrinsics = Some(m);
                Some(m)
            },
            _ => None,
        }
    }

    /// The intrinsic `next`.
    pub fn array_iter_next_intrinsic(&mut self, array_proto: u64, rec: Recorded) -> (r: Option<u64>)
        requires
            old(self).knows(array_proto, rec),
        ensures
            r == match intrinsics_of(array_proto, rec) {
                Some(i) => Some(i.next),
                None => None,
            },
            final(self).knows(array_proto, rec),
            *final(self) == (LangCaches { intrinsics: final(self).intrinsics, ..*old(self) }),
    {
        match self.iter_intrinsics(array_proto, rec) {
            Some(i) => Some(i.next),
            None => None,
        }
    }

    /// Whether a function is the intrinsic `next`.
    pub fn is_array_iter_next(&mut self, array_proto: u64, rec: Recorded, f: u64) -> (r: bool)
        requires
            old(self).knows(array_proto, rec),
        ensures
            r == (intrinsics_of(array_proto, rec) matches Some(i) && i.next == f),
            final(self).knows(array_proto, rec),
            *final(self) == (LangCaches { intrinsics: final(self).intrinsics, ..*old(self) }),
    {
        match self.iter_intrinsics(array_proto, rec) {
            Some(i) => i.next == f,
            None => false,
        }
    }

    /// Whether a function is the intrinsic `next` and steps may be elided.
    pub fn is_elidable_array_iter_next(
        &mut self,
        array_proto: u64,
        rec: Recorded,
        f: u64,
    ) -> (r: bool)
        requires
            old(self).knows(array_proto, rec),
        ensures
            r == (intrinsics_of(array_proto, rec) matches Some(i) && i.next == f
                && i.step_enabled),
            final(self).knows(array_proto, rec),
            *final(self) == (LangCaches { intrinsics: final(self).intrinsics, ..*old(self) }),
    {
        match self.iter_intrinsics(array_proto, rec) {
            Some(i) => i.next == f && i.step_enabled,
            None => false,
        }
    }

    fn pristine_iteration(
        &mut self,
        heap: &Heap,
        array_proto: u64,
        rec: Recorded,
        key: Option<&str>,
        arr: u64,
        view: bool,
    ) -> (r: bool)
        requires
            old(self).knows(array_proto, rec),
        ensures
            r == (key is Some && (intrinsics_of(array_proto, rec) matches Some(i) && pristine(
                *heap,
                i,
                key->0@,
                arr,
                view,
            ))),
            final(self).knows(array_proto, rec),
            *final(self) == (LangCaches { intrinsics: final(self).intrinsics, ..*old(self) }),
    {
        let i = match self.iter_intrinsics(array_proto, rec) {
            Some(i) => i,
            None => {
                return false;
            },
        };
        let k = match key {
            Some(k) => k,
            None => {
                return false;
            },
        };
        if !heap.holds(arr) || !heap.holds(i.array_proto) || !heap.holds(i.aip) {
            return false;
        }
        let b = heap.get(arr);
        let kind_ok = if view {
            b.exotic == Exotic::SplitView
        } else {
            b.ic_plain && b.exotic == Exotic::Array
        };
        let proto_ok = match b.proto {
            Some(p) => p == array_proto,
            None => false,
        };
        if !kind_ok || !proto_ok || b.props.contains(k) {
            return false;
        }
        let pb = heap.get(i.array_proto);
        if !pb.ic_plain || !holds(pb.props.get(k), i.values) {
            return false;
        }
        let ab = heap.get(i.aip);
        ab.ic_plain && ab.exotic == Exotic::Ordinary && holds(ab.props.get("next"), i.next)
    }

    /// Whether iterating an array is the intrinsic iteration and runs no code. `key` is the key of
    /// the realm's `Symbol.iterator`.
    pub fn pristine_array_iteration(
        &mut self,
        heap: &Heap,
        array_proto: u64,
        rec: Recorded,
        key: Option<&str>,
        arr: u64,
    ) -> (r: bool)
        requires
            old(self).knows(array_proto, rec),
        ensures
            r == (key is Some && (intrinsics_of(array_proto, rec) matches Some(i) && pristine(
                *heap,
                i,
                key->0@,
                arr,
                false,
            ))),
            final(self).knows(array_proto, rec),
            *final(self) == (LangCaches { intrinsics: final(self).intrinsics, ..*old(self) }),
    {
        self.pristine_iteration(heap, array_proto, rec, key, arr, false)
    }

    /// Whether iterating a lazy split view is the intrinsic iteration and runs no code.
    pub fn pristine_view_iteration(
        &mut self,
        heap: &Heap,
        array_proto: u64,
        rec: Recorded,
        key: Option<&str>,
        arr: u64,
    ) -> (r: bool)
        requires
            old(self).knows(array_proto, rec),
        ensures
            r == (key is Some && (intrinsics_of(array_proto, rec) matches Some(i) && pristine(
                *heap,
                i,
                key->0@,
                arr,
                true,
            ))),
            final(self).knows(array_proto, rec),
            *final(self) == (LangCaches { intrinsics: final(self).intrinsics, ..*old(self) }),
    {
        self.pristine_iteration(heap, array_proto, rec, key, arr, true)
    }

    /// No `return` was found at this epoch, in this realm.
    pub open spec fn found_absent(self, epoch: u32, realm: u64) -> bool {
        epoch != u32::MAX && self.ret_absent == Some((epoch, realm))
    }

    /// Where no `return` was found at the epoch, there still is none.
    pub open spec fn remembers_absence(
        self,
        heap: Heap,
        epoch: u32,
        realm: u64,
        i: Option<Intrinsics>,
    ) -> bool {
        self.found_absent(epoch, realm) ==> no_return(heap, i)
    }

    /// Whether an array iterator without an own `return` has none on its prototype chain either:
    /// closing it then does nothing. The answer is remembered for the epoch, which moves when a
    /// prototype changes; for that the objects that the search passed over are to be marked as
    /// prototypes, and are added to `marks`.
    pub fn array_iter_return_absent(
        &mut self,
        heap: &Heap,
        epoch: u32,
        realm: u64,
        i: Option<Intrinsics>,
        marks: &mut Vec<u64>,
    ) -> (r: bool)
        requires
            old(self).remembers_absence(*heap, epoch, realm, i),
        ensures
            r == no_return(*heap, i),
            final(self).remembers_absence(*heap, epoch, realm, i),
            *final(self) == (LangCaches {
                ret_absent: if r {
                    Some((epoch, realm))
                } else {
                    old(self).ret_absent
                },
                ..*old(self)
            }),
            final(marks)@ == old(marks)@ + match i {
                Some(i) if !old(self).found_absent(epoch, realm) => passed(
                    *heap,
                    Some(i.aip),
                    RETURN_LEVELS as nat,
                ),
                _ => Seq::empty(),
            },
    {
        let ghost m0 = marks@;
        assert(m0 + Seq::<u64>::empty() =~= m0);
        if epoch != u32::MAX {
            if let Some((e, at)) = self.ret_absent {
                if e == epoch && at == realm {
                    return true;
                }
            }
        }
        let aip: u64 = match i {
            Some(known) => known.aip,
            None => {
                return false;
            },
        };
        let mut cur: Option<u64> = Some(aip);
        let mut left: usize = RETURN_LEVELS;
        loop
            invariant
                return_absent(*heap, Some(aip), RETURN_LEVELS as nat) == return_absent(
                    *heap,
                    cur,
                    left as nat,
                ),
                m0 + passed(*heap, Some(aip), RETURN_LEVELS as nat) == marks@ + passed(
                    *heap,
                    cur,
                    left as nat,
                ),
                *self == *old(self),
                i matches Some(known) && known.aip == aip,
                m0 == old(marks)@,
                !old(self).found_absent(epoch, realm),
            decreases left,
        {
            let o: u64 = match cur {
                Some(o) => o,
                None => {
                    self.ret_absent = Some((epoch, realm));
                    assert(marks@ + Seq::<u64>::empty() =~= marks@);
                    return true;
                },
            };
            if left == 0 || !heap.holds(o) {
                assert(marks@ + Seq::<u64>::empty() =~= marks@);
                return false;
            }
            let b = heap.get(o);
            if !b.ic_plain || b.exotic != Exotic::Ordinary || b.props.contains("return") {
                assert(marks@ + Seq::<u64>::empty() =~= marks@);
                return false;
            }
            let ghost rest = passed(*heap, b.proto, (left - 1) as nat);
            assert(marks@ + (seq![o] + rest) =~= marks@.push(o) + rest);
            marks.push(o);
            cur = b.proto;
            left = left - 1;
        }
    }

    /// Remembers a fresh array iterator's properties as the template of those to come.
    pub fn remember_iter_template(&mut self, heap: &Heap, obj: &Value)
        requires
            *obj matches Value::Obj(o) ==> heap.has(o),
            old(self).wf(),
        ensures
            final(self).wf(),
            final(self).intrinsics == old(self).intrinsics,
            final(self).ret_absent == old(self).ret_absent,
            match *obj {
                Value::Obj(o) => if iterator_state(heap.at(o).props@) {
                    final(self).iter_template matches Some(t) && t@ == with_value(
                        heap.at(o).props@,
                        "__ai_target"@,
                        Value::Undefined,
                    )
                } else {
                    final(self).iter_template == old(self).iter_template
                },
                _ => final(self).iter_template == old(self).iter_template,
            },
    {
        let o: u64 = match obj {
            Value::Obj(o) => *o,
            _ => {
                return;
            },
        };
        let b = heap.get(o);
        if b.props.contains("__ai_target") && b.props.contains("__ai_index") && b.props.contains(
            "__ai_kind",
        ) {
            let mut props = b.props.duplicate();
            revalue(&mut props, "__ai_target", Value::Undefined);
            proof {
                lemma_state_kept(b.props@, "__ai_target"@, Value::Undefined);
            }
            self.iter_template = Some(props);
        }
    }

    /// Makes an iterator over an array's values from the template. Without a template nothing is
    /// made.
    pub fn new_array_iterator(&self, heap: &mut Heap, aip: Option<u64>, arr: &Value) -> (r: Option<
        u64,
    >)
        requires
            self.wf(),
            old(heap).objects@.len() < u64::MAX,
        ensures
            match self.iter_template {
                Some(t) => {
                    &&& r == Some(old(heap).objects@.len() as u64)
                    &&& final(heap).objects@.len() == old(heap).objects@.len() + 1
                    &&& final(heap).objects@.drop_last() == old(heap).objects@
                    &&& crate::object::ordinary(final(heap).objects@.last(), aip)
                    &&& final(heap).objects@.last().props@ == with_value(
                        t@,
                        "__ai_target"@,
                        *arr,
                    )
                },
                None => r is None && *final(heap) == *old(heap),
            },
    {
        match &self.iter_template {
            Some(t) => {
                let mut props = t.duplicate();
                revalue(&mut props, "__ai_target", arr.duplicate());
                let mut o = Object::new(aip);
                o.props = props;
                let id = heap.add_object(o);
                assert(heap.objects@.drop_last() =~= old(heap).objects@);
                Some(id)
            },
            None => None,
        }
    }

    /// Whether closing an iterator does nothing: it has the template's shape (so no own
    /// `return`), the intrinsic prototype, and no `return` on the chain.
    pub fn array_iter_close_is_noop(
        &mut self,
        heap: &Heap,
        epoch: u32,
        realm: u64,
        i: Option<Intrinsics>,
        iter: &Value,
        same_shape: bool,
        marks: &mut Vec<u64>,
    ) -> (r: bool)
        requires
            *iter matches Value::Obj(o) ==> heap.has(o),
            old(self).remembers_absence(*heap, epoch, realm, i),
        ensures
            ({
                let template_like = old(self).iter_template is Some && same_shape && (
                *iter matches Value::Obj(o) && (i matches Some(i) && heap.at(o).ic_plain
                    && heap.at(o).exotic == Exotic::Ordinary && heap.at(o).proto == Some(i.aip)));
                &&& r == (template_like && no_return(*heap, i))
                &&& *final(self) == LangCaches {
                    ret_absent: if r {
                        Some((epoch, realm))
                    } else {
                        old(self).ret_absent
                    },
                    ..*old(self)
                }
                &&& final(marks)@ == old(marks)@ + if template_like && !old(self).found_absent(
                    epoch,
                    realm,
                ) {
                    passed(*heap, Some(i->0.aip), RETURN_LEVELS as nat)
                } else {
                    Seq::empty()
                }
            }),
            final(self).remembers_absence(*heap, epoch, realm, i),
    {
        assert(marks@ + Seq::<u64>::empty() =~= marks@);
        let o: u64 = match iter {
            Value::Obj(o) => *o,
            _ => {
                return false;
            },
        };
        if self.iter_template.is_none() || !same_shape {
            return false;
        }
        let b = heap.get(o);
        let proto_ok = match (b.proto, i) {
            (Some(p), Some(i)) => p == i.aip,
            _ => false,
        };
        if !b.ic_plain || b.exotic != Exotic::Ordinary || !proto_ok {
            return false;
        }
        self.array_iter_return_absent(heap, epoch, realm, i, marks)
    }
}

proof fn lemma_state_kept(s: Named, key: Seq<char>, v: Value)
    requires
        iterator_state(s),
        lookup(s, key) is Some,
    ensures
        iterator_state(with_value(s, key, v)),
        data_of(with_value(s, key, v), key) == Some(v),
{
    let p = revalued(lookup(s, key)->0, v);
    crate::object::lemma_put_reads_back(s, key, p, "__ai_target"@);
    crate::object::lemma_put_reads_back(s, key, p, "__ai_index"@);
    crate::object::lemma_put_reads_back(s, key, p, "__ai_kind"@);
    crate::object::lemma_put_reads_back(s, key, p, key);
}

/// Steps an array iterator where the intrinsic `next` runs no code: it yields the next element
/// and moves on, or is done and lets go of its target. Anything irregular is left to the protocol.
pub fn array_iter_step_fast(heap: &mut Heap, iter: &Value) -> (r: IterStep)
    ensures
        r == iter_step(*old(heap), *iter),
        match r {
            IterStep::NotApplicable => *final(heap) == *old(heap),
            IterStep::Done => {
                let it = iter->Obj_0;
                if data_of(old(heap).at(it).props@, "__ai_target"@) == Some(Value::Undefined) {
                    *final(heap) == *old(heap)
                } else {
                    only_props_changed(
                        *old(heap),
                        *final(heap),
                        it,
                        with_value(old(heap).at(it).props@, "__ai_target"@, Value::Undefined),
                    )
                }
            },
            IterStep::Yield(_) => exists|n: u64|
                {
                    &&& integer_value(n) == Some(
                        iterator_index(old(heap).at(iter->Obj_0).props@)->0 + 1,
                    )
                    &&& #[trigger] only_props_changed(
                        *old(heap),
                        *final(heap),
                        iter->Obj_0,
                        with_value(
                            old(heap).at(iter->Obj_0).props@,
                            "__ai_index"@,
                            Value::Num(n),
                        ),
                    )
                },
        },
{
    let it: u64 = match iter {
        Value::Obj(o) => *o,
        _ => {
            return IterStep::NotApplicable;
        },
    };
    if !heap.holds(it) {
        return IterStep::NotApplicable;
    }
    let b = heap.get(it);
    if !b.ic_plain || b.exotic != Exotic::Ordinary {
        return IterStep::NotApplicable;
    }
    if !b.props.contains("__ai_target") || !b.props.contains("__ai_index") || !b.props.contains(
        "__ai_kind",
    ) {
        return IterStep::NotApplicable;
    }
    match num_of(b.props.get_data("__ai_kind")) {
        Some(k) => {
            if !is_zero(k) {
                return IterStep::NotApplicable;
            }
        },
        None => {
            return IterStep::NotApplicable;
        },
    }
    let t: u64 = match b.props.get_data("__ai_target") {
        Some(Value::Undefined) => {
            return IterStep::Done;
        },
        Some(Value::Obj(t)) => t,
        _ => {
            return IterStep::NotApplicable;
        },
    };
    let idx: u64 = match b.props.get("__ai_index") {
        Some(p) => match p.data_value() {
            Some(Value::Num(n)) => match exact_int(*n) {
                Some(i) => {
                    if !p.writable || i < 0 || i >= 0xffff_ffff {
                        return IterStep::NotApplicable;
                    }
                    i as u64
                },
                None => {
                    return IterStep::NotApplicable;
                },
            },
            _ => {
                return IterStep::NotApplicable;
            },
        },
        None => {
            return IterStep::NotApplicable;
        },
    };
    assert(iterator_index(b.props@) == Some(idx as int));
    if !heap.holds(t) {
        return IterStep::NotApplicable;
    }
    let tb = heap.get(t);
    if !tb.ic_plain || tb.exotic != Exotic::Array {
        return IterStep::NotApplicable;
    }
    assert(tb == heap.objects@[t as int]);
    let len: u64 = match exec_length(tb) {
        Some(n) => n,
        None => {
            return IterStep::NotApplicable;
        },
    };
    let mut props = b.props.duplicate();
    if is_past(idx, len) {
        revalue(&mut props, "__ai_target", Value::Undefined);
        heap.set_props(it, props);
        return IterStep::Done;
    }
    if idx >= tb.elems.len() as u64 {
        return IterStep::NotApplicable;
    }
    match exec_element(tb, idx as usize) {
        Some(v) => {
            let next: u64 = crate::num::from_int(idx + 1);
            revalue(&mut props, "__ai_index", Value::Num(next));
            heap.set_props(it, props);
            IterStep::Yield(v)
        },
        None => IterStep::NotApplicable,
    }
}

/// The elements of an array, where every index below its length holds data.
pub open spec fn dense_values(o: Object) -> Option<Seq<Value>> {
    match length_of(o) {
        Some(len) => match indices_below(len) {
            Some(n) => if forall|i: int| 0 <= i < n ==> (#[trigger] element(o, i)) is Some {
                Some(Seq::new(n as nat, |i: int| element(o, i)->0))
            } else {
                None
            },
            None => None,
        },
        None => None,
    }
}

/// The elements of an array as its iterator would yield them, where every index below its length
/// holds data.
pub fn dense_array_values(o: &Object) -> (r: Option<Vec<Value>>)
    ensures
        match r {
            Some(vs) => dense_values(*o) == Some(vs@),
            None => dense_values(*o) is None,
        },
{
    let len: u64 = match exec_length(o) {
        Some(n) => n,
        None => {
            return None;
        },
    };
    let n: u64 = match count_below(len) {
        Some(n) => n,
        None => {
            return None;
        },
    };
    let mut out: Vec<Value> = Vec::new();
    let mut i: u64 = 0;
    while i < n
        invariant
            i <= n,
            0 <= n <= 0xffff_ffff,
            length_of(*o) == Some(len),
            indices_below(len) == Some(n as int),
            out@.len() == i,
            forall|j: int| 0 <= j < i ==> #[trigger] element(*o, j) == Some(out@[j]),
        decreases n - i,
    {
        if i >= o.elems.len() as u64 {
            assert(element(*o, i as int) is None);
            return None;
        }
        match exec_element(o, i as usize) {
            Some(v) => {
                out.push(v);
            },
            None => {
                assert(element(*o, i as int) is None);
                return None;
            },
        }
        i = i + 1;
    }
    assert(out@ =~= Seq::new(n as nat, |j: int| element(*o, j)->0));
    Some(out)
}

/// The dense values of an array are what its iterator yields: at each index its value, and after
/// the last it is done. An array's length is a whole number.
pub proof fn lemma_steps_yield_the_dense_values(h: Heap, t: u64, i: int)
    requires
        h.has(t),
        h.at(t).ic_plain,
        h.at(t).exotic == Exotic::Array,
        length_of(h.at(t)) matches Some(n) && integer_value(n) is Some,
        dense_values(h.at(t)) is Some,
        0 <= i,
    ensures
        target_step(h, t, i) == if i < dense_values(h.at(t))->0.len() {
            IterStep::Yield(dense_values(h.at(t))->0[i])
        } else {
            IterStep::Done
        },
{
    crate::num::lemma_integer_part(length_of(h.at(t))->0);
    if i < indices_below(length_of(h.at(t))->0)->0 {
        assert(element(h.at(t), i) is Some);
    }
}

/// An exhausted iterator stays done: its target is gone.
pub proof fn lemma_done_stays_done(h: Heap, k: Heap, it: u64)
    requires
        h.has(it),
        iter_step(h, Value::Obj(it)) is Done,
        only_props_changed(
            h,
            k,
            it,
            with_value(h.at(it).props@, "__ai_target"@, Value::Undefined),
        ),
    ensures
        iter_step(k, Value::Obj(it)) is Done,
{
    let s = h.at(it).props@;
    lemma_state_kept(s, "__ai_target"@, Value::Undefined);
    let p = revalued(lookup(s, "__ai_target"@)->0, Value::Undefined);
    reveal_strlit("__ai_target");
    reveal_strlit("__ai_kind");
    assert("__ai_target"@[5] != "__ai_kind"@[5]);
    crate::object::lemma_put_reads_back(s, "__ai_target"@, p, "__ai_kind"@);
}

} // verus!
