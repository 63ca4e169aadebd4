//! Objects: properties in their order, prototypes, and the heap that holds them.

use crate::value::Value;
use vstd::prelude::*;

verus! {

/// What a property holds.
pub enum PropKind {
    Data(Value),
    Accessor { get: Option<Value>, set: Option<Value> },
}

/// A property and its attributes.
pub struct Property {
    pub kind: PropKind,
    pub writable: bool,
    pub enumerable: bool,
    pub configurable: bool,
}

fn duplicate_opt(v: &Option<Value>) -> (r: Option<Value>)
    ensures
        r == *v,
{
    match v {
        Some(x) => Some(x.duplicate()),
        None => None,
    }
}

impl Property {
    pub open spec fn spec_data(
        value: Value,
        writable: bool,
        enumerable: bool,
        configurable: bool,
    ) -> Property {
        Property { kind: PropKind::Data(value), writable, enumerable, configurable }
    }

    /// A data property.
    pub fn data(value: Value, writable: bool, enumerable: bool, configurable: bool) -> (r: Property)
        ensures
            r == Property::spec_data(value, writable, enumerable, configurable),
    {
        Property { kind: PropKind::Data(value), writable, enumerable, configurable }
    }

    /// A data property with every attribute.
    pub fn plain(value: Value) -> (r: Property)
        ensures
            r == Property::spec_data(value, true, true, true),
    {
        Property { kind: PropKind::Data(value), writable: true, enumerable: true, configurable: true }
    }

    /// A data property as built-ins have them: not enumerable.
    pub fn builtin(value: Value) -> (r: Property)
        ensures
            r == Property::spec_data(value, true, false, true),
    {
        Property {
            kind: PropKind::Data(value),
            writable: true,
            enumerable: false,
            configurable: true,
        }
    }

    /// An accessor property.
    pub fn accessor_prop(
        get: Option<Value>,
        set: Option<Value>,
        enumerable: bool,
        configurable: bool,
    ) -> (r: Property)
        ensures
            r == (Property {
                kind: PropKind::Accessor { get, set },
                writable: false,
                enumerable,
                configurable,
            }),
    {
        Property { kind: PropKind::Accessor { get, set }, writable: false, enumerable, configurable }
    }

    /// Whether it is an accessor.
    pub fn accessor(&self) -> (r: bool)
        ensures
            r == (self.kind is Accessor),
    {
        match self.kind {
            PropKind::Accessor { .. } => true,
            PropKind::Data(_) => false,
        }
    }

    /// The value of a data property.
    pub fn data_value(&self) -> (r: Option<&Value>)
        ensures
            match r {
                Some(v) => self.kind == PropKind::Data(*v),
                None => self.kind is Accessor,
            },
    {
        match &self.kind {
            PropKind::Data(v) => Some(v),
            PropKind::Accessor { .. } => None,
        }
    }

    /// A copy of the property.
    pub fn duplicate(&self) -> (r: Property)
        ensures
            r == *self,
    {
        let kind = match &self.kind {
            PropKind::Data(v) => PropKind::Data(v.duplicate()),
            PropKind::Accessor { get, set } => PropKind::Accessor {
                get: duplicate_opt(get),
                set: duplicate_opt(set),
            },
        };
        Property {
            kind,
            writable: self.writable,
            enumerable: self.enumerable,
            configurable: self.configurable,
        }
    }
}

/// A named property.
pub struct Prop {
    pub key: String,
    pub prop: Property,
}

/// The named properties of an object, in order.
pub struct Props {
    pub items: Vec<Prop>,
}

/// Named properties, by their texts.
pub type Named = Seq<(Seq<char>, Property)>;

impl View for Props {
    type V = Named;

    open spec fn view(&self) -> Named {
        Seq::new(self.items@.len(), |i: int| (self.items@[i].key@, self.items@[i].prop))
    }
}

/// The index of a key, or the length.
pub open spec fn index_of_key(s: Named, key: Seq<char>) -> nat
    decreases s.len(),
{
    if s.len() == 0 || s[0].0 == key {
        0
    } else {
        1 + index_of_key(s.drop_first(), key)
    }
}

/// The property of a key.
pub open spec fn lookup(s: Named, key: Seq<char>) -> Option<Property> {
    let i = index_of_key(s, key);
    if i < s.len() {
        Some(s[i as int].1)
    } else {
        None
    }
}

/// The value of a key's data property.
pub open spec fn data_of(s: Named, key: Seq<char>) -> Option<Value> {
    match lookup(s, key) {
        Some(p) => match p.kind {
            PropKind::Data(v) => Some(v),
            PropKind::Accessor { .. } => None,
        },
        None => None,
    }
}

/// The properties with a key set: in its place, or last.
pub open spec fn put(s: Named, key: Seq<char>, p: Property) -> Named {
    let i = index_of_key(s, key);
    if i < s.len() {
        s.update(i as int, (key, p))
    } else {
        s.push((key, p))
    }
}

/// The properties without a key.
pub open spec fn without(s: Named, key: Seq<char>) -> Named {
    let i = index_of_key(s, key);
    if i < s.len() {
        s.remove(i as int)
    } else {
        s
    }
}

/// No key occurs twice.
pub open spec fn distinct(s: Named) -> bool {
    forall|i: int, j: int| 0 <= i < j < s.len() ==> s[i].0 != s[j].0
}

pub proof fn lemma_index_of_key(s: Named, key: Seq<char>)
    ensures
        index_of_key(s, key) <= s.len(),
        index_of_key(s, key) < s.len() ==> s[index_of_key(s, key) as int].0 == key,
        forall|i: int| 0 <= i < index_of_key(s, key) ==> (#[trigger] s[i]).0 != key,
    decreases s.len(),
{
    if s.len() > 0 && s[0].0 != key {
        lemma_index_of_key(s.drop_first(), key);
        let k = index_of_key(s.drop_first(), key);
        assert forall|i: int| 0 <= i < k + 1 implies (#[trigger] s[i]).0 != key by {
            if i > 0 {
                assert(s.drop_first()[i - 1] == s[i]);
            }
        }
    }
}

pub proof fn lemma_index_of_key_is(s: Named, key: Seq<char>, k: int)
    requires
        0 <= k <= s.len(),
        k < s.len() ==> s[k].0 == key,
        forall|i: int| 0 <= i < k ==> (#[trigger] s[i]).0 != key,
    ensures
        index_of_key(s, key) == k,
{
    lemma_index_of_key(s, key);
    let j = index_of_key(s, key);
    if j < k {
        assert(s[j as int].0 != key);
    } else if j > k {
        assert(s[k].0 != key);
    }
}

/// A property that is put reads back, and every other key keeps its property.
pub proof fn lemma_put_reads_back(s: Named, key: Seq<char>, p: Property, other: Seq<char>)
    ensures
        lookup(put(s, key, p), other) == if other == key {
            Some(p)
        } else {
            lookup(s, other)
        },
        distinct(s) ==> distinct(put(s, key, p)),
{
    lemma_index_of_key(s, key);
    lemma_index_of_key(s, other);
    let t = put(s, key, p);
    let k = index_of_key(s, key) as int;
    let j = index_of_key(s, other) as int;
    if other == key {
        lemma_index_of_key_is(t, other, k);
    } else if j < s.len() {
        lemma_index_of_key_is(t, other, j);
    } else {
        lemma_index_of_key_is(t, other, t.len() as int);
    }
}

/// A removed key is gone, and every other key keeps its property.
pub proof fn lemma_without_is_gone(s: Named, key: Seq<char>, other: Seq<char>)
    requires
        distinct(s),
    ensures
        lookup(without(s, key), other) == if other == key {
            None
        } else {
            lookup(s, other)
        },
        distinct(without(s, key)),
{
    lemma_index_of_key(s, key);
    lemma_index_of_key(s, other);
    let t = without(s, key);
    let k = index_of_key(s, key) as int;
    let j = index_of_key(s, other) as int;
    if k < s.len() {
        assert forall|i: int| 0 <= i < t.len() implies #[trigger] t[i] == if i < k {
            s[i]
        } else {
            s[i + 1]
        } by {}
        if other == key {
            lemma_index_of_key_is(t, other, t.len() as int);
        } else if j < k {
            lemma_index_of_key_is(t, other, j);
        } else if j < s.len() {
            lemma_index_of_key_is(t, other, j - 1);
        } else {
            lemma_index_of_key_is(t, other, t.len() as int);
        }
    }
}

impl Props {
    /// No properties.
    pub fn new() -> (r: Props)
        ensures
            r@ == Seq::<(Seq<char>, Property)>::empty(),
    {
        let r = Props { items: Vec::new() };
        assert(r@ =~= Seq::<(Seq<char>, Property)>::empty());
        r
    }

    /// The index of a key, or the length.
    pub fn find(&self, key: &str) -> (r: usize)
        ensures
            r == index_of_key(self@, key@),
            r <= self.items@.len(),
    {
        let mut k: usize = 0;
        while k < self.items.len() && !crate::text::same(self.items[k].key.as_str(), key)
            invariant
                k <= self.items@.len(),
                forall|i: int| 0 <= i < k ==> (#[trigger] self@[i]).0 != key@,
            decreases self.items@.len() - k,
        {
            k = k + 1;
        }
        proof {
            lemma_index_of_key_is(self@, key@, k as int);
        }
        k
    }

    /// Whether a key is there.
    pub fn contains(&self, key: &str) -> (r: bool)
        ensures
            r == (lookup(self@, key@) is Some),
    {
        self.find(key) < self.items.len()
    }

    /// The property of a key.
    pub fn get(&self, key: &str) -> (r: Option<&Property>)
        ensures
            match r {
                Some(p) => lookup(self@, key@) == Some(*p),
                None => lookup(self@, key@) is None,
            },
    {
        let k: usize = self.find(key);
        if k < self.items.len() {
            Some(&self.items[k].prop)
        } else {
            None
        }
    }

    /// The value of a key's data property.
    pub fn get_data(&self, key: &str) -> (r: Option<Value>)
        ensures
            r == data_of(self@, key@),
    {
        match self.get(key) {
            Some(p) => match p.data_value() {
                Some(v) => Some(v.duplicate()),
                None => None,
            },
            None => None,
        }
    }

    /// Sets a key: in its place, or last.
    pub fn insert(&mut self, key: &str, p: Property)
        ensures
            final(self)@ == put(old(self)@, key@, p),
    {
        let ghost s0 = self@;
        let k: usize = self.find(key);
        let item = Prop { key: key.to_owned(), prop: p };
        if k < self.items.len() {
            self.items.set(k, item);
        } else {
            self.items.push(item);
        }
        assert(self@ =~= put(s0, key@, p));
    }

    /// Removes a key.
    pub fn remove(&mut self, key: &str)
        ensures
            final(self)@ == without(old(self)@, key@),
    {
        let ghost s0 = self@;
        let k: usize = self.find(key);
        if k < self.items.len() {
            let _ = self.items.remove(k);
        }
        assert(self@ =~= without(s0, key@));
    }

    /// A copy of the properties.
    pub fn duplicate(&self) -> (r: Props)
        ensures
            r@ == self@,
    {
        let mut items: Vec<Prop> = Vec::new();
        let mut i: usize = 0;
        while i < self.items.len()
            invariant
                i <= self.items@.len(),
                items@.len() == i,
                forall|j: int|
                    0 <= j < i ==> (#[trigger] items@[j]).key@ == self.items@[j].key@
                        && items@[j].prop == self.items@[j].prop,
            decreases self.items@.len() - i,
        {
            let p = &self.items[i];
            items.push(Prop { key: p.key.clone(), prop: p.prop.duplicate() });
            i = i + 1;
        }
        let r = Props { items };
        assert(r@ =~= self@);
        r
    }
}

/// Whether a key is that of a symbol.
pub open spec fn sym_key(key: Seq<char>) -> bool {
    key.len() >= 2 && key[0] == '@' && key[1] == '@'
}

/// Whether a key is that of a private name or of an internal slot.
pub open spec fn private_key(key: Seq<char>) -> bool {
    key.len() >= 1 && key[0] == '#'
}

/// Whether a key is that of a symbol.
pub fn is_sym_key(key: &str) -> (r: bool)
    ensures
        r == sym_key(key@),
{
    let cs = crate::text::chars_of(key);
    cs.len() >= 2 && cs[0] == '@' && cs[1] == '@'
}

/// Whether a key is that of a private name or of an internal slot.
pub fn is_private_key(key: &str) -> (r: bool)
    ensures
        r == private_key(key@),
{
    let cs = crate::text::chars_of(key);
    cs.len() >= 1 && cs[0] == '#'
}

/// The number that decimal digits write.
pub open spec fn digits_value(ds: Seq<char>) -> nat
    decreases ds.len(),
{
    if ds.len() == 0 {
        0
    } else {
        digits_value(ds.drop_last()) * 10 + (ds.last() as u32 - 48) as nat
    }
}

/// The array index that a key is: decimal digits without leading zeros, below 2^32 - 1.
pub open spec fn index_of(key: Seq<char>) -> Option<u32> {
    if key.len() > 0 && (forall|i: int| 0 <= i < key.len() ==> '0' <= #[trigger] key[i] <= '9') && (
    key.len() == 1 || key[0] != '0') && digits_value(key) < 0xffff_ffff {
        Some(digits_value(key) as u32)
    } else {
        None
    }
}

/// The array index that a key is.
pub fn canonical_index(key: &str) -> (r: Option<u32>)
    ensures
        r == index_of(key@),
{
    let cs = crate::text::chars_of(key);
    let ghost ds = cs@;
    if cs.len() == 0 || (cs.len() > 1 && cs[0] == '0') {
        return None;
    }
    let mut v: u64 = 0;
    let mut i: usize = 0;
    let mut big = false;
    assert(ds.take(0) =~= Seq::<char>::empty());
    while i < cs.len()
        invariant
            i <= cs@.len(),
            ds == cs@,
            ds == key@,
            ds.len() > 0,
            forall|j: int| 0 <= j < i ==> '0' <= #[trigger] ds[j] <= '9',
            !big ==> v == digits_value(ds.take(i as int)) && v < 0xffff_ffff,
            big ==> digits_value(ds.take(i as int)) >= 0xffff_ffff,
        decreases cs@.len() - i,
    {
        let c: char = cs[i];
        if c < '0' || c > '9' {
            assert(!('0' <= ds[i as int] <= '9'));
            return None;
        }
        proof {
            assert(ds.take(i + 1).drop_last() =~= ds.take(i as int));
            assert(ds.take(i + 1).last() == c);
        }
        if !big {
            v = v * 10 + (c as u32 - 48) as u64;
            if v >= 0xffff_ffff {
                big = true;
            }
        }
        i = i + 1;
    }
    assert(ds.take(i as int) =~= ds);
    if big {
        None
    } else {
        Some(v as u32)
    }
}

/// What an object is beyond the ordinary.
#[derive(Clone, Copy, Debug, PartialEq, Eq, Structural)]
pub enum Exotic {
    Ordinary,
    Array,
    Error,
    /// A lazy view of a split string.
    SplitView,
    /// Any other kind.
    Other,
}

/// How an object is called.
#[derive(Clone, Copy, Debug, PartialEq, Eq, Structural)]
pub enum Callable {
    /// It is not.
    Never,
    /// A native function, by its address.
    Native(u64),
    /// A user function, by its code.
    User(u64),
    /// A promise, whose slot is the given one; not callable.
    Promise(usize),
    /// A promise's resolving function: the cell it shares, and whether it fulfils.
    Resolver(usize, bool),
}

/// An object.
pub struct Object {
    pub proto: Option<u64>,
    pub call: Callable,
    pub is_constructor: bool,
    pub exotic: Exotic,
    pub extensible: bool,
    /// Cleared on an object whose behaviour lives in a side table.
    pub ic_plain: bool,
    pub props: Props,
    /// The elements at the indices from 0 on; none at a hole.
    pub elems: Vec<Option<Property>>,
}

/// An extensible object that is not exotic and has no elements, with the given call behaviour.
pub open spec fn plain_object(
    o: Object,
    proto: Option<u64>,
    call: Callable,
    is_constructor: bool,
) -> bool {
    &&& o.proto == proto
    &&& o.call == call
    &&& o.is_constructor == is_constructor
    &&& o.exotic == Exotic::Ordinary
    &&& o.extensible
    &&& o.ic_plain
    &&& o.elems@.len() == 0
}

/// An ordinary extensible object without elements.
pub open spec fn ordinary(o: Object, proto: Option<u64>) -> bool {
    plain_object(o, proto, Callable::Never, false)
}

/// An ordinary object without properties.
pub open spec fn fresh_object(o: Object, proto: Option<u64>) -> bool {
    &&& ordinary(o, proto)
    &&& o.props@ == Seq::<(Seq<char>, Property)>::empty()
}

/// The two objects agree on everything but the named properties.
pub open spec fn same_but_props(a: Object, b: Object) -> bool {
    a == Object { props: a.props, ..b }
}

impl Object {
    /// An ordinary object without properties.
    pub fn new(proto: Option<u64>) -> (r: Object)
        ensures
            fresh_object(r, proto),
    {
        Object {
            proto,
            call: Callable::Never,
            is_constructor: false,
            exotic: Exotic::Ordinary,
            extensible: true,
            ic_plain: true,
            props: Props::new(),
            elems: Vec::new(),
        }
    }

    /// Whether it is a function.
    pub open spec fn spec_is_fn(self) -> bool {
        self.call is Native || self.call is User || self.call is Resolver
    }

    /// Whether it is a function.
    pub fn is_fn(&self) -> (r: bool)
        ensures
            r == self.spec_is_fn(),
    {
        match self.call {
            Callable::Native(_) | Callable::User(_) | Callable::Resolver(_, _) => true,
            Callable::Never | Callable::Promise(_) => false,
        }
    }
}

/// The own properties that a function starts with: `length`, then `name`.
pub open spec fn function_props(s: Named, length: int, name: Seq<char>) -> bool {
    &&& s.len() == 2
    &&& s[0].0 == "length"@
    &&& (s[0].1.kind matches PropKind::Data(Value::Num(n)) && crate::num::integer_value(n) == Some(
        length,
    ))
    &&& s[1].0 == "name"@
    &&& (s[1].1.kind matches PropKind::Data(Value::Str(t)) && t@ == name)
    &&& forall|i: int|
        0 <= i < 2 ==> !(#[trigger] s[i]).1.writable && !s[i].1.enumerable && s[i].1.configurable
}

/// A function as it is made.
pub open spec fn fresh_function(
    o: Object,
    proto: u64,
    call: Callable,
    length: int,
    name: Seq<char>,
) -> bool {
    &&& plain_object(o, Some(proto), call, false)
    &&& function_props(o.props@, length, name)
}

/// Makes a function.
pub fn function_object(proto: u64, call: Callable, length: u32, name: &str) -> (o: Object)
    ensures
        fresh_function(o, proto, call, length as int, name@),
{
    let mut o = Object::new(Some(proto));
    o.call = call;
    let n: u64 = crate::num::from_int(length as u64);
    o.props.insert("length", Property::data(Value::Num(n), false, false, true));
    o.props.insert("name", Property::data(Value::Str(name.to_owned()), false, false, true));
    proof {
        reveal_strlit("length");
        reveal_strlit("name");
        assert("length"@[0] != "name"@[0]);
        let e = Seq::<(Seq<char>, Property)>::empty();
        let l = Property::spec_data(Value::Num(n), false, false, true);
        assert(put(e, "length"@, l) =~= seq![("length"@, l)]);
        lemma_index_of_key_is(seq![("length"@, l)], "name"@, 1);
    }
    o
}

/// The objects; an identity is an index.
pub struct Heap {
    pub objects: Vec<Object>,
}

impl Heap {
    /// An empty heap.
    pub fn new() -> (r: Heap)
        ensures
            r.objects@.len() == 0,
    {
        Heap { objects: Vec::new() }
    }

    /// Whether an identity is that of an object.
    pub open spec fn has(self, id: u64) -> bool {
        id < self.objects@.len()
    }

    pub open spec fn at(self, id: u64) -> Object {
        self.objects@[id as int]
    }

    /// Adds an object.
    pub fn add_object(&mut self, o: Object) -> (id: u64)
        requires
            old(self).objects@.len() < u64::MAX,
        ensures
            id == old(self).objects@.len(),
            final(self).objects@ == old(self).objects@.push(o),
    {
        let id: u64 = self.objects.len() as u64;
        self.objects.push(o);
        id
    }

    /// Whether an identity is that of an object.
    pub fn holds(&self, id: u64) -> (r: bool)
        ensures
            r == self.has(id),
    {
        id < self.objects.len() as u64
    }

    /// The object with an identity.
    pub fn get(&self, id: u64) -> (r: &Object)
        requires
            self.has(id),
        ensures
            *r == self.at(id),
    {
        assert(self.objects.len() == self.objects@.len());
        &self.objects[id as usize]
    }

    /// Whether a value is a function.
    pub open spec fn spec_callable(self, v: Value) -> bool {
        v matches Value::Obj(o) && self.has(o) && self.at(o).spec_is_fn()
    }

    /// Whether a value is a function.
    pub fn is_callable(&self, v: &Value) -> (r: bool)
        ensures
            r == self.spec_callable(*v),
    {
        match v {
            Value::Obj(o) => self.holds(*o) && self.get(*o).is_fn(),
            _ => false,
        }
    }

    /// Sets a named property of an object.
    pub fn set_prop(&mut self, id: u64, key: &str, p: Property)
        requires
            old(self).has(id),
        ensures
            final(self).objects@.len() == old(self).objects@.len(),
            only_props_changed(
                *old(self),
                *final(self),
                id,
                put(old(self).at(id).props@, key@, p),
            ),
    {
        assert(self.objects.len() == self.objects@.len());
        self.objects[id as usize].props.insert(key, p);
    }

    /// Sets the named properties of an object.
    pub fn set_props(&mut self, id: u64, props: Props)
        requires
            old(self).has(id),
        ensures
            only_props_changed(*old(self), *final(self), id, props@),
    {
        assert(self.objects.len() == self.objects@.len());
        self.objects[id as usize].props = props;
    }

    /// Removes a named property of an object.
    pub fn remove_prop(&mut self, id: u64, key: &str)
        requires
            old(self).has(id),
        ensures
            final(self).objects@.len() == old(self).objects@.len(),
            only_props_changed(
                *old(self),
                *final(self),
                id,
                without(old(self).at(id).props@, key@),
            ),
    {
        assert(self.objects.len() == self.objects@.len());
        self.objects[id as usize].props.remove(key);
    }
}

/// The heap is `h` but for the named properties of one object.
pub open spec fn only_props_changed(h: Heap, k: Heap, id: u64, props: Named) -> bool {
    &&& k.objects@.len() == h.objects@.len()
    &&& forall|i: int|
        0 <= i < h.objects@.len() && i != id ==> #[trigger] k.objects@[i] == h.objects@[i]
    &&& k.at(id) == Object { props: k.at(id).props, ..h.at(id) }
    &&& k.at(id).props@ == props
}

} // verus!
