//! The names that running builtins have in a stack trace.

use crate::embed_convert::class::STRING_TAG;
use crate::interpreter::frames::{
    prim_name, prim_text, site_is_native, tagged_native, NativeCtx, RECV_NONE, RECV_OBJ, RECV_PRIM,
};
use crate::object::{data_of, lookup, Callable, Heap, Named, Object, PropKind, Property};
use crate::value::Value;
use std::collections::HashMap;
use vstd::prelude::*;

verus! {

broadcast use vstd::std_specs::hash::group_hash_axioms;

/// The longest prototype chain that is walked.
pub const MAX_HOPS: u32 = 64;

/// An object's own data property that holds a text which is not empty.
pub open spec fn own_text(heap: Heap, o: u64, key: Seq<char>) -> Option<Seq<char>> {
    if !heap.has(o) {
        None
    } else {
        match data_of(heap.at(o).props@, key) {
            Some(Value::Str(s)) => if s@.len() > 0 {
                Some(s@)
            } else {
                None
            },
            _ => None,
        }
    }
}

fn own_name(heap: &Heap, o: u64, key: &str) -> (r: Option<String>)
    ensures
        match r {
            Some(s) => own_text(*heap, o, key@) == Some(s@),
            None => own_text(*heap, o, key@) is None,
        },
{
    if !heap.holds(o) {
        return None;
    }
    match heap.get(o).props.get_data(key) {
        Some(Value::Str(s)) => if s.as_str().is_empty() {
            None
        } else {
            Some(s)
        },
        _ => None,
    }
}

/// The first property with a key on a prototype chain, if it is a data property.
pub open spec fn inherited_data(heap: Heap, o: u64, key: Seq<char>, hops: nat) -> Option<Value>
    decreases MAX_HOPS - hops,
{
    if !heap.has(o) {
        None
    } else {
        match lookup(heap.at(o).props@, key) {
            Some(p) => match p.kind {
                PropKind::Data(v) => Some(v),
                PropKind::Accessor { .. } => None,
            },
            None => if hops >= MAX_HOPS {
                None
            } else {
                match heap.at(o).proto {
                    Some(next) => inherited_data(heap, next, key, hops + 1),
                    None => None,
                }
            },
        }
    }
}

fn inherited(heap: &Heap, o: u64, key: &str) -> (r: Option<Value>)
    ensures
        r == inherited_data(*heap, o, key@, 0),
{
    let mut cur: u64 = o;
    let mut hops: u32 = 0;
    loop
        invariant
            hops <= MAX_HOPS,
            inherited_data(*heap, cur, key@, hops as nat) == inherited_data(*heap, o, key@, 0),
        decreases MAX_HOPS - hops,
    {
        if !heap.holds(cur) {
            return None;
        }
        let b = heap.get(cur);
        match b.props.get(key) {
            Some(p) => {
                return match p.data_value() {
                    Some(v) => Some(v.duplicate()),
                    None => None,
                };
            },
            None => {},
        }
        if hops >= MAX_HOPS {
            return None;
        }
        hops = hops + 1;
        match b.proto {
            Some(n) => {
                cur = n;
            },
            None => {
                return None;
            },
        }
    }
}

/// The type name of an object: a function's own name, else its constructor's name, with an
/// `Object` that has a string tag named by the tag.
pub open spec fn object_type_name(heap: Heap, o: u64) -> Seq<char> {
    if heap.has(o) && heap.at(o).spec_is_fn() {
        match own_text(heap, o, "name"@) {
            Some(n) => n,
            None => "Function"@,
        }
    } else {
        let ctor = match inherited_data(heap, o, "constructor"@, 0) {
            Some(Value::Obj(f)) => own_text(heap, f, "name"@),
            _ => None,
        };
        match ctor {
            Some(n) => if n != "Object"@ {
                n
            } else {
                tag_name(heap, o)
            },
            None => tag_name(heap, o),
        }
    }
}

/// The string tag of an object, else `Object`.
pub open spec fn tag_name(heap: Heap, o: u64) -> Seq<char> {
    match inherited_data(heap, o, STRING_TAG@, 0) {
        Some(Value::Str(t)) => if t@.len() > 0 {
            t@
        } else {
            "Object"@
        },
        _ => "Object"@,
    }
}

/// The type name of a builtin's receiver.
pub open spec fn receiver_name(heap: Heap, v: Value) -> Seq<char> {
    match v {
        Value::Str(_) => "String"@,
        Value::Num(_) => "Number"@,
        Value::Bool(_) => "Boolean"@,
        Value::Sym(_) => "Symbol"@,
        Value::BigInt(_) => "BigInt"@,
        Value::Obj(o) => object_type_name(heap, o),
        Value::Undefined | Value::Null | Value::Empty => "Object"@,
    }
}

/// The type name of a builtin's receiver. It reads data properties only, so no getter runs.
pub fn receiver_type_name(heap: &Heap, v: &Value) -> (r: String)
    ensures
        r@ == receiver_name(*heap, *v),
{
    let o: u64 = match v {
        Value::Str(_) => {
            return "String".to_owned();
        },
        Value::Num(_) => {
            return "Number".to_owned();
        },
        Value::Bool(_) => {
            return "Boolean".to_owned();
        },
        Value::Sym(_) => {
            return "Symbol".to_owned();
        },
        Value::BigInt(_) => {
            return "BigInt".to_owned();
        },
        Value::Obj(o) => *o,
        Value::Undefined | Value::Null | Value::Empty => {
            return "Object".to_owned();
        },
    };
    if heap.holds(o) && heap.get(o).is_fn() {
        return match own_name(heap, o, "name") {
            Some(n) => n,
            None => "Function".to_owned(),
        };
    }
    let ctor = match inherited(heap, o, "constructor") {
        Some(Value::Obj(f)) => own_name(heap, f, "name"),
        _ => None,
    };
    match ctor {
        Some(n) => {
            if !crate::text::same(n.as_str(), "Object") {
                return n;
            }
        },
        None => {},
    }
    match inherited(heap, o, STRING_TAG) {
        Some(Value::Str(t)) => if t.as_str().is_empty() {
            "Object".to_owned()
        } else {
            t
        },
        _ => "Object".to_owned(),
    }
}

/// The objects among a property's values: what it holds, or its getter and setter.
pub open spec fn property_objs(p: Property) -> Seq<u64> {
    match p.kind {
        PropKind::Data(v) => obj_of(Some(v)),
        PropKind::Accessor { get, set } => obj_of(get) + obj_of(set),
    }
}

pub open spec fn obj_of(v: Option<Value>) -> Seq<u64> {
    match v {
        Some(Value::Obj(o)) => seq![o],
        _ => Seq::empty(),
    }
}

/// The objects among the values of properties.
pub open spec fn props_objs(s: Named) -> Seq<u64>
    decreases s.len(),
{
    if s.len() == 0 {
        Seq::empty()
    } else {
        props_objs(s.drop_last()) + property_objs(s.last().1)
    }
}

/// The objects among the values of an object's own properties.
pub open spec fn data_objects(heap: Heap, o: u64) -> Seq<u64> {
    if heap.has(o) {
        props_objs(heap.at(o).props@)
    } else {
        Seq::empty()
    }
}

fn push_obj(v: &Value, out: &mut Vec<u64>)
    ensures
        final(out)@ == old(out)@ + obj_of(Some(*v)),
{
    match v {
        Value::Obj(o) => {
            out.push(*o);
            assert(out@ =~= old(out)@ + seq![*o]);
        },
        _ => {
            assert(out@ =~= old(out)@ + Seq::<u64>::empty());
        },
    }
}

fn data_objs(heap: &Heap, o: u64) -> (r: Vec<u64>)
    ensures
        r@ == data_objects(*heap, o),
{
    let mut out: Vec<u64> = Vec::new();
    if !heap.holds(o) {
        return out;
    }
    let props = &heap.get(o).props;
    let mut i: usize = 0;
    assert(props@.take(0) =~= Seq::<(Seq<char>, Property)>::empty());
    while i < props.items.len()
        invariant
            i <= props@.len(),
            props.items@.len() == props@.len(),
            out@ == props_objs(props@.take(i as int)),
        decreases props@.len() - i,
    {
        proof {
            assert(props@.take(i + 1).drop_last() =~= props@.take(i as int));
            assert(props@.take(i + 1).last() == props@[i as int]);
        }
        let p = &props.items[i].prop;
        match &p.kind {
            PropKind::Data(v) => {
                push_obj(v, &mut out);
            },
            PropKind::Accessor { get, set } => {
                let ghost before = out@;
                if let Some(g) = get {
                    push_obj(g, &mut out);
                }
                assert(out@ =~= before + obj_of(*get));
                if let Some(t) = set {
                    push_obj(t, &mut out);
                }
                assert(out@ =~= before + (obj_of(*get) + obj_of(*set)));
            },
        }
        i = i + 1;
    }
    assert(props@.take(i as int) =~= props@);
    out
}

/// The object that an object's own `prototype` data property holds.
pub open spec fn proto_property(heap: Heap, o: u64) -> Option<u64> {
    if !heap.has(o) {
        None
    } else {
        match data_of(heap.at(o).props@, "prototype"@) {
            Some(Value::Obj(p)) => Some(p),
            _ => None,
        }
    }
}

fn proto_of(heap: &Heap, o: u64) -> (r: Option<u64>)
    ensures
        r == proto_property(*heap, o),
{
    if !heap.holds(o) {
        return None;
    }
    match heap.get(o).props.get_data("prototype") {
        Some(Value::Obj(p)) => Some(p),
        _ => None,
    }
}

/// The objects and, behind each, the object of its `prototype` property.
pub open spec fn with_protos(heap: Heap, os: Seq<u64>) -> Seq<u64>
    decreases os.len(),
{
    if os.len() == 0 {
        Seq::empty()
    } else {
        with_protos(heap, os.drop_last()).push(os.last()) + opt_seq(
            proto_property(heap, os.last()),
        )
    }
}

pub open spec fn opt_seq(o: Option<u64>) -> Seq<u64> {
    match o {
        Some(x) => seq![x],
        None => Seq::empty(),
    }
}

/// The typed array intrinsic's prototype and itself, found behind `Int8Array`.
pub open spec fn typed_array_holders(heap: Heap, global: u64) -> Seq<u64> {
    if !heap.has(global) {
        Seq::empty()
    } else {
        match data_of(heap.at(global).props@, "Int8Array"@) {
            Some(Value::Obj(c)) => if heap.has(c) {
                match heap.at(c).proto {
                    Some(t) => opt_seq(proto_property(heap, t)).push(t),
                    None => Seq::empty(),
                }
            } else {
                Seq::empty()
            },
            _ => Seq::empty(),
        }
    }
}

/// The objects on which named functions are looked for: the global object, the objects it holds
/// with their prototypes, and the typed array intrinsic.
pub open spec fn holders(heap: Heap, global: u64) -> Seq<u64> {
    seq![global] + with_protos(heap, data_objects(heap, global)) + typed_array_holders(heap, global)
}

fn find_holders(heap: &Heap, global: u64) -> (r: Vec<u64>)
    ensures
        r@ == holders(*heap, global),
{
    let mut out: Vec<u64> = Vec::new();
    out.push(global);
    let os = data_objs(heap, global);
    let mut i: usize = 0;
    assert(os@.take(0) =~= Seq::<u64>::empty());
    assert(out@ =~= seq![global] + with_protos(*heap, os@.take(0)));
    while i < os.len()
        invariant
            i <= os@.len(),
            out@ == seq![global] + with_protos(*heap, os@.take(i as int)),
        decreases os@.len() - i,
    {
        let g: u64 = os[i];
        let ghost before = out@;
        proof {
            assert(os@.take(i + 1).drop_last() =~= os@.take(i as int));
        }
        out.push(g);
        if let Some(p) = proto_of(heap, g) {
            out.push(p);
        }
        assert(out@ =~= seq![global] + with_protos(*heap, os@.take(i + 1)));
        i = i + 1;
    }
    assert(os@.take(i as int) =~= os@);
    let ghost before = out@;
    if heap.holds(global) {
        if let Some(Value::Obj(c)) = heap.get(global).props.get_data("Int8Array") {
            if heap.holds(c) {
                if let Some(t) = heap.get(c).proto {
                    if let Some(p) = proto_of(heap, t) {
                        out.push(p);
                    }
                    out.push(t);
                }
            }
        }
    }
    assert(out@ =~= before + typed_array_holders(*heap, global));
    out
}

/// A native's name, and the type name of the object it was found on.
pub struct NativeName {
    pub name: String,
    pub home: Option<String>,
}

pub struct NativeNameView {
    pub name: Seq<char>,
    pub home: Option<Seq<char>>,
}

impl View for NativeName {
    type V = NativeNameView;

    open spec fn view(&self) -> NativeNameView {
        NativeNameView {
            name: self.name@,
            home: match self.home {
                Some(h) => Some(h@),
                None => None,
            },
        }
    }
}

/// Names by native address.
pub type NameViews = Map<u64, NativeNameView>;

pub open spec fn name_views(m: Map<u64, NativeName>) -> NameViews {
    Map::new(|f: u64| m.contains_key(f), |f: u64| m[f]@)
}

/// The names with a native function's own name put in, unless its address has one.
pub open spec fn with_name(
    m: NameViews,
    heap: Heap,
    o: u64,
    home: Option<Seq<char>>,
) -> NameViews {
    if !heap.has(o) {
        m
    } else {
        match heap.at(o).call {
            Callable::Native(f) => match own_text(heap, o, "name"@) {
                Some(n) => if m.contains_key(f) {
                    m
                } else {
                    m.insert(f, NativeNameView { name: n, home })
                },
                None => m,
            },
            _ => m,
        }
    }
}

pub open spec fn with_names(
    m: NameViews,
    heap: Heap,
    os: Seq<u64>,
    home: Option<Seq<char>>,
) -> NameViews
    decreases os.len(),
{
    if os.len() == 0 {
        m
    } else {
        with_name(with_names(m, heap, os.drop_last(), home), heap, os.last(), home)
    }
}

/// The type name of a holder; none for the global object.
pub open spec fn home_of(heap: Heap, global: u64, h: u64) -> Option<Seq<char>> {
    if h == global {
        None
    } else {
        Some(object_type_name(heap, h))
    }
}

/// The names after some holders were looked at: each itself, then what its properties hold.
pub open spec fn scanned(m: NameViews, heap: Heap, global: u64, hs: Seq<u64>) -> NameViews
    decreases hs.len(),
{
    if hs.len() == 0 {
        m
    } else {
        let h = hs.last();
        with_names(
            with_name(scanned(m, heap, global, hs.drop_last()), heap, h, None),
            heap,
            data_objects(heap, h),
            home_of(heap, global, h),
        )
    }
}

/// The names of the realm's native functions, gathered on first need and again when the global
/// object has grown.
pub struct NativeNames {
    /// The number of global properties at the last scan.
    pub at: Option<usize>,
    pub map: HashMap<u64, NativeName>,
}

fn duplicate_home(h: &Option<String>) -> (r: Option<String>)
    ensures
        match *h {
            Some(s) => r matches Some(t) && t@ == s@,
            None => r is None,
        },
{
    match h {
        Some(s) => Some(s.clone()),
        None => None,
    }
}

proof fn lemma_names_only_grow(m: NameViews, heap: Heap, global: u64, hs: Seq<u64>, f: u64)
    requires
        m.contains_key(f),
    ensures
        scanned(m, heap, global, hs).contains_key(f),
        scanned(m, heap, global, hs)[f] == m[f],
    decreases hs.len(),
{
    if hs.len() > 0 {
        lemma_names_only_grow(m, heap, global, hs.drop_last(), f);
        let h = hs.last();
        lemma_with_names_grow(
            with_name(scanned(m, heap, global, hs.drop_last()), heap, h, None),
            heap,
            data_objects(heap, h),
            home_of(heap, global, h),
            f,
        );
    }
}

proof fn lemma_with_names_grow(
    m: NameViews,
    heap: Heap,
    os: Seq<u64>,
    home: Option<Seq<char>>,
    f: u64,
)
    requires
        m.contains_key(f),
    ensures
        with_names(m, heap, os, home).contains_key(f),
        with_names(m, heap, os, home)[f] == m[f],
    decreases os.len(),
{
    if os.len() > 0 {
        lemma_with_names_grow(m, heap, os.drop_last(), home, f);
    }
}

impl NativeNames {
    pub open spec fn names(self) -> NameViews {
        name_views(self.map@)
    }

    /// No names yet.
    pub fn new() -> (r: NativeNames)
        ensures
            r.at is None,
            r.names() == Map::<u64, NativeNameView>::empty(),
    {
        let r = NativeNames { at: None, map: HashMap::new() };
        assert(r.names() =~= Map::<u64, NativeNameView>::empty());
        r
    }

    fn record(&mut self, heap: &Heap, o: u64, home: &Option<String>)
        ensures
            final(self).at == old(self).at,
            final(self).names() == with_name(
                old(self).names(),
                *heap,
                o,
                match *home {
                    Some(h) => Some(h@),
                    None => None,
                },
            ),
    {
        if !heap.holds(o) {
            return;
        }
        if let Callable::Native(f) = heap.get(o).call {
            if let Some(name) = own_name(heap, o, "name") {
                if !self.map.contains_key(&f) {
                    self.map.insert(f, NativeName { name, home: duplicate_home(home) });
                    assert(self.names() =~= old(self).names().insert(f, self.map@[f]@));
                }
            }
        }
    }

    fn scan_native_names(&mut self, heap: &Heap, global: u64)
        ensures
            final(self).at == old(self).at,
            final(self).names() == scanned(
                old(self).names(),
                *heap,
                global,
                holders(*heap, global),
            ),
    {
        let hs = find_holders(heap, global);
        let mut i: usize = 0;
        let none: Option<String> = None;
        assert(hs@.take(0) =~= Seq::<u64>::empty());
        while i < hs.len()
            invariant
                i <= hs@.len(),
                none is None,
                self.at == old(self).at,
                self.names() == scanned(old(self).names(), *heap, global, hs@.take(i as int)),
            decreases hs@.len() - i,
        {
            let h: u64 = hs[i];
            proof {
                assert(hs@.take(i + 1).drop_last() =~= hs@.take(i as int));
            }
            let home: Option<String> = if h == global {
                None
            } else {
                Some(receiver_type_name(heap, &Value::Obj(h)))
            };
            let ghost hv = home_of(*heap, global, h);
            self.record(heap, h, &none);
            let ghost base = self.names();
            let os = data_objs(heap, h);
            let mut j: usize = 0;
            assert(os@.take(0) =~= Seq::<u64>::empty());
            while j < os.len()
                invariant
                    j <= os@.len(),
                    self.at == old(self).at,
                    hv == match home {
                        Some(t) => Some(t@),
                        None => None,
                    },
                    self.names() == with_names(base, *heap, os@.take(j as int), hv),
                decreases os@.len() - j,
            {
                proof {
                    assert(os@.take(j + 1).drop_last() =~= os@.take(j as int));
                }
                self.record(heap, os[j], &home);
                j = j + 1;
            }
            assert(os@.take(j as int) =~= os@);
            i = i + 1;
        }
        assert(hs@.take(i as int) =~= hs@);
    }

    /// The names that a lookup finds: those there are, after a scan if the global object has
    /// changed in size since the last one.
    pub open spec fn known(self, heap: Heap, global: u64) -> NameViews {
        if self.at == Some(heap.at(global).props@.len() as usize) {
            self.names()
        } else {
            scanned(self.names(), heap, global, holders(heap, global))
        }
    }

    /// The name of a native.
    pub open spec fn answer(self, heap: Heap, global: u64, id: u64) -> Option<NativeNameView> {
        let m = self.known(heap, global);
        if id != 0 && m.contains_key(id) {
            Some(m[id])
        } else {
            None
        }
    }

    /// Whether looking a native up scans the global object: it has no name yet, and the global
    /// object has changed in size since the last scan.
    pub open spec fn rescans(self, heap: Heap, global: u64, id: u64) -> bool {
        &&& id != 0
        &&& !self.names().contains_key(id)
        &&& self.at != Some(heap.at(global).props@.len() as usize)
    }

    /// What lookups leave: a scan, if there was one, adds the names that it finds and drops none.
    pub open spec fn scans(self, after: NativeNames, heap: Heap, global: u64, again: bool) -> bool {
        if again {
            &&& after.names() == scanned(self.names(), heap, global, holders(heap, global))
            &&& after.at == Some(heap.at(global).props@.len() as usize)
        } else {
            &&& after.names() == self.names()
            &&& after.at == self.at
        }
    }

    /// The name of the native function with an address.
    pub fn native_fn_name(&mut self, heap: &Heap, global: u64, id: u64) -> (r: Option<NativeName>)
        requires
            heap.has(global),
        ensures
            match r {
                Some(n) => old(self).answer(*heap, global, id) == Some(n@),
                None => old(self).answer(*heap, global, id) is None,
            },
            old(self).scans(*final(self), *heap, global, old(self).rescans(*heap, global, id)),
            forall|q: u64| #[trigger] final(self).answer(*heap, global, q) == old(self).answer(
                *heap,
                global,
                q,
            ),
    {
        if id == 0 {
            return None;
        }
        if let Some(n) = self.map.get(&id) {
            proof {
                assert(self.names().contains_key(id));
                lemma_names_only_grow(self.names(), *heap, global, holders(*heap, global), id);
            }
            return Some(NativeName { name: n.name.clone(), home: duplicate_home(&n.home) });
        }
        let len: usize = heap.get(global).props.items.len();
        if let Some(at) = self.at {
            if at == len {
                return None;
            }
        }
        self.at = Some(len);
        self.scan_native_names(heap, global);
        match self.map.get(&id) {
            Some(n) => {
                assert(self.names().contains_key(id));
                Some(NativeName { name: n.name.clone(), home: duplicate_home(&n.home) })
            },
            None => None,
        }
    }
}

/// The text of a running native's frame, before its place: none for a call adaptor, for a native
/// without a name, and for a protocol method that another builtin dispatched to.
pub open spec fn frame_name(
    names: NativeNames,
    heap: Heap,
    global: u64,
    c: NativeCtx,
) -> Option<Seq<char>> {
    if c.hidden {
        None
    } else {
        match names.answer(heap, global, c.id) {
            None => None,
            Some(n) => if tagged_native(c.site) && starts_with(n.name, "[Symbol."@) {
                None
            } else if c.construct {
                Some("new "@ + n.name)
            } else if c.recv_kind == RECV_NONE {
                Some(n.name)
            } else if c.recv_kind == RECV_OBJ {
                match c.this {
                    Some(o) => Some(object_type_name(heap, o) + "."@ + n.name),
                    None => match n.home {
                        Some(h) => Some(h + "."@ + n.name),
                        None => Some(n.name),
                    },
                }
            } else {
                Some(prim_text((c.recv_kind - RECV_PRIM) as u8) + "."@ + n.name)
            },
        }
    }
}

pub open spec fn starts_with(s: Seq<char>, p: Seq<char>) -> bool {
    p.len() <= s.len() && s.take(p.len() as int) == p
}

fn has_prefix(s: &str, p: &str) -> (r: bool)
    ensures
        r == starts_with(s@, p@),
{
    let a = crate::text::chars_of(s);
    let b = crate::text::chars_of(p);
    if b.len() > a.len() {
        return false;
    }
    let mut i: usize = 0;
    while i < b.len()
        invariant
            i <= b@.len() <= a@.len(),
            a@ == s@,
            b@ == p@,
            forall|j: int| 0 <= j < i ==> a@[j] == b@[j],
        decreases b@.len() - i,
    {
        if a[i] != b[i] {
            assert(s@.take(p@.len() as int)[i as int] != p@[i as int]);
            return false;
        }
        i = i + 1;
    }
    assert(s@.take(p@.len() as int) =~= p@);
    true
}

/// The text of a running native's frame, and whether naming it wanted an object receiver that
/// was not held: receivers are held from then on.
pub fn native_frame_name(
    names: &mut NativeNames,
    heap: &Heap,
    global: u64,
    c: &NativeCtx,
) -> (r: (Option<String>, bool))
    requires
        heap.has(global),
        c.recv_kind <= RECV_PRIM + 4,
    ensures
        match r.0 {
            Some(s) => frame_name(*old(names), *heap, global, *c) == Some(s@),
            None => frame_name(*old(names), *heap, global, *c) is None,
        },
        r.1 == (r.0 is Some && !c.construct && c.recv_kind == RECV_OBJ && c.this is None),
        old(names).scans(
            *final(names),
            *heap,
            global,
            !c.hidden && old(names).rescans(*heap, global, c.id),
        ),
        forall|q: u64| #[trigger] final(names).answer(*heap, global, q) == old(names).answer(
            *heap,
            global,
            q,
        ),
{
    if c.hidden {
        return (None, false);
    }
    let n = match names.native_fn_name(heap, global, c.id) {
        Some(n) => n,
        None => {
            return (None, false);
        },
    };
    if site_is_native(c.site) && has_prefix(n.name.as_str(), "[Symbol.") {
        return (None, false);
    }
    if c.construct {
        let mut out = "new ".to_owned();
        out.append(n.name.as_str());
        return (Some(out), false);
    }
    if c.recv_kind == RECV_NONE {
        return (Some(n.name), false);
    }
    let mut held = true;
    let mut out: String = if c.recv_kind == RECV_OBJ {
        match c.this {
            Some(o) => receiver_type_name(heap, &Value::Obj(o)),
            None => {
                held = false;
                match n.home {
                    Some(h) => h,
                    None => {
                        return (Some(n.name), true);
                    },
                }
            },
        }
    } else {
        prim_name(c.recv_kind - RECV_PRIM).to_owned()
    };
    out.append(".");
    out.append(n.name.as_str());
    (Some(out), !held)
}

/// The text behind the last dot.
pub open spec fn last_part(s: Seq<char>) -> Seq<char>
    decreases s.len(),
{
    if s.len() == 0 || s.last() == '.' {
        Seq::empty()
    } else {
        last_part(s.drop_last()).push(s.last())
    }
}

pub open spec fn ends_with(s: Seq<char>, p: Seq<char>) -> bool {
    p.len() <= s.len() && s.skip(s.len() - p.len()) == p
}

/// Whether a frame text names a builtin that makes the error whose trace is taken: an error
/// constructor, or `captureStackTrace`.
pub open spec fn captures(text: Seq<char>) -> bool {
    let name = if starts_with(text, "new "@) {
        text.skip(4)
    } else {
        text
    };
    let last = last_part(name);
    last == "captureStackTrace"@ || (ends_with(last, "Error"@) && !name.contains('.'))
}

proof fn lemma_last_part(s: Seq<char>, k: int)
    requires
        0 <= k <= s.len(),
        forall|i: int| k <= i < s.len() ==> s[i] != '.',
        k > 0 ==> s[k - 1] == '.',
    ensures
        last_part(s) == s.skip(k),
    decreases s.len(),
{
    if k == s.len() {
        assert(s.skip(k) =~= Seq::<char>::empty());
    } else {
        lemma_last_part(s.drop_last(), k);
        assert(s.drop_last().skip(k).push(s.last()) =~= s.skip(k));
    }
}

fn text_from(cs: &Vec<char>, from: usize) -> (r: String)
    requires
        from <= cs@.len(),
    ensures
        r@ == cs@.skip(from as int),
{
    let mut out = String::new();
    let mut i: usize = from;
    while i < cs.len()
        invariant
            from <= i <= cs@.len(),
            out@ == cs@.subrange(from as int, i as int),
        decreases cs@.len() - i,
    {
        out.push(cs[i]);
        i = i + 1;
        assert(out@ =~= cs@.subrange(from as int, i as int));
    }
    assert(out@ =~= cs@.skip(from as int));
    out
}

/// Whether a frame text names a builtin that makes the error whose trace is taken.
pub fn is_capturing_builtin(text: &str) -> (r: bool)
    ensures
        r == captures(text@),
{
    let cs = crate::text::chars_of(text);
    proof {
        reveal_strlit("new ");
        reveal_strlit("Error");
    }
    let from: usize = if has_prefix(text, "new ") {
        4
    } else {
        0
    };
    let ghost name = text@.skip(from as int);
    assert(from == 0 ==> name =~= text@);
    let mut k: usize = cs.len();
    while k > from && cs[k - 1] != '.'
        invariant
            from <= k <= cs@.len(),
            cs@ == text@,
            forall|i: int| k <= i < cs@.len() ==> cs@[i] != '.',
        decreases k,
    {
        k = k - 1;
    }
    proof {
        assert forall|i: int| k - from <= i < name.len() implies name[i] != '.' by {
            assert(name[i] == cs@[i + from]);
        }
        if k > from {
            assert(name[k - from - 1] == cs@[k - 1]);
        }
        lemma_last_part(name, k - from);
        assert(name.skip(k - from) =~= cs@.skip(k as int));
    }
    let last = text_from(&cs, k);
    if crate::text::same(last.as_str(), "captureStackTrace") {
        return true;
    }
    let n: usize = cs.len() - k;
    if n < 5 {
        return false;
    }
    let tail = text_from(&cs, cs.len() - 5);
    assert(last@.skip(last@.len() - 5) =~= tail@);
    let dotted = k > from;
    proof {
        if dotted {
            assert(name[k - from - 1] == '.');
            assert(name.contains('.'));
        } else {
            assert(!name.contains('.')) by {
                if name.contains('.') {
                    let i = choose|i: int| 0 <= i < name.len() && name[i] == '.';
                    assert(name[i] == cs@[i + from]);
                }
            }
        }
    }
    !dotted && crate::text::same(tail.as_str(), "Error")
}

} // verus!
