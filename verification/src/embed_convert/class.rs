//! Host types as classes: a constructor and a prototype made from a descriptor on first use, and
//! instances that carry host values.

use crate::embed_convert::arg_cx::ArgCx;
use crate::embed_convert::desc::{ClassDesc, FastSig, MemberDesc, MemberKind, OpDesc, Slot};
use crate::embed_convert::host::{borrowed, doubled, free, idle_entry, Guard};
use crate::embed_convert::op_error::{new_error, OpError, OpErrorView};
use crate::interpreter::interp::{op_views, ClassEntry, Interp};
use crate::object::{
    fresh_function, fresh_object, function_object, lookup, ordinary, plain_object, put, Callable,
    Named, Object, PropKind, Property,
};
use crate::value::Value;
use std::collections::HashSet;
use vstd::prelude::*;

verus! {

broadcast use vstd::std_specs::hash::group_hash_axioms;

/// The native entry of a class without a constructor: it throws.
pub const ILLEGAL_CONSTRUCTOR: u64 = 0;

/// The key of a class's string tag.
pub const STRING_TAG: &'static str = "@@toStringTag";

/// What a member does.
#[derive(Clone, Copy, Debug, PartialEq, Eq, Structural)]
pub enum Role {
    Method,
    Getter,
    Setter,
}

impl MemberKind {
    /// On the constructor, not on the prototype.
    pub open spec fn spec_static(self) -> bool {
        self == MemberKind::StaticMethod || self == MemberKind::StaticGetter || self
            == MemberKind::StaticSetter
    }

    pub open spec fn spec_role(self) -> Role {
        match self {
            MemberKind::Method | MemberKind::StaticMethod => Role::Method,
            MemberKind::Getter | MemberKind::StaticGetter => Role::Getter,
            MemberKind::Setter | MemberKind::StaticSetter => Role::Setter,
        }
    }

    /// On the constructor, not on the prototype.
    pub fn is_static(self) -> (r: bool)
        ensures
            r == self.spec_static(),
    {
        match self {
            MemberKind::StaticMethod | MemberKind::StaticGetter | MemberKind::StaticSetter => true,
            _ => false,
        }
    }

    /// What the member does.
    pub fn role(self) -> (r: Role)
        ensures
            r == self.spec_role(),
    {
        match self {
            MemberKind::Method | MemberKind::StaticMethod => Role::Method,
            MemberKind::Getter | MemberKind::StaticGetter => Role::Getter,
            MemberKind::Setter | MemberKind::StaticSetter => Role::Setter,
        }
    }
}

/// The name of a member's function.
pub open spec fn fn_name(m: MemberDesc) -> Seq<char> {
    match m.kind.spec_role() {
        Role::Method => m.op.name@,
        Role::Getter => "get "@ + m.op.name@,
        Role::Setter => "set "@ + m.op.name@,
    }
}

/// The `length` of a member's function.
pub open spec fn fn_length(m: MemberDesc) -> int {
    match m.kind.spec_role() {
        Role::Method => m.op.arity as int,
        Role::Getter => 0,
        Role::Setter => 1,
    }
}

/// A member's function.
pub open spec fn is_member_fn(o: Object, proto: u64, m: MemberDesc) -> bool {
    fresh_function(o, proto, Callable::Native(m.op.native), fn_length(m), fn_name(m))
}

/// An accessor property in the making.
pub struct Accessor {
    pub is_static: bool,
    pub name: String,
    pub get: Option<Value>,
    pub set: Option<Value>,
}

pub struct AccessorView {
    pub is_static: bool,
    pub name: Seq<char>,
    pub get: Option<Value>,
    pub set: Option<Value>,
}

impl View for Accessor {
    type V = AccessorView;

    open spec fn view(&self) -> AccessorView {
        AccessorView {
            is_static: self.is_static,
            name: self.name@,
            get: self.get,
            set: self.set,
        }
    }
}

/// The accessors of a list.
pub open spec fn accessor_views(accs: Seq<Accessor>) -> Seq<AccessorView> {
    Seq::new(accs.len(), |i: int| accs[i]@)
}

/// The index of the accessor with a name on a side; the length when there is none.
pub open spec fn accessor_index(
    accs: Seq<AccessorView>,
    is_static: bool,
    name: Seq<char>,
) -> nat
    decreases accs.len(),
{
    if accs.len() == 0 {
        0
    } else if accs[0].is_static == is_static && accs[0].name == name {
        0
    } else {
        1 + accessor_index(accs.drop_first(), is_static, name)
    }
}

/// The accessors with a getter or a setter put in.
pub open spec fn with_half(
    accs: Seq<AccessorView>,
    is_static: bool,
    name: Seq<char>,
    setter: bool,
    f: Value,
) -> Seq<AccessorView> {
    let i = accessor_index(accs, is_static, name) as int;
    if i < accs.len() {
        accs.update(
            i,
            if setter {
                AccessorView { set: Some(f), ..accs[i] }
            } else {
                AccessorView { get: Some(f), ..accs[i] }
            },
        )
    } else {
        accs.push(
            AccessorView {
                is_static,
                name,
                get: if setter {
                    None
                } else {
                    Some(f)
                },
                set: if setter {
                    Some(f)
                } else {
                    None
                },
            },
        )
    }
}

/// The function of a class's member, whose functions start at the object `first`.
pub open spec fn member_value(first: int, i: int) -> Value {
    Value::Obj((first + i) as u64)
}

/// The accessors of a class: getters and setters are paired by side and name.
pub open spec fn accessors(ms: Seq<MemberDesc>, first: int) -> Seq<AccessorView>
    decreases ms.len(),
{
    if ms.len() == 0 {
        Seq::empty()
    } else {
        let before = accessors(ms.drop_last(), first);
        let m = ms.last();
        if m.kind.spec_role() == Role::Method {
            before
        } else {
            with_half(
                before,
                m.kind.spec_static(),
                m.op.name@,
                m.kind.spec_role() == Role::Setter,
                member_value(first, ms.len() - 1),
            )
        }
    }
}

/// Properties with the methods of one side put in.
pub open spec fn with_methods(
    base: Named,
    ms: Seq<MemberDesc>,
    first: int,
    is_static: bool,
) -> Named
    decreases ms.len(),
{
    if ms.len() == 0 {
        base
    } else {
        let before = with_methods(base, ms.drop_last(), first, is_static);
        let m = ms.last();
        if m.kind.spec_role() == Role::Method && m.kind.spec_static() == is_static {
            put(
                before,
                m.op.name@,
                Property::spec_data(member_value(first, ms.len() - 1), true, false, true),
            )
        } else {
            before
        }
    }
}

/// An accessor property of a class.
pub open spec fn accessor_property(get: Option<Value>, set: Option<Value>) -> Property {
    Property {
        kind: PropKind::Accessor { get, set },
        writable: false,
        enumerable: false,
        configurable: true,
    }
}

/// Properties with the accessors of one side put in.
pub open spec fn with_accessors(base: Named, accs: Seq<AccessorView>, is_static: bool) -> Named
    decreases accs.len(),
{
    if accs.len() == 0 {
        base
    } else {
        let before = with_accessors(base, accs.drop_last(), is_static);
        let a = accs.last();
        if a.is_static == is_static {
            put(before, a.name, accessor_property(a.get, a.set))
        } else {
            before
        }
    }
}

/// The properties of one side of a class.
pub open spec fn class_props(
    base: Named,
    ms: Seq<MemberDesc>,
    first: int,
    is_static: bool,
) -> Named {
    with_accessors(with_methods(base, ms, first, is_static), accessors(ms, first), is_static)
}

/// What a class's prototype has before its members: its constructor and its string tag.
pub open spec fn is_proto_base(s: Named, ctor: u64, name: Seq<char>) -> bool {
    &&& s.len() == 2
    &&& s[0] == ("constructor"@, Property::spec_data(Value::Obj(ctor), true, false, true))
    &&& s[1].0 == STRING_TAG@
    &&& (s[1].1.kind matches PropKind::Data(Value::Str(t)) && t@ == name)
    &&& !s[1].1.writable && !s[1].1.enumerable && s[1].1.configurable
}

/// What a class's constructor has before its members: `length`, `name` and `prototype`.
pub open spec fn is_ctor_base(s: Named, length: int, name: Seq<char>, proto: u64) -> bool {
    &&& s.len() == 3
    &&& crate::object::function_props(s.take(2), length, name)
    &&& s[2] == ("prototype"@, Property::spec_data(Value::Obj(proto), false, false, false))
}

/// The native entry of a class's constructor and its `length`.
pub open spec fn ctor_entry(d: ClassDesc) -> (u64, int) {
    match d.constructor {
        Some(op) => (op.native, op.arity as int),
        None => (ILLEGAL_CONSTRUCTOR, 0),
    }
}

/// The prototype of a class.
pub open spec fn is_class_proto(
    o: Object,
    object_proto: u64,
    d: ClassDesc,
    ctor: u64,
    first: int,
) -> bool {
    &&& ordinary(o, Some(object_proto))
    &&& exists|base: Named| #[trigger]
        is_proto_base(base, ctor, d.name@) && o.props@ == class_props(
            base,
            d.members@,
            first,
            false,
        )
}

/// The constructor of a class.
pub open spec fn is_class_ctor(
    o: Object,
    function_proto: u64,
    d: ClassDesc,
    proto: u64,
    first: int,
) -> bool {
    &&& plain_object(o, Some(function_proto), Callable::Native(ctor_entry(d).0), true)
    &&& exists|base: Named| #[trigger]
        is_ctor_base(base, ctor_entry(d).1, d.name@, proto) && o.props@ == class_props(
            base,
            d.members@,
            first,
            true,
        )
}

/// The registered ops after a class's members were registered.
pub open spec fn with_ops(
    by_fn: Map<u64, usize>,
    ms: Seq<MemberDesc>,
    first: int,
) -> Map<u64, usize>
    decreases ms.len(),
{
    if ms.len() == 0 {
        by_fn
    } else {
        with_ops(by_fn, ms.drop_last(), first).insert(
            ms.last().op.native,
            (first + ms.len() - 1) as usize,
        )
    }
}

/// A class as it is made at the object `n`: the prototype, the constructor, then a function for
/// each member.
pub open spec fn is_class_at(
    objects: Seq<Object>,
    n: int,
    d: ClassDesc,
    object_proto: u64,
    function_proto: u64,
) -> bool {
    &&& objects.len() == n + 2 + d.members@.len()
    &&& is_class_proto(objects[n], object_proto, d, (n + 1) as u64, n + 2)
    &&& is_class_ctor(objects[n + 1], function_proto, d, n as u64, n + 2)
    &&& forall|i: int|
        0 <= i < d.members@.len() ==> is_member_fn(
            #[trigger] objects[n + 2 + i],
            function_proto,
            d.members@[i],
        )
}

proof fn lemma_accessor_index_is(
    accs: Seq<AccessorView>,
    is_static: bool,
    name: Seq<char>,
    k: int,
)
    requires
        0 <= k <= accs.len(),
        forall|i: int|
            0 <= i < k ==> !((#[trigger] accs[i]).is_static == is_static && accs[i].name == name),
        k < accs.len() ==> accs[k].is_static == is_static && accs[k].name == name,
    ensures
        accessor_index(accs, is_static, name) == k,
    decreases k,
{
    if k > 0 {
        let d = accs.drop_first();
        assert forall|i: int| 0 <= i < k - 1 implies !((#[trigger] d[i]).is_static == is_static
            && d[i].name == name) by {
            assert(d[i] == accs[i + 1]);
        }
        assert(!(accs[0].is_static == is_static && accs[0].name == name));
        lemma_accessor_index_is(d, is_static, name, k - 1);
    }
}

/// Pairs a getter or a setter with what is there.
fn add_half(accs: &mut Vec<Accessor>, is_static: bool, name: &String, setter: bool, f: Value)
    ensures
        accessor_views(final(accs)@) == with_half(
            accessor_views(old(accs)@),
            is_static,
            name@,
            setter,
            f,
        ),
{
    let ghost before = accessor_views(accs@);
    let mut i: usize = 0;
    let n: usize = accs.len();
    while i < n
        invariant
            i <= n,
            n == accs@.len(),
            accs@ == old(accs)@,
            before == accessor_views(accs@),
            forall|j: int|
                0 <= j < i ==> !((#[trigger] before[j]).is_static == is_static && before[j].name
                    == name@),
        decreases n - i,
    {
        assert(before[i as int] == accs@[i as int]@);
        if accs[i].is_static == is_static && crate::text::same(
            accs[i].name.as_str(),
            name.as_str(),
        ) {
            proof {
                lemma_accessor_index_is(before, is_static, name@, i as int);
            }
            if setter {
                accs[i].set = Some(f);
            } else {
                accs[i].get = Some(f);
            }
            assert(accessor_views(accs@) =~= with_half(before, is_static, name@, setter, f));
            return;
        }
        i = i + 1;
    }
    proof {
        lemma_accessor_index_is(before, is_static, name@, n as int);
    }
    if setter {
        accs.push(Accessor { is_static, name: name.clone(), get: None, set: Some(f) });
    } else {
        accs.push(Accessor { is_static, name: name.clone(), get: Some(f), set: None });
    }
    assert(accessor_views(accs@) =~= with_half(before, is_static, name@, setter, f));
}

/// The function of a member.
fn member_function(function_proto: u64, m: &MemberDesc) -> (o: Object)
    ensures
        is_member_fn(o, function_proto, *m),
{
    let call = Callable::Native(m.op.native);
    match m.kind.role() {
        Role::Method => function_object(function_proto, call, m.op.arity, m.op.name.as_str()),
        Role::Getter => {
            let mut name = "get ".to_owned();
            name.append(m.op.name.as_str());
            function_object(function_proto, call, 0, name.as_str())
        },
        Role::Setter => {
            let mut name = "set ".to_owned();
            name.append(m.op.name.as_str());
            function_object(function_proto, call, 1, name.as_str())
        },
    }
}

impl Interp {
    /// Registers an op by its native entry.
    pub fn register_op(&mut self, op: &OpDesc)
        requires
            old(self).wf(),
        ensures
            final(self).wf(),
            *final(self) == (Interp { ops: final(self).ops, ..*old(self) }),
            op_views(final(self).ops.descs@) == op_views(old(self).ops.descs@).push(
                op.deep_view(),
            ),
            final(self).ops.by_fn@ == old(self).ops.by_fn@.insert(
                op.native,
                old(self).ops.descs@.len() as usize,
            ),
            old(self).ops.descs@.len() <= usize::MAX,
    {
        let i: usize = self.ops.descs.len();
        self.ops.descs.push(op.duplicate());
        self.ops.by_fn.insert(op.native, i);
        assert(op_views(self.ops.descs@) =~= op_views(old(self).ops.descs@).push(op.deep_view()));
    }
}

/// The prototype before its members.
fn proto_base(object_proto: u64, ctor: u64, name: &str) -> (o: Object)
    ensures
        ordinary(o, Some(object_proto)),
        is_proto_base(o.props@, ctor, name@),
{
    let mut o = Object::new(Some(object_proto));
    o.props.insert("constructor", Property::builtin(Value::Obj(ctor)));
    o.props.insert(
        STRING_TAG,
        Property::data(Value::Str(name.to_owned()), false, false, true),
    );
    proof {
        reveal_strlit("constructor");
        reveal_strlit("@@toStringTag");
        assert("constructor"@[0] != STRING_TAG@[0]);
        let e = Seq::<(Seq<char>, Property)>::empty();
        let c = Property::spec_data(Value::Obj(ctor), true, false, true);
        assert(put(e, "constructor"@, c) =~= seq![("constructor"@, c)]);
        crate::object::lemma_index_of_key_is(seq![("constructor"@, c)], STRING_TAG@, 1);
    }
    o
}

/// The constructor before its members.
fn ctor_base(function_proto: u64, native: u64, length: u32, name: &str, proto: u64) -> (o: Object)
    ensures
        plain_object(o, Some(function_proto), Callable::Native(native), true),
        is_ctor_base(o.props@, length as int, name@, proto),
{
    let mut o = function_object(function_proto, Callable::Native(native), length, name);
    o.is_constructor = true;
    let ghost s = o.props@;
    o.props.insert("prototype", Property::data(Value::Obj(proto), false, false, false));
    proof {
        reveal_strlit("length");
        reveal_strlit("name");
        reveal_strlit("prototype");
        assert("length"@[0] != "prototype"@[0]);
        assert("name"@[0] != "prototype"@[0]);
        crate::object::lemma_index_of_key_is(s, "prototype"@, 2);
        assert(o.props@.take(2) =~= s);
    }
    o
}

/// What making a class's members came to.
struct Members {
    proto: Object,
    ctor: Object,
    functions: Vec<Object>,
    accessors: Vec<Accessor>,
}

impl Interp {
    fn make_members(&mut self, d: &ClassDesc, m: Members, first: u64) -> (r: Members)
        requires
            old(self).wf(),
            m.functions@.len() == 0,
            m.accessors@.len() == 0,
            first + d.members@.len() <= u64::MAX,
        ensures
            final(self).wf(),
            *final(self) == (Interp { ops: final(self).ops, ..*old(self) }),
            op_views(final(self).ops.descs@) == op_views(old(self).ops.descs@) + op_views(
                member_ops(d.members@),
            ),
            final(self).ops.by_fn@ == with_ops(
                old(self).ops.by_fn@,
                d.members@,
                old(self).ops.descs@.len() as int,
            ),
            r.functions@.len() == d.members@.len(),
            forall|i: int|
                0 <= i < d.members@.len() ==> is_member_fn(
                    #[trigger] r.functions@[i],
                    old(self).function_proto,
                    d.members@[i],
                ),
            accessor_views(r.accessors@) == accessors(d.members@, first as int),
            r.proto == (Object { props: r.proto.props, ..m.proto }),
            r.ctor == (Object { props: r.ctor.props, ..m.ctor }),
            r.proto.props@ == with_methods(m.proto.props@, d.members@, first as int, false),
            r.ctor.props@ == with_methods(m.ctor.props@, d.members@, first as int, true),
    {
        let mut r = m;
        let mut i: usize = 0;
        let ghost ms = d.members@;
        assert(ms.take(0) =~= Seq::<MemberDesc>::empty());
        assert(accessor_views(r.accessors@) =~= Seq::<AccessorView>::empty());
        assert(op_views(self.ops.descs@) =~= op_views(old(self).ops.descs@) + op_views(
            member_ops(ms.take(0)),
        ));
        while i < d.members.len()
            invariant
                ms == d.members@,
                i <= ms.len(),
                first + ms.len() <= u64::MAX,
                self.wf(),
                *self == (Interp { ops: self.ops, ..*old(self) }),
                self.ops.descs@.len() == old(self).ops.descs@.len() + i,
                op_views(self.ops.descs@) == op_views(old(self).ops.descs@) + op_views(
                    member_ops(ms.take(i as int)),
                ),
                self.ops.by_fn@ == with_ops(
                    old(self).ops.by_fn@,
                    ms.take(i as int),
                    old(self).ops.descs@.len() as int,
                ),
                r.functions@.len() == i,
                forall|j: int|
                    0 <= j < i ==> is_member_fn(
                        #[trigger] r.functions@[j],
                        old(self).function_proto,
                        ms[j],
                    ),
                accessor_views(r.accessors@) == accessors(ms.take(i as int), first as int),
                r.proto == (Object { props: r.proto.props, ..m.proto }),
                r.ctor == (Object { props: r.ctor.props, ..m.ctor }),
                r.proto.props@ == with_methods(
                    m.proto.props@,
                    ms.take(i as int),
                    first as int,
                    false,
                ),
                r.ctor.props@ == with_methods(m.ctor.props@, ms.take(i as int), first as int, true),
            decreases ms.len() - i,
        {
            let m = &d.members[i];
            proof {
                let a = ms.take(i as int);
                let b = ms.take(i + 1);
                assert(b.drop_last() =~= a);
                assert(b.last() == *m);
                assert(op_views(member_ops(b)) =~= op_views(member_ops(a)).push(m.op.deep_view()));
            }
            self.register_op(&m.op);
            assert(op_views(self.ops.descs@) =~= op_views(old(self).ops.descs@) + op_views(
                member_ops(ms.take(i + 1)),
            ));
            assert(self.ops.descs@.len() == op_views(self.ops.descs@).len());
            let f = Value::Obj(first + i as u64);
            let is_static = m.kind.is_static();
            match m.kind.role() {
                Role::Method => {
                    if is_static {
                        r.ctor.props.insert(m.op.name.as_str(), Property::builtin(f));
                    } else {
                        r.proto.props.insert(m.op.name.as_str(), Property::builtin(f));
                    }
                },
                Role::Getter => {
                    add_half(&mut r.accessors, is_static, &m.op.name, false, f);
                },
                Role::Setter => {
                    add_half(&mut r.accessors, is_static, &m.op.name, true, f);
                },
            }
            r.functions.push(member_function(self.function_proto, m));
            i = i + 1;
        }
        assert(ms.take(i as int) =~= ms);
        r
    }

    /// This realm's constructor and prototype of a class, made on first use: methods are
    /// built-in properties, and getters and setters are paired into accessors by side and name.
    /// The members' ops are registered.
    pub fn class_entry(&mut self, d: &ClassDesc) -> (r: ClassEntry)
        requires
            old(self).wf(),
            old(self).room(2 + d.members@.len() as int),
        ensures
            final(self).wf(),
            final(self).classes@ == old(self).classes@.insert(d.type_id, r),
            if old(self).classes@.contains_key(d.type_id) {
                r == old(self).classes@[d.type_id] && *final(self) == *old(self)
            } else {
                let n = old(self).heap.objects@.len() as int;
                &&& r == ClassEntry {
                    ctor: (n + 1) as u64,
                    proto: n as u64,
                    native: ctor_entry(*d).0,
                }
                &&& final(self).heap.objects@.take(n) == old(self).heap.objects@
                &&& is_class_at(
                    final(self).heap.objects@,
                    n,
                    *d,
                    old(self).object_proto,
                    old(self).function_proto,
                )
                &&& op_views(final(self).ops.descs@) == op_views(old(self).ops.descs@) + op_views(
                    member_ops(d.members@),
                )
                &&& final(self).ops.by_fn@ == with_ops(
                    old(self).ops.by_fn@,
                    d.members@,
                    old(self).ops.descs@.len() as int,
                )
                &&& *final(self) == Interp {
                    heap: final(self).heap,
                    classes: final(self).classes,
                    ops: final(self).ops,
                    ..*old(self)
                }
            },
    {
        if let Some(e) = self.classes.get(&d.type_id) {
            let e = *e;
            assert(self.classes@ =~= self.classes@.insert(d.type_id, e));
            return e;
        }
        let n: u64 = self.heap.objects.len() as u64;
        let (native, length): (u64, u32) = match &d.constructor {
            Some(op) => (op.native, op.arity),
            None => (ILLEGAL_CONSTRUCTOR, 0),
        };
        let proto = proto_base(self.object_proto, n + 1, d.name.as_str());
        let ctor = ctor_base(self.function_proto, native, length, d.name.as_str(), n);
        let ghost pb = proto.props@;
        let ghost cb = ctor.props@;
        let m = self.make_members(
            d,
            Members { proto, ctor, functions: Vec::new(), accessors: Vec::new() },
            n + 2,
        );
        let Members { mut proto, mut ctor, mut functions, accessors: accs } = m;
        let ghost pm = proto.props@;
        let ghost cm = ctor.props@;
        let ghost av = accessor_views(accs@);
        let ghost proto0 = proto;
        let ghost ctor0 = ctor;
        let mut i: usize = 0;
        assert(av.take(0) =~= Seq::<AccessorView>::empty());
        while i < accs.len()
            invariant
                i <= accs@.len(),
                av == accessor_views(accs@),
                proto == (Object { props: proto.props, ..proto0 }),
                ctor == (Object { props: ctor.props, ..ctor0 }),
                proto.props@ == with_accessors(pm, av.take(i as int), false),
                ctor.props@ == with_accessors(cm, av.take(i as int), true),
            decreases accs@.len() - i,
        {
            let a = &accs[i];
            proof {
                assert(av.take(i + 1).drop_last() =~= av.take(i as int));
                assert(av.take(i + 1).last() == a@);
            }
            let get = match &a.get {
                Some(v) => Some(v.duplicate()),
                None => None,
            };
            let set = match &a.set {
                Some(v) => Some(v.duplicate()),
                None => None,
            };
            let p = Property::accessor_prop(get, set, false, true);
            if a.is_static {
                ctor.props.insert(a.name.as_str(), p);
            } else {
                proto.props.insert(a.name.as_str(), p);
            }
            i = i + 1;
        }
        assert(av.take(i as int) =~= av);
        assert(is_proto_base(pb, (n + 1) as u64, d.name@));
        assert(is_ctor_base(cb, ctor_entry(*d).1, d.name@, n));
        let ghost fs = functions@;
        let _ = self.heap.add_object(proto);
        let _ = self.heap.add_object(ctor);
        self.heap.objects.append(&mut functions);
        let e = ClassEntry { ctor: n + 1, proto: n, native };
        self.classes.insert(d.type_id, e);
        proof {
            let os = self.heap.objects@;
            assert(os =~= old(self).heap.objects@.push(proto).push(ctor) + fs);
            assert(os.take(n as int) =~= old(self).heap.objects@);
            assert(os[n as int] == proto);
            assert(os[n + 1] == ctor);
            assert forall|i: int| 0 <= i < d.members@.len() implies is_member_fn(
                #[trigger] os[n + 2 + i],
                old(self).function_proto,
                d.members@[i],
            ) by {
                assert(os[n + 2 + i] == fs[i]);
            }
        }
        e
    }
}

/// The ops of members.
pub open spec fn member_ops(ms: Seq<MemberDesc>) -> Seq<OpDesc> {
    Seq::new(ms.len(), |i: int| ms[i].op)
}

/// The last member with a role and a name on a side.
pub open spec fn last_member(
    ms: Seq<MemberDesc>,
    is_static: bool,
    name: Seq<char>,
    role: Role,
) -> Option<int>
    decreases ms.len(),
{
    if ms.len() == 0 {
        None
    } else {
        let m = ms.last();
        if m.kind.spec_static() == is_static && m.op.name@ == name && m.kind.spec_role() == role {
            Some(ms.len() - 1)
        } else {
            last_member(ms.drop_last(), is_static, name, role)
        }
    }
}

/// The function of a member, where there is one.
pub open spec fn function_of(first: int, i: Option<int>) -> Option<Value> {
    match i {
        Some(k) => Some(member_value(first, k)),
        None => None,
    }
}

proof fn lemma_accessor_index(accs: Seq<AccessorView>, is_static: bool, name: Seq<char>)
    ensures
        ({
            let k = accessor_index(accs, is_static, name) as int;
            &&& k <= accs.len()
            &&& forall|i: int|
                0 <= i < k ==> !((#[trigger] accs[i]).is_static == is_static && accs[i].name
                    == name)
            &&& k < accs.len() ==> accs[k].is_static == is_static && accs[k].name == name
        }),
    decreases accs.len(),
{
    if accs.len() > 0 && !(accs[0].is_static == is_static && accs[0].name == name) {
        let d = accs.drop_first();
        lemma_accessor_index(d, is_static, name);
        let k = accessor_index(accs, is_static, name) as int;
        assert forall|i: int| 0 <= i < k implies !((#[trigger] accs[i]).is_static == is_static
            && accs[i].name == name) by {
            if i > 0 {
                assert(d[i - 1] == accs[i]);
            }
        }
    }
}

proof fn lemma_methods_lookup(
    base: Named,
    ms: Seq<MemberDesc>,
    first: int,
    is_static: bool,
    name: Seq<char>,
)
    ensures
        lookup(with_methods(base, ms, first, is_static), name) == match last_member(
            ms,
            is_static,
            name,
            Role::Method,
        ) {
            Some(i) => Some(Property::spec_data(member_value(first, i), true, false, true)),
            None => lookup(base, name),
        },
    decreases ms.len(),
{
    if ms.len() > 0 {
        let d = ms.drop_last();
        lemma_methods_lookup(base, d, first, is_static, name);
        let m = ms.last();
        if m.kind.spec_role() == Role::Method && m.kind.spec_static() == is_static {
            crate::object::lemma_put_reads_back(
                with_methods(base, d, first, is_static),
                m.op.name@,
                Property::spec_data(member_value(first, ms.len() - 1), true, false, true),
                name,
            );
        }
    }
}

/// No side has two accessors of a name.
pub open spec fn paired(accs: Seq<AccessorView>) -> bool {
    forall|i: int, j: int|
        0 <= i < j < accs.len() ==> !((#[trigger] accs[i]).is_static == (
        #[trigger] accs[j]).is_static && accs[i].name == accs[j].name)
}

proof fn lemma_half_lookup(
    accs: Seq<AccessorView>,
    s: bool,
    x: Seq<char>,
    setter: bool,
    f: Value,
    is_static: bool,
    name: Seq<char>,
)
    requires
        paired(accs),
    ensures
        ({
            let k = with_half(accs, s, x, setter, f);
            let i = accessor_index(accs, is_static, name) as int;
            let j = accessor_index(k, is_static, name) as int;
            &&& paired(k)
            &&& i <= accs.len() && j <= k.len()
            &&& if s == is_static && x == name {
                &&& j < k.len()
                &&& k[j].get == if !setter {
                    Some(f)
                } else if i < accs.len() {
                    accs[i].get
                } else {
                    None
                }
                &&& k[j].set == if setter {
                    Some(f)
                } else if i < accs.len() {
                    accs[i].set
                } else {
                    None
                }
            } else {
                &&& (i < accs.len() <==> j < k.len())
                &&& i < accs.len() ==> k[j] == accs[i]
            }
        }),
{
    let k = with_half(accs, s, x, setter, f);
    let i = accessor_index(accs, is_static, name) as int;
    lemma_accessor_index(accs, is_static, name);
    lemma_accessor_index(accs, s, x);
    let h = accessor_index(accs, s, x) as int;
    if i < accs.len() {
        lemma_accessor_index_is(k, is_static, name, i);
    } else if s == is_static && x == name {
        lemma_accessor_index_is(k, is_static, name, i);
    } else {
        assert forall|q: int| 0 <= q < k.len() implies !((#[trigger] k[q]).is_static == is_static
            && k[q].name == name) by {
            if q < accs.len() {
                assert(!(accs[q].is_static == is_static && accs[q].name == name));
            }
        }
        lemma_accessor_index_is(k, is_static, name, k.len() as int);
    }
    assert forall|a: int, b: int| 0 <= a < b < k.len() implies !((#[trigger] k[a]).is_static == (
    #[trigger] k[b]).is_static && k[a].name == k[b].name) by {
        if b < accs.len() {
            assert(!(accs[a].is_static == accs[b].is_static && accs[a].name == accs[b].name));
        } else {
            assert(!(accs[a].is_static == s && accs[a].name == x));
        }
    }
}

proof fn lemma_accessors_lookup(
    ms: Seq<MemberDesc>,
    first: int,
    is_static: bool,
    name: Seq<char>,
)
    ensures
        ({
            let accs = accessors(ms, first);
            let i = accessor_index(accs, is_static, name) as int;
            let g = function_of(first, last_member(ms, is_static, name, Role::Getter));
            let t = function_of(first, last_member(ms, is_static, name, Role::Setter));
            &&& paired(accs)
            &&& i <= accs.len()
            &&& (i < accs.len() <==> g is Some || t is Some)
            &&& i < accs.len() ==> accs[i].get == g && accs[i].set == t
        }),
    decreases ms.len(),
{
    if ms.len() > 0 {
        let d = ms.drop_last();
        let m = ms.last();
        lemma_accessors_lookup(d, first, is_static, name);
        if m.kind.spec_role() != Role::Method {
            lemma_half_lookup(
                accessors(d, first),
                m.kind.spec_static(),
                m.op.name@,
                m.kind.spec_role() == Role::Setter,
                member_value(first, ms.len() - 1),
                is_static,
                name,
            );
        }
    }
}

proof fn lemma_with_accessors_lookup(
    base: Named,
    accs: Seq<AccessorView>,
    is_static: bool,
    name: Seq<char>,
)
    requires
        paired(accs),
    ensures
        ({
            let i = accessor_index(accs, is_static, name) as int;
            lookup(with_accessors(base, accs, is_static), name) == if i < accs.len() {
                Some(accessor_property(accs[i].get, accs[i].set))
            } else {
                lookup(base, name)
            }
        }),
    decreases accs.len(),
{
    if accs.len() > 0 {
        let d = accs.drop_last();
        let a = accs.last();
        assert(paired(d)) by {
            assert forall|i: int, j: int| 0 <= i < j < d.len() implies !((
            #[trigger] d[i]).is_static == (#[trigger] d[j]).is_static && d[i].name
                == d[j].name) by {
                assert(accs[i] == d[i] && accs[j] == d[j]);
            }
        }
        lemma_with_accessors_lookup(base, d, is_static, name);
        lemma_accessor_index(d, is_static, name);
        let i = accessor_index(d, is_static, name) as int;
        let last = accs.len() - 1;
        assert forall|q: int| 0 <= q < last implies accs[q] == d[q] by {}
        if i < d.len() {
            assert(accs[i] == d[i]);
            assert forall|q: int| 0 <= q < i implies !((#[trigger] accs[q]).is_static == is_static
                && accs[q].name == name) by {
                assert(accs[q] == d[q]);
            }
            lemma_accessor_index_is(accs, is_static, name, i);
            assert(!(accs[i].is_static == accs[last].is_static && accs[i].name
                == accs[last].name));
        } else {
            assert forall|q: int| 0 <= q < last implies !((#[trigger] accs[q]).is_static
                == is_static && accs[q].name == name) by {
                assert(accs[q] == d[q]);
            }
            if a.is_static == is_static && a.name == name {
                lemma_accessor_index_is(accs, is_static, name, last);
            } else {
                lemma_accessor_index_is(accs, is_static, name, accs.len() as int);
            }
        }
        if a.is_static == is_static {
            crate::object::lemma_put_reads_back(
                with_accessors(base, d, is_static),
                a.name,
                accessor_property(a.get, a.set),
                name,
            );
        }
    }
}

/// What a name reads as on one side of a class: an accessor made of the last getter and the last
/// setter of that name, where there is either; else the last method of that name; else what the
/// constructor or prototype has by itself.
pub proof fn lemma_class_lookup(
    base: Named,
    ms: Seq<MemberDesc>,
    first: int,
    is_static: bool,
    name: Seq<char>,
)
    ensures
        ({
            let g = function_of(first, last_member(ms, is_static, name, Role::Getter));
            let t = function_of(first, last_member(ms, is_static, name, Role::Setter));
            let m = last_member(ms, is_static, name, Role::Method);
            lookup(class_props(base, ms, first, is_static), name) == if g is Some || t is Some {
                Some(accessor_property(g, t))
            } else {
                match m {
                    Some(i) => Some(
                        Property::spec_data(member_value(first, i), true, false, true),
                    ),
                    None => lookup(base, name),
                }
            }
        }),
{
    lemma_accessors_lookup(ms, first, is_static, name);
    lemma_methods_lookup(base, ms, first, is_static, name);
    lemma_with_accessors_lookup(
        with_methods(base, ms, first, is_static),
        accessors(ms, first),
        is_static,
        name,
    );
}

impl Interp {
    /// A function for an op, which is registered.
    pub fn op_function(&mut self, op: &OpDesc) -> (r: Value)
        requires
            old(self).wf(),
            old(self).room(1),
        ensures
            final(self).wf(),
            r == Value::Obj(old(self).heap.objects@.len() as u64),
            final(self).heap.objects@.len() == old(self).heap.objects@.len() + 1,
            final(self).heap.objects@.take(old(self).heap.objects@.len() as int)
                == old(self).heap.objects@,
            fresh_function(
                final(self).heap.at(r->Obj_0),
                old(self).function_proto,
                Callable::Native(op.native),
                op.arity as int,
                op.name@,
            ),
            *final(self) == (Interp {
                heap: final(self).heap,
                ops: final(self).ops,
                ..*old(self)
            }),
            op_views(final(self).ops.descs@) == op_views(old(self).ops.descs@).push(
                op.deep_view(),
            ),
            final(self).ops.by_fn@ == old(self).ops.by_fn@.insert(
                op.native,
                old(self).ops.descs@.len() as usize,
            ),
            final(self).spec_op_of(r) == Some(op.deep_view()),
    {
        self.register_op(op);
        let ghost mid = *self;
        let f = self.make_native(op.name.as_str(), op.arity, op.native);
        proof {
            let i = old(self).ops.descs@.len() as int;
            assert(op_views(old(self).ops.descs@).len() == i);
            assert(op_views(mid.ops.descs@).len() == mid.ops.descs@.len());
            assert(op_views(mid.ops.descs@)[i] == mid.ops.descs@[i].deep_view());
        }
        Value::Obj(f)
    }

    /// The descriptor of the op behind a function.
    pub open spec fn spec_op_of(self, callee: Value) -> Option<crate::embed_convert::desc::OpDescView> {
        match callee {
            Value::Obj(o) => if self.heap.has(o) {
                match self.heap.at(o).call {
                    Callable::Native(f) => self.ops.op_at(f),
                    _ => None,
                }
            } else {
                None
            },
            _ => None,
        }
    }

    /// The descriptor of the op behind a function made from one.
    pub fn op_desc_of(&self, callee: &Value) -> (r: Option<&OpDesc>)
        requires
            self.wf(),
        ensures
            match r {
                Some(d) => self.spec_op_of(*callee) == Some(d.deep_view()),
                None => self.spec_op_of(*callee) is None,
            },
    {
        let o: u64 = match callee {
            Value::Obj(o) => *o,
            _ => {
                return None;
            },
        };
        if !self.heap.holds(o) {
            return None;
        }
        match self.heap.get(o).call {
            Callable::Native(f) => match self.ops.by_fn.get(&f) {
                Some(i) => {
                    let d: &OpDesc = &self.ops.descs[*i];
                    Some(d)
                },
                None => None,
            },
            _ => None,
        }
    }

    /// The unboxed entry of a function, if it is an op with one.
    pub fn fast_op_of(&self, callee: &Value) -> (r: Option<FastSig>)
        requires
            self.wf(),
        ensures
            match self.spec_op_of(*callee) {
                Some(d) => match d.fast {
                    Some(s) => r matches Some(f) && f.args@ == s.args && f.ret == s.ret && f.entry
                        == s.entry,
                    None => r is None,
                },
                None => r is None,
            },
    {
        match self.op_desc_of(callee) {
            Some(d) => match &d.fast {
                Some(f) => Some(f.duplicate()),
                None => None,
            },
            None => None,
        }
    }

    /// The constructor of a class, made on first use.
    pub fn class_constructor(&mut self, d: &ClassDesc) -> (r: Value)
        requires
            old(self).wf(),
            old(self).room(2 + d.members@.len() as int),
        ensures
            final(self).wf(),
            final(self).classes@.contains_key(d.type_id),
            r == Value::Obj(final(self).classes@[d.type_id].ctor),
            final(self).class_is_known(*old(self), *d),
    {
        Value::Obj(self.class_entry(d).ctor)
    }

    /// The class is the one made before, or a new one after the objects there were.
    pub open spec fn class_is_known(self, before: Interp, d: ClassDesc) -> bool {
        if before.classes@.contains_key(d.type_id) {
            self == before
        } else {
            let n = before.heap.objects@.len() as int;
            &&& self.heap.objects@.take(n) == before.heap.objects@
            &&& is_class_at(
                self.heap.objects@,
                n,
                d,
                before.object_proto,
                before.function_proto,
            )
            &&& self.classes@ == before.classes@.insert(
                d.type_id,
                ClassEntry { ctor: (n + 1) as u64, proto: n as u64, native: ctor_entry(d).0 },
            )
            &&& op_views(self.ops.descs@) == op_views(before.ops.descs@) + op_views(
                member_ops(d.members@),
            )
            &&& self.ops.by_fn@ == with_ops(
                before.ops.by_fn@,
                d.members@,
                before.ops.descs@.len() as int,
            )
            &&& self == (Interp {
                heap: self.heap,
                classes: self.classes,
                ops: self.ops,
                ..before
            })
        }
    }

    /// A new instance of a class, with the given value, is the last object; the class is made
    /// first unless there is one.
    pub open spec fn instance_made(
        self,
        mid: Interp,
        before: Interp,
        d: ClassDesc,
        handle: u64,
        alive: Set<u64>,
    ) -> bool {
        let o = mid.heap.objects@.len() as u64;
        &&& mid.class_is_known(before, d)
        &&& mid.classes@.contains_key(d.type_id)
        &&& self == (Interp { heap: self.heap, hosts: self.hosts, ..mid })
        &&& self.heap.objects@.len() == mid.heap.objects@.len() + 1
        &&& self.heap.objects@.drop_last() == mid.heap.objects@
        &&& fresh_object(self.heap.objects@.last(), Some(mid.classes@[d.type_id].proto))
        &&& mid.hosts.attached(
            self.hosts,
            o,
            idle_entry(d.type_id, handle),
            alive,
        )
    }

    /// Attaches a host value to an object.
    pub fn attach_instance(&mut self, obj: u64, class: u64, handle: u64, alive: &HashSet<u64>)
        requires
            old(self).wf(),
        ensures
            final(self).wf(),
            *final(self) == (Interp { hosts: final(self).hosts, ..*old(self) }),
            old(self).hosts.attached(
                final(self).hosts,
                obj,
                idle_entry(class, handle),
                alive@,
            ),
            final(self).hosts.spec_data(obj, class) == Some(handle),
    {
        self.hosts.attach(obj, class, handle, alive);
    }

    /// A host value as a new instance of its class.
    pub fn new_instance(&mut self, d: &ClassDesc, handle: u64, alive: &HashSet<u64>) -> (r: Value)
        requires
            old(self).wf(),
            old(self).room(3 + d.members@.len() as int),
        ensures
            final(self).wf(),
            r == Value::Obj((final(self).heap.objects@.len() - 1) as u64),
            exists|mid: Interp| #[trigger]
                final(self).instance_made(mid, *old(self), *d, handle, alive@),
            final(self).spec_instance(d.type_id, r) == Some(handle),
    {
        let e = self.class_entry(d);
        let ghost mid = *self;
        let o = self.heap.add_object(Object::new(Some(e.proto)));
        assert(self.heap.objects@.drop_last() =~= mid.heap.objects@);
        self.attach_instance(o, d.type_id, handle, alive);
        assert(self.instance_made(mid, *old(self), *d, handle, alive@));
        Value::Obj(o)
    }

    /// The value of a class behind a value.
    pub open spec fn spec_instance(self, class: u64, v: Value) -> Option<u64> {
        match v {
            Value::Obj(o) => self.hosts.spec_data(o, class),
            _ => None,
        }
    }

    /// The host value behind an instance of a class, by its handle.
    pub fn instance_data(&self, d: &ClassDesc, v: &Value) -> (r: Option<u64>)
        ensures
            r == self.spec_instance(d.type_id, *v),
    {
        match v {
            Value::Obj(o) => self.hosts.data(*o, d.type_id),
            _ => None,
        }
    }

    /// Drops the values of instances whose objects died, and says how many.
    pub fn sweep_host_objects(&mut self, alive: &HashSet<u64>) -> (r: usize)
        requires
            old(self).wf(),
        ensures
            final(self).wf(),
            *final(self) == (Interp { hosts: final(self).hosts, ..*old(self) }),
            final(self).hosts.entries@ == old(self).hosts.entries@.restrict(alive@),
            final(self).hosts.sweep_at == doubled(final(self).hosts.entries@.len()),
            r == old(self).hosts.entries@.len() - final(self).hosts.entries@.len(),
    {
        self.hosts.sweep(alive)
    }

    /// After a collection, which left the given objects alive: drops the values of the instances
    /// that died, and says how many.
    pub fn collect_garbage(&mut self, alive: &HashSet<u64>) -> (r: usize)
        requires
            old(self).wf(),
        ensures
            final(self).wf(),
            *final(self) == (Interp { hosts: final(self).hosts, ..*old(self) }),
            final(self).hosts.entries@ == old(self).hosts.entries@.restrict(alive@),
            final(self).hosts.sweep_at == doubled(final(self).hosts.entries@.len()),
            r == old(self).hosts.entries@.len() - final(self).hosts.entries@.len(),
    {
        self.sweep_host_objects(alive)
    }
}

/// The error of calling the constructor of a class without one.
pub fn illegal_constructor() -> (e: OpError)
    ensures
        e@ == new_error("TypeError"@, "Illegal constructor"@),
{
    OpError::type_error("Illegal constructor")
}

impl Interp {
    /// The native entry behind a function.
    pub open spec fn native_behind(self, callee: Value) -> Option<u64> {
        match callee {
            Value::Obj(o) => if self.heap.has(o) {
                match self.heap.at(o).call {
                    Callable::Native(n) => Some(n),
                    _ => None,
                }
            } else {
                None
            },
            _ => None,
        }
    }

    /// What calling a function throws before anything runs: that a class has no constructor.
    pub open spec fn refusal(self, callee: Value) -> Option<OpErrorView> {
        if self.native_behind(callee) == Some(ILLEGAL_CONSTRUCTOR) {
            Some(new_error("TypeError"@, "Illegal constructor"@))
        } else {
            None
        }
    }

    /// What calling a function, with `new` or without, runs: its native entry, where it has one.
    /// The entry of a class without a constructor throws.
    pub fn native_run(&self, callee: &Value) -> (r: Option<Result<u64, OpError>>)
        ensures
            match self.refusal(*callee) {
                Some(v) => r matches Some(Err(e)) && e@ == v,
                None => match self.native_behind(*callee) {
                    Some(n) => r == Some(Ok::<u64, OpError>(n)),
                    None => r is None,
                },
            },
    {
        let o: u64 = match callee {
            Value::Obj(o) => *o,
            _ => {
                return None;
            },
        };
        if !self.heap.holds(o) {
            return None;
        }
        match self.heap.get(o).call {
            Callable::Native(n) => if n == ILLEGAL_CONSTRUCTOR {
                Some(Err(illegal_constructor()))
            } else {
                Some(Ok(n))
            },
            _ => None,
        }
    }

    /// A class that was made before was made from this descriptor: a host type has one.
    pub open spec fn describes(self, d: ClassDesc) -> bool {
        self.classes@.contains_key(d.type_id) ==> self.classes@[d.type_id].native == ctor_entry(d).0
    }

    /// The constructor of a known class has the class's prototype as its own `prototype`.
    pub open spec fn prototype_stands(self, class: u64) -> bool {
        let e = self.classes@[class];
        lookup(self.heap.at(e.ctor).props@, "prototype"@) == Some(
            Property::spec_data(Value::Obj(e.proto), false, false, false),
        )
    }
}

/// No static member is named `prototype`.
pub open spec fn prototype_free(d: ClassDesc) -> bool {
    forall|i: int|
        0 <= i < d.members@.len() && (#[trigger] d.members@[i]).kind.spec_static()
            ==> d.members@[i].op.name@ != "prototype"@
}

proof fn lemma_no_member(ms: Seq<MemberDesc>, is_static: bool, name: Seq<char>, role: Role)
    requires
        forall|i: int|
            0 <= i < ms.len() && (#[trigger] ms[i]).kind.spec_static() == is_static
                ==> ms[i].op.name@ != name,
    ensures
        last_member(ms, is_static, name, role) is None,
    decreases ms.len(),
{
    if ms.len() > 0 {
        let d = ms.drop_last();
        assert forall|i: int|
            0 <= i < d.len() && (#[trigger] d[i]).kind.spec_static() == is_static implies
            d[i].op.name@ != name by {
            assert(d[i] == ms[i]);
        }
        assert(ms.last() == ms[ms.len() - 1]);
        lemma_no_member(d, is_static, name, role);
    }
}

/// A class that is made gets its prototype as its constructor's `prototype`, unless a static
/// member takes the name.
pub proof fn lemma_new_class_has_its_prototype(before: Interp, after: Interp, d: ClassDesc)
    requires
        after.class_is_known(before, d),
        !before.classes@.contains_key(d.type_id),
        before.heap.objects@.len() < u64::MAX,
        prototype_free(d),
    ensures
        after.prototype_stands(d.type_id),
{
    let n = before.heap.objects@.len() as int;
    let ms = d.members@;
    let c = after.heap.objects@[n + 1];
    assert(is_class_ctor(c, before.function_proto, d, n as u64, n + 2));
    let base = choose|base: Named| #[trigger]
        is_ctor_base(base, ctor_entry(d).1, d.name@, n as u64) && c.props@ == class_props(
            base,
            ms,
            n + 2,
            true,
        );
    lemma_class_lookup(base, ms, n + 2, true, "prototype"@);
    lemma_no_member(ms, true, "prototype"@, Role::Getter);
    lemma_no_member(ms, true, "prototype"@, Role::Setter);
    lemma_no_member(ms, true, "prototype"@, Role::Method);
    assert(base[0] == base.take(2)[0]);
    assert(base[1] == base.take(2)[1]);
    reveal_strlit("prototype");
    reveal_strlit("length");
    reveal_strlit("name");
    assert("prototype"@.len() == 9 && "length"@.len() == 6 && "name"@.len() == 4);
    crate::object::lemma_index_of_key_is(base, "prototype"@, 2);
}

/// What a class constructor's result becomes.
pub enum Constructed {
    /// The value is attached to the receiver, which is the result.
    Receiver,
    /// A new instance with this prototype.
    Fresh(u64),
}

/// Finishes a class constructor: the value of a derived class's `super(..)` call goes to the
/// instance that is there as the receiver; otherwise a new instance gets the `prototype` of
/// `new.target` where that is an object, else the class's own.
pub fn construct_ret(this: &Value, class_proto: u64, target_proto: Option<Value>) -> (r: Constructed)
    ensures
        r == if *this is Obj {
            Constructed::Receiver
        } else {
            match target_proto {
                Some(Value::Obj(p)) => Constructed::Fresh(p),
                _ => Constructed::Fresh(class_proto),
            }
        },
{
    match this {
        Value::Obj(_) => Constructed::Receiver,
        _ => match target_proto {
            Some(Value::Obj(p)) => Constructed::Fresh(p),
            _ => Constructed::Fresh(class_proto),
        },
    }
}

/// What a receiver or an argument that is no instance of a class is told.
pub open spec fn not_instance(cx: ArgCx, name: Seq<char>, at: Slot) -> Seq<char> {
    if at.is_this() && at.spec_elem() == crate::embed_convert::desc::NO_INDEX {
        crate::embed_convert::desc::label_text(cx.desc) + ": illegal invocation (receiver is not a "@
            + name + ")"@
    } else {
        cx.desc.complaint(at, "must be a "@ + name)
    }
}

/// The host value of a class behind a value, by its handle.
pub fn class_rc(cx: &ArgCx, i: &Interp, d: &ClassDesc, v: &Value, at: Slot) -> (r: Result<
    u64,
    OpError,
>)
    ensures
        match i.spec_instance(d.type_id, *v) {
            Some(h) => r == Ok::<u64, OpError>(h),
            None => r matches Err(e) && e@ == new_error(
                "TypeError"@,
                not_instance(*cx, d.name@, at),
            ),
        },
{
    match i.instance_data(d, v) {
        Some(h) => Ok(h),
        None => {
            if at.is_receiver() {
                let mut msg = cx.label();
                msg.append(": illegal invocation (receiver is not a ");
                msg.append(d.name.as_str());
                msg.append(")");
                return Err(OpError::type_error(msg.as_str()));
            }
            let mut what = "must be a ".to_owned();
            what.append(d.name.as_str());
            Err(cx.type_error(at, what.as_str()))
        },
    }
}

/// What a borrow that conflicts is told.
pub open spec fn conflict_text(cx: ArgCx, name: Seq<char>, at: Slot) -> Seq<char> {
    cx.desc.complaint(
        at,
        "is a "@ + name + " already in use by an enclosing call (re-entrant borrow)"@,
    )
}

/// What borrowing a class instance comes to.
pub open spec fn borrows_instance(
    cx: ArgCx,
    d: ClassDesc,
    v: Value,
    at: Slot,
    exclusive: bool,
    i: Interp,
    k: Interp,
    guards: Seq<Guard>,
    held: Seq<Guard>,
    r: Result<u64, OpError>,
) -> bool {
    &&& k == Interp { hosts: k.hosts, ..i }
    &&& match i.spec_instance(d.type_id, v) {
        Some(h) => {
            let e = i.hosts.entries@[v->Obj_0];
            let g = Guard { obj: v->Obj_0, exclusive };
            if free(e, exclusive) {
                &&& r == Ok::<u64, OpError>(h)
                &&& held == guards.push(g)
                &&& k.hosts.released(g) == i.hosts.entries@
                &&& k.hosts.sweep_at == i.hosts.sweep_at
                &&& k.hosts.entries@ == i.hosts.entries@.insert(v->Obj_0, borrowed(e, exclusive))
            } else {
                &&& r matches Err(x)
                &&& x@ == new_error("TypeError"@, conflict_text(cx, d.name@, at))
                &&& held == guards
                &&& k.hosts.entries@ == i.hosts.entries@
                &&& k.hosts.sweep_at == i.hosts.sweep_at
            }
        },
        None => {
            &&& r matches Err(e)
            &&& e@ == new_error("TypeError"@, not_instance(cx, d.name@, at))
            &&& held == guards
            &&& k == i
        },
    }
}

/// Borrows a class instance shared, until the call's guards are released.
pub fn class_ref(
    cx: &ArgCx,
    i: &mut Interp,
    guards: &mut Vec<Guard>,
    d: &ClassDesc,
    v: &Value,
    at: Slot,
) -> (r: Result<u64, OpError>)
    requires
        old(i).wf(),
    ensures
        final(i).wf(),
        borrows_instance(
            *cx,
            *d,
            *v,
            at,
            false,
            *old(i),
            *final(i),
            old(guards)@,
            final(guards)@,
            r,
        ),
{
    class_borrow(cx, i, guards, d, v, at, false)
}

/// Borrows a class instance exclusively, until the call's guards are released.
pub fn class_mut(
    cx: &ArgCx,
    i: &mut Interp,
    guards: &mut Vec<Guard>,
    d: &ClassDesc,
    v: &Value,
    at: Slot,
) -> (r: Result<u64, OpError>)
    requires
        old(i).wf(),
    ensures
        final(i).wf(),
        borrows_instance(
            *cx,
            *d,
            *v,
            at,
            true,
            *old(i),
            *final(i),
            old(guards)@,
            final(guards)@,
            r,
        ),
{
    class_borrow(cx, i, guards, d, v, at, true)
}

/// A host value as an instance of its class.
pub fn class_into_js(i: &mut Interp, d: &ClassDesc, handle: u64, alive: &HashSet<u64>) -> (r:
    Value)
    requires
        old(i).wf(),
        old(i).room(3 + d.members@.len() as int),
    ensures
        final(i).wf(),
        r == Value::Obj((final(i).heap.objects@.len() - 1) as u64),
        exists|mid: Interp| #[trigger]
            final(i).instance_made(mid, *old(i), *d, handle, alive@),
        final(i).spec_instance(d.type_id, r) == Some(handle),
{
    i.new_instance(d, handle, alive)
}

fn class_borrow(
    cx: &ArgCx,
    i: &mut Interp,
    guards: &mut Vec<Guard>,
    d: &ClassDesc,
    v: &Value,
    at: Slot,
    exclusive: bool,
) -> (r: Result<u64, OpError>)
    requires
        old(i).wf(),
    ensures
        final(i).wf(),
        borrows_instance(
            *cx,
            *d,
            *v,
            at,
            exclusive,
            *old(i),
            *final(i),
            old(guards)@,
            final(guards)@,
            r,
        ),
{
    match class_rc(cx, i, d, v, at) {
        Err(e) => Err(e),
        Ok(h) => {
            let o: u64 = match v {
                Value::Obj(o) => *o,
                _ => {
                    return Ok(h);
                },
            };
            let ghost before = i.hosts;
            if i.hosts.borrow_value(o, exclusive) {
                proof {
                    crate::embed_convert::host::lemma_release_undoes_borrow(
                        before,
                        i.hosts,
                        Guard { obj: o, exclusive },
                    );
                }
                guards.push(Guard { obj: o, exclusive });
                Ok(h)
            } else {
                let mut what = "is a ".to_owned();
                what.append(d.name.as_str());
                what.append(" already in use by an enclosing call (re-entrant borrow)");
                Err(cx.type_error(at, what.as_str()))
            }
        },
    }
}

} // verus!
