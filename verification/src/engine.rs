//! The engine: a realm that persists across scripts, its settings, and what embedders reach.
//!
//! Parsing and running code is the work of others: a script is begun with what the parser gave and
//! ended with what running it gave.

use crate::embed_convert::class::{
    lemma_new_class_has_its_prototype, member_value, prototype_free,
};
use crate::embed_convert::desc::{ClassDesc, OpDesc};
use crate::embed_convert::op_error::new_error;
use crate::eval::promise_fast::{Job, Promises};
use crate::interpreter::interp::{fresh_realm, op_views, Interp};
use crate::interpreter::native_names::ends_with;
use crate::lstr::StrHeap;
use crate::lstr_compact::{clipped, root_total, view_stats, view_total};
use crate::object::{
    fresh_function, lemma_put_reads_back, lookup, only_props_changed, ordinary, put, same_but_props, Callable, Named,
    Object, PropKind, Property,
};
use crate::value::Value;
use vstd::prelude::*;

verus! {

broadcast use vstd::std_specs::hash::group_hash_axioms;

/// The execution tier that calls are considered for.
#[derive(Clone, Copy, Debug, PartialEq, Eq, Structural)]
pub enum Tier {
    /// The tree walker alone.
    Interp,
    /// Functions are compiled once they were called often enough.
    Bytecode,
}

/// A failure to parse.
#[derive(Debug)]
pub struct ParseError {
    pub message: String,
    pub line: u32,
    /// The input ended too soon: more of it may mend the failure.
    pub at_eof: bool,
}

/// The outcome of a script.
#[derive(Debug)]
pub enum Completion {
    /// It ran to its end; the last value, rendered.
    Value(String),
    /// It threw: the name of an Error object, else the empty one, and the message.
    Throw { name: String, message: String },
}

/// What reading a thrown value gave; none for a read that threw or gave `undefined`.
pub struct Thrown {
    pub is_object: bool,
    /// It is an Error object.
    pub is_error: bool,
    /// `code`, where it is a string.
    pub code: Option<String>,
    /// `stack`, where it is a string.
    pub stack: Option<String>,
    pub name: Option<String>,
    /// The constructor's name, where the constructor is an object.
    pub ctor_name: Option<String>,
    pub message: Option<String>,
    /// The value itself, rendered.
    pub rendered: String,
}

/// An engine.
pub struct Engine {
    pub interp: Interp,
    /// The code that runs is strict.
    pub strict: bool,
    /// The agent may block in `Atomics.wait`.
    pub can_block: bool,
    pub tier: Tier,
    pub tier_threshold: u32,
    pub live_limit: i64,
    pub gc_next: i64,
    /// The fewest and the most live objects that a limit may be.
    pub gc_trigger: i64,
    pub max_live: i64,
    pub terminating: bool,
    pub heap_limit: bool,
    pub console: Vec<String>,
    pub import_base: String,
    pub strings: StrHeap,
    /// What resolves the modules that are imported.
    pub module_loader: Option<Loader>,
    /// The flag by which the realm can be stopped from elsewhere.
    pub interrupt: Option<u64>,
    /// The channels to the other agents.
    pub agent: Option<u64>,
}

/// A module loader of the embedder.
#[derive(Clone, Copy, Debug, PartialEq, Eq, Structural)]
pub struct Loader {
    pub id: u64,
    /// It is told the `type` attribute of an import.
    pub attrs: bool,
}

/// The suffix of the codes of TypeScript syntax errors.
pub const TS_SUFFIX: &'static str = "_TYPESCRIPT_SYNTAX";

/// Whether a thrown value is a rejected TypeScript source, which is reported by its stack and
/// code.
pub open spec fn ts_rejected(t: Thrown) -> bool {
    t.is_object && t.stack is Some && (t.code matches Some(c) && ends_with(c@, TS_SUFFIX@))
}

/// A text, or the empty one.
pub open spec fn or_empty(s: Option<String>) -> Seq<char> {
    match s {
        Some(t) => t@,
        None => Seq::empty(),
    }
}

/// The name of a thrown value: that of an Error object (its own or inherited one, else its
/// constructor's); any other value has none.
pub open spec fn thrown_name(t: Thrown) -> Seq<char> {
    if !t.is_error {
        Seq::empty()
    } else {
        match t.name {
            Some(n) => n@,
            None => or_empty(t.ctor_name),
        }
    }
}

/// The message of a thrown value: that of an object, else the value itself.
pub open spec fn thrown_message(t: Thrown) -> Seq<char> {
    if t.is_object {
        or_empty(t.message)
    } else {
        t.rendered@
    }
}

fn unwrap_text(s: Option<String>) -> (r: String)
    ensures
        r@ == or_empty(s),
{
    match s {
        Some(t) => t,
        None => String::new(),
    }
}

fn has_suffix(s: &str, p: &str) -> (r: bool)
    ensures
        r == ends_with(s@, p@),
{
    let a = crate::text::chars_of(s);
    let b = crate::text::chars_of(p);
    if b.len() > a.len() {
        return false;
    }
    let n: usize = a.len();
    let off: usize = n - b.len();
    let mut i: usize = 0;
    let ghost tail = s@.skip(off as int);
    while i < b.len()
        invariant
            i <= b@.len() <= n,
            n == a@.len(),
            off == n - b@.len(),
            a@ == s@,
            b@ == p@,
            tail == s@.skip(off as int),
            forall|j: int| 0 <= j < i ==> tail[j] == b@[j],
        decreases b@.len() - i,
    {
        assert(tail[i as int] == a@[off + i]);
        if a[off + i] != b[i] {
            return false;
        }
        i = i + 1;
    }
    assert(tail =~= p@);
    true
}

/// The stack and code of a rejected TypeScript source, from which its report is made.
pub fn ts_uncaught(t: &Thrown) -> (r: Option<(String, String)>)
    ensures
        if ts_rejected(*t) {
            r matches Some((s, c)) && s@ == (t.stack->0)@ && c@ == (t.code->0)@
        } else {
            r is None
        },
{
    if !t.is_object {
        return None;
    }
    match (&t.code, &t.stack) {
        (Some(c), Some(s)) => if has_suffix(c.as_str(), TS_SUFFIX) {
            Some((s.clone(), c.clone()))
        } else {
            None
        },
        _ => None,
    }
}

/// Describes a thrown value. `report` is that of a rejected TypeScript source, which has no name.
pub fn describe_throw(t: Thrown, report: Option<String>) -> (r: Completion)
    ensures
        r matches Completion::Throw { name, message } && match report {
            Some(text) => name@.len() == 0 && message@ == text@,
            None => name@ == thrown_name(t) && message@ == thrown_message(t),
        },
{
    if let Some(text) = report {
        return Completion::Throw { name: String::new(), message: text };
    }
    let Thrown { is_object, is_error, code, stack, name, ctor_name, message, rendered } = t;
    let name = if !is_error {
        String::new()
    } else {
        match name {
            Some(n) => n,
            None => unwrap_text(ctor_name),
        }
    };
    let message = if is_object {
        unwrap_text(message)
    } else {
        rendered
    };
    Completion::Throw { name, message }
}

/// The ends of a range.
pub open spec fn clamped(v: i64, lo: i64, hi: i64) -> i64 {
    if v < lo {
        lo
    } else if v > hi {
        hi
    } else {
        v
    }
}

impl Engine {
    /// The realm is well formed, and its limits are in order.
    pub open spec fn wf(self) -> bool {
        self.interp.wf() && self.limits_wf()
    }

    pub open spec fn limits_wf(self) -> bool {
        self.gc_trigger <= self.max_live
    }

    /// The realm with another live-object limit: it is kept within its range, and the next
    /// collection comes no later.
    pub open spec fn with_limit(self, limit: i64) -> Engine {
        let l = clamped(limit, self.gc_trigger, self.max_live);
        Engine {
            live_limit: l,
            gc_next: if self.gc_next < l {
                self.gc_next
            } else {
                l
            },
            ..self
        }
    }

    /// A fresh realm, with the range of live-object limits.
    pub fn new(gc_trigger: i64, max_live: i64) -> (r: Engine)
        requires
            gc_trigger <= max_live,
        ensures
            r.wf(),
            fresh_realm(r.interp),
            !r.strict,
            !r.can_block,
            r.tier == Tier::Bytecode,
            r.tier_threshold == 0,
            r.live_limit == max_live,
            r.gc_next == gc_trigger,
            r.gc_trigger == gc_trigger,
            r.max_live == max_live,
            !r.terminating,
            !r.heap_limit,
            r.console@.len() == 0,
            r.import_base@.len() == 0,
            r.strings.wf(),
            r.strings.cells@.len() == 0,
            r.module_loader is None,
            r.interrupt is None,
            r.agent is None,
    {
        Engine {
            interp: Interp::new(),
            strict: false,
            can_block: false,
            tier: Tier::Bytecode,
            tier_threshold: 0,
            live_limit: max_live,
            gc_next: gc_trigger,
            gc_trigger,
            max_live,
            terminating: false,
            heap_limit: false,
            console: Vec::new(),
            import_base: String::new(),
            strings: StrHeap::new(),
            module_loader: None,
            interrupt: None,
            agent: None,
        }
    }

    /// Whether this agent may block in `Atomics.wait`.
    pub fn set_can_block(&mut self, b: bool)
        ensures
            *final(self) == (Engine { can_block: b, ..*old(self) }),
    {
        self.can_block = b;
    }

    /// Selects the execution tier.
    pub fn set_tier(&mut self, tier: Tier)
        ensures
            *final(self) == (Engine { tier, ..*old(self) }),
    {
        self.tier = tier;
    }

    /// The execution tier.
    pub fn tier(&self) -> (r: Tier)
        ensures
            r == self.tier,
    {
        self.tier
    }

    /// The calls before a function is considered for compilation.
    pub fn set_tier_threshold(&mut self, threshold: u32)
        ensures
            *final(self) == (Engine { tier_threshold: threshold, ..*old(self) }),
    {
        self.tier_threshold = threshold;
    }

    /// Lowers the live-object limit, within its range; the next collection comes no later.
    pub fn set_live_object_limit(&mut self, limit: i64)
        requires
            old(self).limits_wf(),
        ensures
            final(self).limits_wf(),
            *final(self) == old(self).with_limit(limit),
    {
        let l: i64 = if limit < self.gc_trigger {
            self.gc_trigger
        } else if limit > self.max_live {
            self.max_live
        } else {
            limit
        };
        self.live_limit = l;
        if self.gc_next >= l {
            self.gc_next = l;
        }
    }

    /// Whether the realm was terminated.
    pub fn is_terminated(&self) -> (r: bool)
        ensures
            r == self.terminating,
    {
        self.terminating
    }

    /// Whether the live-object limit terminated it.
    pub fn heap_limit_hit(&self) -> (r: bool)
        ensures
            r == self.heap_limit,
    {
        self.heap_limit
    }

    /// The live objects crossed the limit. With an interrupt the realm is terminated; without
    /// one the caller throws a `RangeError`, and this says so.
    pub fn cross_limit(&mut self) -> (throws: bool)
        ensures
            throws == (old(self).interrupt is None),
            *final(self) == if throws {
                *old(self)
            } else {
                Engine { terminating: true, heap_limit: true, ..*old(self) }
            },
    {
        if self.interrupt.is_none() {
            return true;
        }
        self.terminating = true;
        self.heap_limit = true;
        false
    }

    /// Adds a line to the console.
    pub fn log(&mut self, line: String)
        ensures
            final(self).console@ == old(self).console@.push(line),
            *final(self) == (Engine { console: final(self).console, ..*old(self) }),
    {
        self.console.push(line);
    }

    /// Takes what was written to the console since the last call.
    pub fn take_console(&mut self) -> (r: Vec<String>)
        ensures
            r@ == old(self).console@,
            final(self).console@.len() == 0,
            *final(self) == (Engine { console: final(self).console, ..*old(self) }),
    {
        let mut out: Vec<String> = Vec::new();
        std::mem::swap(&mut out, &mut self.console);
        out
    }

    /// The referrer of a bare `import()` in script code.
    pub fn set_import_base(&mut self, base: &str)
        ensures
            final(self).import_base@ == base@,
            *final(self) == (Engine { import_base: final(self).import_base, ..*old(self) }),
    {
        self.import_base = base.to_owned();
    }

    /// The context that native functions receive.
    pub fn ctx(&mut self) -> (r: &mut Interp)
        ensures
            *r == old(self).interp,
            *final(self) == (Engine { interp: *final(r), ..*old(self) }),
    {
        &mut self.interp
    }

    /// The global object.
    pub fn global_this(&self) -> (r: Value)
        ensures
            r == Value::Obj(self.interp.global),
    {
        Value::Obj(self.interp.global)
    }

    /// Defines a global as a native function.
    pub fn define_global(&mut self, name: &str, length: u32, native: u64)
        requires
            old(self).wf(),
            old(self).interp.room(1),
        ensures
            final(self).wf(),
            ({
                let n = old(self).interp.heap.objects@.len() as u64;
                &&& fresh_function(
                    final(self).interp.heap.at(n),
                    old(self).interp.function_proto,
                    Callable::Native(native),
                    length as int,
                    name@,
                )
                &&& global_set(*old(self), *final(self), 1, name@, Value::Obj(n))
                &&& final(self).interp.ops == old(self).interp.ops
            }),
    {
        let f = self.interp.make_native(name, length, native);
        let ghost mid = *self;
        let g = self.interp.global;
        self.interp.heap.set_prop(g, name, Property::builtin(Value::Obj(f)));
        proof {
            lemma_global_set(*old(self), mid, *self, 1, name@, Value::Obj(f));
        }
    }

    /// Defines a global from an op descriptor.
    pub fn define_op(&mut self, op: &OpDesc)
        requires
            old(self).wf(),
            old(self).interp.room(1),
        ensures
            final(self).wf(),
            ({
                let n = old(self).interp.heap.objects@.len() as u64;
                &&& fresh_function(
                    final(self).interp.heap.at(n),
                    old(self).interp.function_proto,
                    Callable::Native(op.native),
                    op.arity as int,
                    op.name@,
                )
                &&& global_set(*old(self), *final(self), 1, op.name@, Value::Obj(n))
                &&& final(self).interp.spec_op_of(Value::Obj(n)) == Some(op.deep_view())
                &&& op_views(final(self).interp.ops.descs@) == op_views(
                    old(self).interp.ops.descs@,
                ).push(op.deep_view())
                &&& final(self).interp.ops.by_fn@ == old(self).interp.ops.by_fn@.insert(
                    op.native,
                    old(self).interp.ops.descs@.len() as usize,
                )
            }),
    {
        let f = self.interp.op_function(op);
        let ghost mid = *self;
        let g = self.interp.global;
        let ghost v = f;
        self.interp.heap.set_prop(g, op.name.as_str(), Property::builtin(f));
        proof {
            lemma_global_set(*old(self), mid, *self, 1, op.name@, v);
        }
    }

    /// A class is known and its constructor is a global.
    pub open spec fn class_defined(self, mid: Interp, before: Engine, d: ClassDesc) -> bool {
        let g = before.interp.global;
        &&& mid.class_is_known(before.interp, d)
        &&& mid.classes@.contains_key(d.type_id)
        &&& self == (Engine { interp: Interp { heap: self.interp.heap, ..mid }, ..before })
        &&& only_props_changed(
            mid.heap,
            self.interp.heap,
            g,
            put(
                mid.heap.at(g).props@,
                d.name@,
                Property::spec_data(Value::Obj(mid.classes@[d.type_id].ctor), true, false, true),
            ),
        )
    }

    /// Defines a global as the constructor of a class, which is made unless there is one.
    pub fn define_class(&mut self, d: &ClassDesc)
        requires
            old(self).wf(),
            old(self).interp.room(2 + d.members@.len() as int),
        ensures
            final(self).wf(),
            exists|mid: Interp| #[trigger] final(self).class_defined(mid, *old(self), *d),
    {
        let c = self.interp.class_constructor(d);
        let g = self.interp.global;
        let ghost mid = self.interp;
        self.interp.heap.set_prop(g, d.name.as_str(), Property::builtin(c));
        assert(self.class_defined(mid, *old(self), *d));
    }

    /// Once a class without a constructor is defined, whether it is made by that or was before, the
    /// global of its name is the object that `class_constructor` gives, and running it, with `new`
    /// or without, throws a TypeError, "Illegal constructor".
    pub proof fn lemma_class_without_constructor(
        before: Engine,
        mid: Interp,
        after: Engine,
        d: ClassDesc,
    )
        requires
            before.wf(),
            after.wf(),
            before.interp.describes(d),
            d.constructor is None,
            after.class_defined(mid, before, d),
        ensures
            ({
                let c = Value::Obj(after.interp.classes@[d.type_id].ctor);
                &&& lookup(after.interp.heap.at(after.interp.global).props@, d.name@) == Some(
                    Property::spec_data(c, true, false, true),
                )
                &&& forall|k: Interp| #[trigger]
                    k.class_is_known(after.interp, d) ==> Value::Obj(k.classes@[d.type_id].ctor)
                        == c
                &&& after.interp.refusal(c) == Some(
                    new_error("TypeError"@, "Illegal constructor"@),
                )
                &&& after.interp.heap.at(after.interp.classes@[d.type_id].ctor).is_constructor
            }),
    {
        lemma_put_reads_back(
            mid.heap.at(mid.global).props@,
            d.name@,
            Property::spec_data(Value::Obj(mid.classes@[d.type_id].ctor), true, false, true),
            d.name@,
        );
    }

    /// Once a class is defined, a new instance of it has the `prototype` of its constructor as its
    /// prototype. This fails where something took the constructor's `prototype`: a static member of
    /// that name, or a write after the class was made.
    pub proof fn lemma_instances_have_the_prototype(
        before: Engine,
        mid: Interp,
        after: Engine,
        made: Interp,
        known: Interp,
        d: ClassDesc,
        handle: u64,
        alive: Set<u64>,
    )
        requires
            before.wf(),
            after.wf(),
            before.interp.room(2 + d.members@.len() as int),
            after.class_defined(mid, before, d),
            if before.interp.classes@.contains_key(d.type_id) {
                before.interp.prototype_stands(d.type_id)
            } else {
                prototype_free(d)
            },
            made.instance_made(known, after.interp, d, handle, alive),
        ensures
            ({
                let e = after.interp.classes@[d.type_id];
                &&& lookup(after.interp.heap.at(e.ctor).props@, "prototype"@) == Some(
                    Property::spec_data(Value::Obj(e.proto), false, false, false),
                )
                &&& lookup(made.heap.at(e.ctor).props@, "prototype"@) == Some(
                    Property::spec_data(Value::Obj(e.proto), false, false, false),
                )
                &&& made.heap.objects@.last().proto == Some(e.proto)
            }),
    {
        let e = after.interp.classes@[d.type_id];
        if !before.interp.classes@.contains_key(d.type_id) {
            lemma_new_class_has_its_prototype(before.interp, mid, d);
        }
        assert(after.interp.class_wf(e));
        assert(after.interp.heap.at(e.ctor) == mid.heap.at(e.ctor));
        assert(made.heap.objects@.drop_last()[e.ctor as int] == made.heap.at(e.ctor));
    }

    /// The object that the global holds under a name. An own data property says it; where there is
    /// none, it is what reading the name came to.
    pub open spec fn held_object(self, name: Seq<char>, read: Option<u64>) -> Option<u64> {
        match lookup(self.interp.heap.at(self.interp.global).props@, name) {
            Some(p) => match p.kind {
                PropKind::Data(Value::Obj(o)) => Some(o),
                PropKind::Data(_) => None,
                PropKind::Accessor { .. } => read,
            },
            None => read,
        }
    }

    fn object_held(&self, name: &str, read: Option<u64>) -> (r: Option<u64>)
        requires
            self.wf(),
        ensures
            r == self.held_object(name@, read),
    {
        match self.interp.heap.get(self.interp.global).props.get(name) {
            Some(p) => match &p.kind {
                PropKind::Data(v) => match v {
                    Value::Obj(o) => Some(*o),
                    _ => None,
                },
                PropKind::Accessor { .. } => read,
            },
            None => read,
        }
    }

    /// Defines ops on a global namespace object, which is made unless there is one. `read` is the
    /// object that reading the name from the global came to, if it came to one; it is only looked
    /// at where the global has no own data property of that name, which says it else.
    pub fn define_ops(&mut self, namespace: &str, read: Option<u64>, ops: &Vec<OpDesc>)
        requires
            old(self).wf(),
            old(self).interp.room(1 + ops@.len() as int),
            old(self).held_object(namespace@, read) matches Some(o) ==> old(self).interp.heap.has(o),
        ensures
            final(self).wf(),
            final(self).same_but_objects(*old(self)),
            ({
                let h0 = old(self).interp.heap;
                let h = final(self).interp.heap;
                let g = old(self).interp.global;
                let n = h0.objects@.len() as int;
                let existing = old(self).held_object(namespace@, read);
                let ns = namespace_at(existing, n);
                let first = ops_from(existing, n);
                let base = match existing {
                    Some(o) => h0.at(o).props@,
                    None => Seq::empty(),
                };
                &&& h.objects@.len() == first + ops@.len()
                &&& h.at(ns).props@ == with_op_props(base, ops@, first)
                &&& forall|i: int|
                    0 <= i < ops@.len() ==> fresh_function(
                        #[trigger] h.objects@[first + i],
                        old(self).interp.function_proto,
                        Callable::Native(ops@[i].native),
                        ops@[i].arity as int,
                        ops@[i].name@,
                    )
                &&& existing is Some ==> same_but_props(h.at(ns), h0.at(ns))
                &&& existing is None ==> {
                    &&& ordinary(h.at(ns), Some(old(self).interp.object_proto))
                    &&& same_but_props(h.at(g), h0.at(g))
                    &&& h.at(g).props@ == put(
                        h0.at(g).props@,
                        namespace@,
                        Property::spec_data(Value::Obj(ns), true, false, true),
                    )
                }
                &&& forall|i: int|
                    0 <= i < n && i != ns && (existing is Some || i != g)
                        ==> #[trigger] h.objects@[i] == h0.objects@[i]
            }),
            op_views(final(self).interp.ops.descs@) == op_views(old(self).interp.ops.descs@)
                + op_views(ops@),
            final(self).interp.ops.by_fn@ == with_op_fns(
                old(self).interp.ops.by_fn@,
                ops@,
                old(self).interp.ops.descs@.len() as int,
            ),
    {
        let g = self.interp.global;
        let existing = self.object_held(namespace, read);
        let ghost h0 = self.interp.heap;
        let ghost n = self.interp.heap.objects@.len() as int;
        let ns: u64 = match existing {
            Some(o) => o,
            None => {
                let proto = self.interp.object_proto;
                let o = self.interp.heap.add_object(Object::new(Some(proto)));
                self.interp.heap.set_prop(g, namespace, Property::builtin(Value::Obj(o)));
                o
            },
        };
        let ghost base = self.interp.heap.at(ns).props@;
        let ghost first = self.interp.heap.objects@.len() as int;
        let ghost h1 = self.interp.heap;
        let ghost d0 = op_views(self.interp.ops.descs@);
        let mut i: usize = 0;
        proof {
            assert(ops@.take(0) =~= Seq::<OpDesc>::empty());
            assert(d0 + op_views(ops@.take(0)) =~= d0);
        }
        while i < ops.len()
            invariant
                self.wf(),
                i <= ops@.len(),
                self.same_but_objects(*old(self)),
                g == old(self).interp.global,
                g < n <= first,
                ns < first,
                first == h1.objects@.len(),
                first + ops@.len() <= u64::MAX,
                self.interp.heap.objects@.len() == first + i,
                self.interp.heap.at(ns).props@ == with_op_props(base, ops@.take(i as int), first),
                same_but_props(self.interp.heap.at(ns), h1.at(ns)),
                self.interp.ops.by_fn@ == with_op_fns(
                    old(self).interp.ops.by_fn@,
                    ops@.take(i as int),
                    d0.len() as int,
                ),
                d0 == op_views(old(self).interp.ops.descs@),
                d0.len() == old(self).interp.ops.descs@.len(),
                op_views(self.interp.ops.descs@) == d0 + op_views(ops@.take(i as int)),
                forall|k: int|
                    0 <= k < first && k != ns ==> #[trigger] self.interp.heap.objects@[k]
                        == h1.objects@[k],
                forall|k: int|
                    0 <= k < i ==> fresh_function(
                        #[trigger] self.interp.heap.objects@[first + k],
                        old(self).interp.function_proto,
                        Callable::Native(ops@[k].native),
                        ops@[k].arity as int,
                        ops@[k].name@,
                    ),
            decreases ops@.len() - i,
        {
            let op = &ops[i];
            let ghost before = self.interp.heap;
            proof {
                assert(op_views(self.interp.ops.descs@).len() == self.interp.ops.descs@.len());
                assert(op_views(ops@.take(i as int)).len() == i);
            }
            let f = self.interp.op_function(op);
            let ghost mid = self.interp.heap;
            proof {
                assert(ops@.take(i + 1).drop_last() =~= ops@.take(i as int));
                assert((d0 + op_views(ops@.take(i as int))).push(op.deep_view()) =~= d0
                    + op_views(ops@.take(i + 1)));
                assert forall|k: int| 0 <= k < first + i implies #[trigger] mid.objects@[k]
                    == before.objects@[k] by {
                    assert(mid.objects@.take(first + i)[k] == before.objects@[k]);
                }
            }
            self.interp.heap.set_prop(ns, op.name.as_str(), Property::builtin(f));
            proof {
                assert forall|k: int| 0 <= k < i + 1 implies fresh_function(
                    #[trigger] self.interp.heap.objects@[first + k],
                    old(self).interp.function_proto,
                    Callable::Native(ops@[k].native),
                    ops@[k].arity as int,
                    ops@[k].name@,
                ) by {
                    assert(self.interp.heap.objects@[first + k] == mid.objects@[first + k]);
                    if k < i {
                        assert(mid.objects@[first + k] == before.objects@[first + k]);
                    }
                }
            }
            i = i + 1;
        }
        assert(ops@.take(i as int) =~= ops@);
    }

    /// The strings that have views, the views, and the bytes of the former.
    pub fn string_view_stats(&self) -> (r: (usize, usize, usize))
        requires
            self.strings.wf(),
        ensures
            r.0 == root_total(self.strings.cells@, self.strings.cells@.len()).0,
            r.1 == view_total(self.strings.cells@),
            r.2 == clipped(root_total(self.strings.cells@, self.strings.cells@.len()).1 as int),
    {
        view_stats(&self.strings)
    }

    /// Whether jobs are queued.
    pub fn has_pending_jobs(&self) -> (r: bool)
        ensures
            r == (self.interp.promises.microtasks@.len() > 0),
    {
        self.interp.promises.microtasks.len() > 0
    }

    /// Takes the next queued job, which is to be run; none when the queue is empty.
    pub fn run_one_job(&mut self) -> (r: Option<Job>)
        ensures
            ({
                let q = old(self).interp.promises.microtasks@;
                if q.len() == 0 {
                    r is None && final(self).interp.promises.microtasks@ == q
                } else {
                    r == Some(q[0]) && final(self).interp.promises.microtasks@ == q.drop_first()
                }
            }),
            final(self).same_but_jobs(*old(self)),
    {
        if self.interp.promises.microtasks.len() == 0 {
            return None;
        }
        let job = self.interp.promises.microtasks.remove(0);
        assert(self.interp.promises.microtasks@ =~= old(
            self).interp.promises.microtasks@.drop_first());
        Some(job)
    }

    /// Takes the promises that were rejected without a handler, each with its reason.
    pub fn take_unhandled_rejections_full(&mut self) -> (r: Vec<(Value, Value)>)
        requires
            old(self).interp.promises.wf(),
        ensures
            final(self).interp.promises.unhandled@.len() == 0,
            final(self).same_but_unhandled(*old(self)),
            r@.len() == old(self).interp.promises.unhandled@.len(),
            forall|i: int|
                0 <= i < r@.len() ==> #[trigger] r@[i] == (
                    Value::Obj(old(self).interp.promises.unhandled@[i]),
                    reason_of(old(self).interp, old(self).interp.promises.unhandled@[i]),
                ),
    {
        let mut out: Vec<(Value, Value)> = Vec::new();
        let mut i: usize = 0;
        while i < self.interp.promises.unhandled.len()
            invariant
                *self == *old(self),
                i <= self.interp.promises.unhandled@.len(),
                out@.len() == i,
                forall|j: int|
                    0 <= j < i ==> #[trigger] out@[j] == (
                        Value::Obj(self.interp.promises.unhandled@[j]),
                        reason_of(self.interp, self.interp.promises.unhandled@[j]),
                    ),
            decreases self.interp.promises.unhandled@.len() - i,
        {
            let p: u64 = self.interp.promises.unhandled[i];
            let reason = match self.interp.promises.slots.get(&p) {
                Some(s) => s.value.duplicate(),
                None => Value::Undefined,
            };
            out.push((Value::Obj(p), reason));
            i = i + 1;
        }
        self.interp.promises.unhandled = Vec::new();
        out
    }

    /// Takes the reasons of the promises that were rejected without a handler.
    pub fn take_unhandled_rejections(&mut self) -> (r: Vec<Value>)
        requires
            old(self).interp.promises.wf(),
        ensures
            final(self).interp.promises.unhandled@.len() == 0,
            final(self).same_but_unhandled(*old(self)),
            r@.len() == old(self).interp.promises.unhandled@.len(),
            forall|i: int|
                0 <= i < r@.len() ==> #[trigger] r@[i] == reason_of(
                    old(self).interp,
                    old(self).interp.promises.unhandled@[i],
                ),
    {
        let pairs = self.take_unhandled_rejections_full();
        let mut out: Vec<Value> = Vec::new();
        let mut i: usize = 0;
        while i < pairs.len()
            invariant
                i <= pairs@.len(),
                out@.len() == i,
                forall|j: int| 0 <= j < i ==> #[trigger] out@[j] == pairs@[j].1,
            decreases pairs@.len() - i,
        {
            out.push(pairs[i].1.duplicate());
            i = i + 1;
        }
        assert forall|i: int| 0 <= i < out@.len() implies #[trigger] out@[i] == reason_of(
            old(self).interp,
            old(self).interp.promises.unhandled@[i],
        ) by {
            assert(pairs@[i].1 == reason_of(
                old(self).interp,
                old(self).interp.promises.unhandled@[i],
            ));
        }
        out
    }
}

/// The reason of a rejected promise.
pub open spec fn reason_of(i: Interp, p: u64) -> Value {
    if i.promises.slots@.contains_key(p) {
        i.promises.slots@[p].value
    } else {
        Value::Undefined
    }
}

/// The namespace object: the one there is, or the next object.
pub open spec fn namespace_at(existing: Option<u64>, n: int) -> u64 {
    match existing {
        Some(o) => o,
        None => n as u64,
    }
}

/// Where the functions of ops start, after the namespace object if it is new.
pub open spec fn ops_from(existing: Option<u64>, n: int) -> int {
    match existing {
        Some(_) => n,
        None => n + 1,
    }
}

/// Properties with a function for each op put in; the functions start at the object `first`.
pub open spec fn with_op_props(base: Named, ops: Seq<OpDesc>, first: int) -> Named
    decreases ops.len(),
{
    if ops.len() == 0 {
        base
    } else {
        put(
            with_op_props(base, ops.drop_last(), first),
            ops.last().name@,
            Property::spec_data(member_value(first, ops.len() - 1), true, false, true),
        )
    }
}

/// A global property is set, `made` objects after those there were.
pub open spec fn global_set(
    before: Engine,
    after: Engine,
    made: int,
    name: Seq<char>,
    v: Value,
) -> bool {
    let g = before.interp.global;
    let n = before.interp.heap.objects@.len() as int;
    &&& after.same_but_objects(before)
    &&& after.interp.heap.objects@.len() == n + made
    &&& forall|i: int|
        0 <= i < n && i != g ==> #[trigger] after.interp.heap.objects@[i]
            == before.interp.heap.objects@[i]
    &&& same_but_props(after.interp.heap.at(g), before.interp.heap.at(g))
    &&& after.interp.heap.at(g).props@ == put(
        before.interp.heap.at(g).props@,
        name,
        Property::spec_data(v, true, false, true),
    )
}

impl Engine {
    /// Everything but the queued jobs is the same.
    pub open spec fn same_but_jobs(self, before: Engine) -> bool {
        self == (Engine {
            interp: Interp {
                promises: Promises {
                    microtasks: self.interp.promises.microtasks,
                    ..before.interp.promises
                },
                ..before.interp
            },
            ..before
        })
    }

    /// Everything but the list of unhandled rejections is the same.
    pub open spec fn same_but_unhandled(self, before: Engine) -> bool {
        self == (Engine {
            interp: Interp {
                promises: Promises {
                    unhandled: self.interp.promises.unhandled,
                    ..before.interp.promises
                },
                ..before.interp
            },
            ..before
        })
    }

    /// Everything but the objects and the registered ops is the same.
    pub open spec fn same_but_objects(self, before: Engine) -> bool {
        &&& self == (Engine { interp: self.interp, ..before })
        &&& self.interp == (Interp {
            heap: self.interp.heap,
            ops: self.interp.ops,
            ..before.interp
        })
    }
}

/// The registered ops after a list of ops was registered, the first as number `first`.
pub open spec fn with_op_fns(by_fn: Map<u64, usize>, ops: Seq<OpDesc>, first: int) -> Map<
    u64,
    usize,
>
    decreases ops.len(),
{
    if ops.len() == 0 {
        by_fn
    } else {
        with_op_fns(by_fn, ops.drop_last(), first).insert(
            ops.last().native,
            (first + ops.len() - 1) as usize,
        )
    }
}

proof fn lemma_global_set(
    before: Engine,
    mid: Engine,
    after: Engine,
    made: int,
    name: Seq<char>,
    v: Value,
)
    requires
        before.interp.heap.has(before.interp.global),
        after.same_but_objects(before),
        made >= 0,
        mid.interp.heap.objects@.len() == before.interp.heap.objects@.len() + made,
        mid.interp.heap.objects@.take(before.interp.heap.objects@.len() as int)
            == before.interp.heap.objects@,
        only_props_changed(
            mid.interp.heap,
            after.interp.heap,
            before.interp.global,
            put(
                mid.interp.heap.at(before.interp.global).props@,
                name,
                Property::spec_data(v, true, false, true),
            ),
        ),
    ensures
        global_set(before, after, made, name, v),
{
    let n = before.interp.heap.objects@.len() as int;
    let g = before.interp.global as int;
    assert(mid.interp.heap.objects@.take(n)[g] == before.interp.heap.objects@[g]);
    assert forall|i: int| 0 <= i < n && i != g implies #[trigger] after.interp.heap.objects@[i]
        == before.interp.heap.objects@[i] by {
        assert(mid.interp.heap.objects@.take(n)[i] == before.interp.heap.objects@[i]);
    }
}

/// What a precompiled unit is.
#[derive(Clone, Copy, Debug, PartialEq, Eq, Structural)]
pub enum SourceKind {
    Script,
    Module,
}

/// The hooks that a process installs; of each the first one stays.
pub struct HostHooks {
    pub clock: Option<u64>,
    pub wasm_jit: Option<u64>,
}

impl HostHooks {
    /// No hooks.
    pub fn new() -> (r: HostHooks)
        ensures
            r.clock is None,
            r.wasm_jit is None,
    {
        HostHooks { clock: None, wasm_jit: None }
    }

    /// Installs a wall-clock source, unless there is one.
    pub fn set_host_clock(&mut self, f: u64)
        ensures
            *final(self) == (HostHooks {
                clock: if old(self).clock is Some {
                    old(self).clock
                } else {
                    Some(f)
                },
                ..*old(self)
            }),
    {
        if self.clock.is_none() {
            self.clock = Some(f);
        }
    }

    /// Installs the WebAssembly host, unless there is one.
    pub fn set_wasm_jit_host(&mut self, f: u64)
        ensures
            *final(self) == (HostHooks {
                wasm_jit: if old(self).wasm_jit is Some {
                    old(self).wasm_jit
                } else {
                    Some(f)
                },
                ..*old(self)
            }),
    {
        if self.wasm_jit.is_none() {
            self.wasm_jit = Some(f);
        }
    }
}

/// A limit that is set is within its range, is the one asked for where that is in range, and is
/// not passed before the next collection.
pub proof fn lemma_limits_stay_in_range(e: Engine, limit: i64)
    requires
        e.limits_wf(),
    ensures
        e.gc_trigger <= e.with_limit(limit).live_limit <= e.max_live,
        e.gc_trigger <= limit <= e.max_live ==> e.with_limit(limit).live_limit == limit,
        e.with_limit(limit).gc_next <= e.with_limit(limit).live_limit,
        e.with_limit(limit).gc_next <= e.gc_next,
        e.with_limit(limit).with_limit(limit) == e.with_limit(limit),
{
}

/// Jobs run in the order in which they were queued.
pub proof fn lemma_jobs_run_in_order(q: Seq<Job>, j: Job)
    requires
        q.len() > 0,
    ensures
        q.push(j).drop_first() == q.drop_first().push(j),
        q.push(j)[0] == q[0],
{
    assert(q.push(j).drop_first() =~= q.drop_first().push(j));
}

} // verus!
