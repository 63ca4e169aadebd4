//! The state of a realm that the embedding interface works on.

use crate::embed_convert::desc::{OpDesc, OpDescView};
use crate::embed_convert::host::{HostEntry, HostObjects};
use crate::eval::promise_fast::{fresh_promises, Promises};
use crate::object::{fresh_function, fresh_object, function_object, Callable, Heap, Object};
use crate::value::Value;
use std::collections::HashMap;
use vstd::prelude::*;

verus! {

broadcast use vstd::std_specs::hash::group_hash_axioms;

/// The registered ops, found by the address of their native entry.
pub struct OpRegistry {
    pub descs: Vec<OpDesc>,
    /// A native entry's descriptor, by its index.
    pub by_fn: HashMap<u64, usize>,
}

/// What a list of descriptors says.
pub open spec fn op_views(ops: Seq<OpDesc>) -> Seq<OpDescView> {
    Seq::new(ops.len(), |i: int| ops[i].deep_view())
}

impl OpRegistry {
    /// Every entry's descriptor is there.
    pub open spec fn wf(self) -> bool {
        forall|f: u64| #[trigger] self.by_fn@.contains_key(f) ==> self.by_fn@[f]
            < self.descs@.len()
    }

    /// The descriptor behind a native entry.
    pub open spec fn op_at(self, native: u64) -> Option<OpDescView> {
        if self.by_fn@.contains_key(native) {
            Some(self.descs@[self.by_fn@[native] as int].deep_view())
        } else {
            None
        }
    }
}

/// A class's constructor and prototype.
#[derive(Clone, Copy, Debug, PartialEq, Eq, Structural)]
pub struct ClassEntry {
    pub ctor: u64,
    pub proto: u64,
    /// The native entry of the constructor.
    pub native: u64,
}

/// A realm.
pub struct Interp {
    pub heap: Heap,
    pub global: u64,
    pub object_proto: u64,
    pub function_proto: u64,
    pub array_proto: u64,
    pub promise_proto: u64,
    pub promises: Promises,
    /// The classes by the identity of their host type.
    pub classes: HashMap<u64, ClassEntry>,
    pub ops: OpRegistry,
    pub hosts: HostObjects,
}

/// A realm that nothing ran in: its objects are the intrinsic prototypes and the global object,
/// and every table is empty.
pub open spec fn fresh_realm(r: Interp) -> bool {
    &&& r.heap.objects@.len() == 5
    &&& r.object_proto == 0
    &&& r.function_proto == 1
    &&& r.array_proto == 2
    &&& r.promise_proto == 3
    &&& r.global == 4
    &&& fresh_object(r.heap.at(r.object_proto), None)
    &&& fresh_object(r.heap.at(r.function_proto), Some(r.object_proto))
    &&& fresh_object(r.heap.at(r.array_proto), Some(r.object_proto))
    &&& fresh_object(r.heap.at(r.promise_proto), Some(r.object_proto))
    &&& fresh_object(r.heap.at(r.global), Some(r.object_proto))
    &&& r.classes@ == Map::<u64, ClassEntry>::empty()
    &&& r.ops.descs@.len() == 0
    &&& r.ops.by_fn@ == Map::<u64, usize>::empty()
    &&& r.hosts.entries@ == Map::<u64, HostEntry>::empty()
    &&& r.hosts.sweep_at == 0
    &&& fresh_promises(r.promises)
}

/// What parsing JSON through the realm takes next.
pub enum JsonStep {
    /// Reading a member.
    Read { of: Value, name: String },
    /// The call that parses; what it comes to is the result.
    Call { callee: Value, this: Value, args: Vec<Value> },
    /// Nothing: a read threw this.
    Throw(Value),
}

impl Interp {
    /// The intrinsics and the classes are objects, and the tables are well formed.
    pub open spec fn wf(self) -> bool {
        &&& self.heap.has(self.global)
        &&& self.heap.has(self.object_proto)
        &&& self.heap.has(self.function_proto)
        &&& self.heap.has(self.array_proto)
        &&& self.heap.has(self.promise_proto)
        &&& self.promises.wf()
        &&& self.ops.wf()
        &&& forall|t: u64| #[trigger]
            self.classes@.contains_key(t) ==> self.class_wf(self.classes@[t])
    }

    /// A class's constructor and prototype are objects, and the constructor is one that runs the
    /// class's native entry.
    pub open spec fn class_wf(self, e: ClassEntry) -> bool {
        &&& self.heap.has(e.ctor)
        &&& self.heap.has(e.proto)
        &&& e.ctor != self.global
        &&& self.heap.at(e.ctor).call == Callable::Native(e.native)
        &&& self.heap.at(e.ctor).is_constructor
    }

    /// Room for `n` more objects.
    pub open spec fn room(self, n: int) -> bool {
        self.heap.objects@.len() + n <= u64::MAX
    }

    /// A realm with its intrinsic prototypes and an empty global object.
    pub fn new() -> (r: Interp)
        ensures
            r.wf(),
            fresh_realm(r),
    {
        let mut heap = Heap::new();
        let object_proto: u64 = heap.add_object(Object::new(None));
        let function_proto: u64 = heap.add_object(Object::new(Some(object_proto)));
        let array_proto: u64 = heap.add_object(Object::new(Some(object_proto)));
        let promise_proto: u64 = heap.add_object(Object::new(Some(object_proto)));
        let global: u64 = heap.add_object(Object::new(Some(object_proto)));
        Interp {
            heap,
            global,
            object_proto,
            function_proto,
            array_proto,
            promise_proto,
            promises: Promises::new(),
            classes: HashMap::new(),
            ops: OpRegistry { descs: Vec::new(), by_fn: HashMap::new() },
            hosts: HostObjects::new(),
        }
    }

    /// Makes a native function.
    pub fn make_native(&mut self, name: &str, length: u32, native: u64) -> (r: u64)
        requires
            old(self).wf(),
            old(self).room(1),
        ensures
            final(self).wf(),
            r == old(self).heap.objects@.len(),
            *final(self) == (Interp { heap: final(self).heap, ..*old(self) }),
            final(self).heap.objects@.len() == r + 1,
            final(self).heap.objects@.take(r as int) == old(self).heap.objects@,
            fresh_function(
                final(self).heap.at(r),
                old(self).function_proto,
                Callable::Native(native),
                length as int,
                name@,
            ),
    {
        let o = function_object(self.function_proto, Callable::Native(native), length, name);
        let r = self.heap.add_object(o);
        assert(self.heap.objects@.take(r as int) =~= old(self).heap.objects@);
        r
    }

    /// The global object.
    pub fn global_object(&self) -> (r: Value)
        ensures
            r == Value::Obj(self.global),
    {
        Value::Obj(self.global)
    }

    /// The next step of `JSON.parse(text)` through the realm's `JSON` object, after what reading
    /// `JSON` and then its `parse` came to, as far as they were read.
    pub fn json_parse(
        &self,
        text: &str,
        json: &Option<Result<Value, Value>>,
        parse: &Option<Result<Value, Value>>,
    ) -> (r: JsonStep)
        ensures
            match (*json, *parse) {
                (None, _) => r matches JsonStep::Read { of, name } && of == Value::Obj(self.global)
                    && name@ == "JSON"@,
                (Some(Err(e)), _) => r == JsonStep::Throw(e),
                (Some(Ok(j)), None) => r matches JsonStep::Read { of, name } && of == j && name@
                    == "parse"@,
                (Some(Ok(_)), Some(Err(e))) => r == JsonStep::Throw(e),
                (Some(Ok(j)), Some(Ok(p))) => r matches JsonStep::Call { callee, this, args }
                    && callee == p && this == j && args@.len() == 1 && (
                args@[0] matches Value::Str(s) && s@ == text@),
            },
    {
        match (json, parse) {
            (None, _) => JsonStep::Read { of: self.global_object(), name: "JSON".to_owned() },
            (Some(Err(e)), _) => JsonStep::Throw(e.duplicate()),
            (Some(Ok(j)), None) => JsonStep::Read { of: j.duplicate(), name: "parse".to_owned() },
            (Some(Ok(_)), Some(Err(e))) => JsonStep::Throw(e.duplicate()),
            (Some(Ok(j)), Some(Ok(p))) => {
                let mut args: Vec<Value> = Vec::new();
                args.push(Value::Str(text.to_owned()));
                JsonStep::Call { callee: p.duplicate(), this: j.duplicate(), args }
            },
        }
    }
}

} // verus!
