//! Calls of generator and async functions whose body compiled: when they are compiled, the flags
//! around their first step, and what the first step of an async body comes to.

use crate::engine::Tier;
use crate::eval::promise_fast::Settle;
use crate::interpreter::call_state::CallFlags;
use crate::object::{lookup, Heap, PropKind, Property};
use crate::value::Value;
use std::collections::{HashMap, HashSet};
use vstd::prelude::*;

verus! {

broadcast use vstd::std_specs::hash::group_hash_axioms;

/// What a call needs to know of a function's code.
pub struct BodyCode {
    /// The calls so far, until its code is decided on.
    pub calls: u32,
    /// Whether it compiled; none until that was tried.
    pub compiled: Option<bool>,
    pub has_loop: bool,
}

/// How a call of a coroutine body is run.
#[derive(Clone, Copy, Debug, PartialEq, Eq, Structural)]
pub enum BodyPlan {
    /// On the tree walker.
    Walk,
    /// The body is to be compiled first.
    Compile,
    /// Compiled.
    Run,
}

impl BodyCode {
    /// How a call is run: on a compiling tier and outside `with`, a body that compiled runs
    /// compiled. A body is compiled once it was called often enough, or at once if it has a loop.
    pub fn plan(&mut self, tier: Tier, under_with: bool, threshold: u32) -> (r: BodyPlan)
        ensures
            ({
                let n = if old(self).calls == u32::MAX {
                    u32::MAX
                } else {
                    (old(self).calls + 1) as u32
                };
                if tier == Tier::Interp || under_with {
                    r == BodyPlan::Walk && *final(self) == *old(self)
                } else {
                    match old(self).compiled {
                        Some(ok) => {
                            &&& r == if ok {
                                BodyPlan::Run
                            } else {
                                BodyPlan::Walk
                            }
                            &&& *final(self) == *old(self)
                        },
                        None => {
                            &&& *final(self) == BodyCode { calls: n, ..*old(self) }
                            &&& r == if n > threshold || old(self).has_loop {
                                BodyPlan::Compile
                            } else {
                                BodyPlan::Walk
                            }
                        },
                    }
                }
            }),
    {
        if tier == Tier::Interp || under_with {
            return BodyPlan::Walk;
        }
        match self.compiled {
            Some(ok) => if ok {
                BodyPlan::Run
            } else {
                BodyPlan::Walk
            },
            None => {
                let n: u32 = if self.calls == u32::MAX {
                    u32::MAX
                } else {
                    self.calls + 1
                };
                self.calls = n;
                if n > threshold || self.has_loop {
                    BodyPlan::Compile
                } else {
                    BodyPlan::Walk
                }
            },
        }
    }

    /// Keeps whether the body compiled, and says how the call goes on.
    pub fn tried(&mut self, ok: bool) -> (r: BodyPlan)
        ensures
            *final(self) == (BodyCode { compiled: Some(ok), ..*old(self) }),
            r == if ok {
                BodyPlan::Run
            } else {
                BodyPlan::Walk
            },
    {
        self.compiled = Some(ok);
        if ok {
            BodyPlan::Run
        } else {
            BodyPlan::Walk
        }
    }
}

/// The markers that a coroutine's first step puts back.
#[derive(Clone, Copy, Debug, PartialEq, Eq, Structural)]
pub struct SavedBody {
    pub strict: bool,
    pub in_field_init_code: bool,
    pub in_async_gen_body: bool,
}

impl CallFlags {
    /// The markers that a coroutine's first step puts back.
    pub open spec fn body_markers(self) -> SavedBody {
        SavedBody {
            strict: self.strict,
            in_field_init_code: self.in_field_init_code,
            in_async_gen_body: self.in_async_gen_body,
        }
    }

    /// The flags with these markers.
    pub open spec fn with_markers(self, m: SavedBody) -> CallFlags {
        CallFlags {
            strict: m.strict,
            in_field_init_code: m.in_field_init_code,
            in_async_gen_body: m.in_async_gen_body,
            ..self
        }
    }

    /// The flags that a generator's prologue runs with.
    pub open spec fn generator_flags(self) -> CallFlags {
        CallFlags { in_field_init_code: false, in_async_gen_body: false, ..self }
    }

    /// The flags that the first step of an async body runs with.
    pub open spec fn async_flags(self, strict: bool, arrow: bool) -> CallFlags {
        CallFlags {
            strict,
            in_field_init_code: arrow && self.in_field_init_code,
            in_async_gen_body: false,
            ..self
        }
    }

    /// A compiled generator's prologue is about to run: the body markers are cleared.
    pub fn enter_generator(&mut self) -> (r: SavedBody)
        ensures
            r == old(self).body_markers(),
            *final(self) == old(self).generator_flags(),
    {
        let saved = SavedBody {
            strict: self.strict,
            in_field_init_code: self.in_field_init_code,
            in_async_gen_body: self.in_async_gen_body,
        };
        self.in_field_init_code = false;
        self.in_async_gen_body = false;
        saved
    }

    /// A compiled async body's first step is about to run: it is strict as the function is, and
    /// an arrow function keeps the marker of field initializers.
    pub fn enter_async(&mut self, strict: bool, arrow: bool) -> (r: SavedBody)
        ensures
            r == old(self).body_markers(),
            *final(self) == old(self).async_flags(strict, arrow),
    {
        let saved = SavedBody {
            strict: self.strict,
            in_field_init_code: self.in_field_init_code,
            in_async_gen_body: self.in_async_gen_body,
        };
        self.strict = strict;
        if !arrow {
            self.in_field_init_code = false;
        }
        self.in_async_gen_body = false;
        saved
    }

    /// The step has run: the markers are put back.
    pub fn leave_body(&mut self, saved: SavedBody)
        ensures
            *final(self) == old(self).with_markers(saved),
    {
        self.strict = saved.strict;
        self.in_field_init_code = saved.in_field_init_code;
        self.in_async_gen_body = saved.in_async_gen_body;
    }
}

/// A body's first step leaves the flags as they were before it, whatever it did to the markers.
pub proof fn lemma_steps_restore_flags(
    before: CallFlags,
    strict: bool,
    arrow: bool,
    left: SavedBody,
)
    ensures
        before.generator_flags().with_markers(left).with_markers(before.body_markers()) == before,
        before.async_flags(strict, arrow).with_markers(left).with_markers(before.body_markers())
            == before,
{
}

/// What a step of a coroutine came to.
pub enum Suspend {
    Await(Value),
    Yield(Value),
    Done(Value),
    Throw(Value),
}

/// What follows the first step of an async body.
pub enum AsyncStart {
    /// The call's result is the value itself: it feeds an `await` at once, and awaiting the
    /// promise of it could not be told from awaiting it.
    Value(Value),
    /// The body is parked at its promise and subscribed to the value.
    Park(Value),
    /// The promise is settled.
    Settle(Settle),
}

/// What follows the first step of an async body whose promise will be `promise`.
pub open spec fn start_of(s: Suspend, fused: bool, silent: bool, promise: Value) -> AsyncStart {
    match s {
        Suspend::Await(v) => AsyncStart::Park(v),
        Suspend::Done(v) => if fused && silent && !(v is Obj) {
            AsyncStart::Value(v)
        } else {
            AsyncStart::Settle(Settle { promise, fulfil: true, value: v })
        },
        Suspend::Yield(v) => AsyncStart::Settle(Settle { promise, fulfil: true, value: v }),
        Suspend::Throw(e) => AsyncStart::Settle(Settle { promise, fulfil: false, value: e }),
    }
}

/// What follows the first step of an async body. `fused`: the call's result feeds an `await`;
/// `silent`: reading `constructor` of a fresh promise runs no code.
pub fn async_start(s: Suspend, fused: bool, silent: bool, promise: Value) -> (r: AsyncStart)
    ensures
        r == start_of(s, fused, silent, promise),
{
    match s {
        Suspend::Await(v) => AsyncStart::Park(v),
        Suspend::Done(v) => {
            let object = match &v {
                Value::Obj(_) => true,
                _ => false,
            };
            if fused && silent && !object {
                AsyncStart::Value(v)
            } else {
                AsyncStart::Settle(Settle { promise, fulfil: true, value: v })
            }
        },
        Suspend::Yield(v) => AsyncStart::Settle(Settle { promise, fulfil: true, value: v }),
        Suspend::Throw(e) => AsyncStart::Settle(Settle { promise, fulfil: false, value: e }),
    }
}

/// What a generator function's own `prototype` holds; none without one.
pub open spec fn own_prototype(p: Option<Property>) -> Option<Value> {
    match p {
        Some(p) => Some(
            match p.kind {
                PropKind::Data(v) => v,
                PropKind::Accessor { .. } => Value::Undefined,
            },
        ),
        None => None,
    }
}

/// What the prototype of a generator's object comes from: the function's own `prototype`.
pub fn generator_proto(heap: &Heap, f: u64) -> (r: Option<Value>)
    requires
        heap.has(f),
    ensures
        r == own_prototype(lookup(heap.at(f).props@, "prototype"@)),
{
    match heap.get(f).props.get("prototype") {
        Some(p) => Some(
            match &p.kind {
                PropKind::Data(v) => v.duplicate(),
                PropKind::Accessor { .. } => Value::Undefined,
            },
        ),
        None => None,
    }
}

/// The suspended bodies of generators by their objects, and which of them are async.
pub struct Generators {
    pub bodies: HashMap<u64, u64>,
    pub async_gens: HashSet<u64>,
}

impl Generators {
    /// No generators.
    pub fn new() -> (r: Generators)
        ensures
            r.bodies@ == Map::<u64, u64>::empty(),
            r.async_gens@ == Set::<u64>::empty(),
    {
        Generators { bodies: HashMap::new(), async_gens: HashSet::new() }
    }

    /// The end of a call of a compiled generator: a prologue that threw ends the call so, else the
    /// generator's object is its result, and its body waits for the first `next`.
    pub fn start(&mut self, body: Result<u64, Value>, object: Value, is_async: bool) -> (r: Result<
        Value,
        Value,
    >)
        ensures
            match body {
                Err(e) => {
                    &&& r == Err::<Value, Value>(e)
                    &&& *final(self) == *old(self)
                },
                Ok(b) => {
                    &&& r == Ok::<Value, Value>(object)
                    &&& final(self).bodies@ == match object {
                        Value::Obj(o) => old(self).bodies@.insert(o, b),
                        _ => old(self).bodies@,
                    }
                    &&& final(self).async_gens@ == match object {
                        Value::Obj(o) if is_async => old(self).async_gens@.insert(o),
                        _ => old(self).async_gens@,
                    }
                },
            },
    {
        match body {
            Err(e) => Err(e),
            Ok(b) => {
                if let Value::Obj(o) = &object {
                    let _ = self.bodies.insert(*o, b);
                    if is_async {
                        let _ = self.async_gens.insert(*o);
                    }
                }
                Ok(object)
            },
        }
    }
}

} // verus!
