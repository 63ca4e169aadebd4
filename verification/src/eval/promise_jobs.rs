//! Resolving functions, combinators and `await` over the promises.

use crate::eval::promise_fast::{
    handled, reacts, Job, JobKind, PromiseSlot, Promises, React, Reaction,
    ResolverCell, Settle, Status,
};
use crate::object::{
    data_of, fresh_function, function_object, lookup, put, Callable, Heap, Object, Property,
};
use crate::value::Value;
use vstd::prelude::*;

verus! {

broadcast use vstd::std_specs::hash::group_hash_axioms;

/// A resolving function over a cell: its `length` is 1, its `name` empty.
pub open spec fn is_resolver(o: Object, proto: u64, cell: usize, fulfil: bool) -> bool {
    fresh_function(o, proto, Callable::Resolver(cell, fulfil), 1, ""@)
}

/// The reaction by which an async function awaits a promise: both handlers are its result promise,
/// and there is no promise of the reaction itself.
pub open spec fn await_reaction(async_promise: Value, context: Value) -> Reaction {
    Reaction {
        on_f: async_promise,
        on_r: async_promise,
        result: Value::Empty,
        context,
        kind: React::Then,
        idx: 0,
    }
}

/// A combinator settles its result: only the first settlement has an effect.
pub open spec fn resolves(
    before: Promises,
    after: Promises,
    result: Value,
    fulfil: bool,
    v: Value,
    r: Option<Settle>,
) -> bool {
    let live = result matches Value::Obj(o) && before.slots@.contains_key(o) && (
    before.slots@[o].comb matches Some(c) && !c.already);
    if live {
        let o = result->Obj_0;
        let k = after.slots@[o];
        let c = k.comb->0;
        &&& r == Some(Settle { promise: result, fulfil, value: v })
        &&& after.slots@ == before.slots@.insert(o, k)
        &&& k.comb is Some
        &&& c.already
        &&& c.values@.len() == 0
        &&& c.remaining == before.slots@[o].comb->0.remaining
        &&& k == PromiseSlot { comb: k.comb, ..before.slots@[o] }
        &&& after == Promises { slots: after.slots, ..before }
    } else {
        r is None && after == before
    }
}

/// A combinator stores an element, when one is given, and counts one done; the last one hands out
/// the values.
pub open spec fn records_element(
    before: Promises,
    after: Promises,
    result: Value,
    element: Option<(u32, Value)>,
    r: Option<Vec<Value>>,
) -> bool {
    let known = result matches Value::Obj(o) && before.slots@.contains_key(o)
        && before.slots@[o].comb is Some;
    if known {
        let o = result->Obj_0;
        let c0 = before.slots@[o].comb->0;
        let k = after.slots@[o];
        let c = k.comb->0;
        let stored = match element {
            Some((i, v)) => if i < c0.values@.len() {
                c0.values@.update(i as int, v)
            } else {
                c0.values@
            },
            None => c0.values@,
        };
        &&& after.slots@ == before.slots@.insert(o, k)
        &&& k.comb is Some
        &&& k == PromiseSlot { comb: k.comb, ..before.slots@[o] }
        &&& c.remaining == c0.remaining - 1
        &&& c.already == c0.already
        &&& if c0.remaining == 1 {
            (r matches Some(vs) && vs@ == stored) && c.values@.len() == 0
        } else {
            r is None && c.values@ == stored
        }
        &&& after == Promises { slots: after.slots, ..before }
    } else {
        r is None && after == before
    }
}

impl Promises {
    /// The resolving functions of a promise: two function objects over one new cell. The first
    /// call of either settles the promise.
    pub fn make_resolver_pair(&mut self, heap: &mut Heap, function_proto: u64, promise: &Value) -> (r:
        (u64, u64))
        requires
            old(self).wf(),
            old(heap).objects@.len() + 2 <= u64::MAX,
        ensures
            final(self).wf(),
            ({
                let cell = old(self).cells@.len() as usize;
                let n = old(heap).objects@.len() as int;
                &&& final(self).cells@ == old(self).cells@.push(
                    ResolverCell { promise: *promise, already: false },
                )
                &&& final(heap).objects@.len() == n + 2
                &&& forall|i: int|
                    0 <= i < n ==> #[trigger] final(heap).objects@[i] == old(heap).objects@[i]
                &&& r == (n as u64, (n + 1) as u64)
                &&& is_resolver(final(heap).objects@[n], function_proto, cell, true)
                &&& is_resolver(final(heap).objects@[n + 1], function_proto, cell, false)
            }),
            *final(self) == (Promises { cells: final(self).cells, ..*old(self) }),
    {
        let cell: usize = self.cells.len();
        self.cells.push(ResolverCell { promise: promise.duplicate(), already: false });
        let res = heap.add_object(function_object(function_proto, Callable::Resolver(cell, true), 1, ""));
        let rej = heap.add_object(function_object(function_proto, Callable::Resolver(cell, false), 1, ""));
        (res, rej)
    }

    /// A call of a resolving function: the first call of either one of the pair settles the
    /// promise with the first argument.
    pub fn call_promise_resolver(&mut self, cell: usize, fulfil: bool, args: &Vec<Value>) -> (r:
        Option<Settle>)
        requires
            cell < old(self).cells@.len(),
        ensures
            final(self).cells@ == old(self).cells@.update(
                cell as int,
                used(old(self).cells@[cell as int]),
            ),
            *final(self) == (Promises { cells: final(self).cells, ..*old(self) }),
            r == settlement(
                old(self).cells@[cell as int],
                fulfil,
                if args@.len() > 0 {
                    args@[0]
                } else {
                    Value::Undefined
                },
            ),
    {
        let already = self.cells[cell].already;
        self.cells[cell].already = true;
        assert(self.cells@ =~= old(self).cells@.update(
            cell as int,
            ResolverCell { already: true, ..old(self).cells@[cell as int] },
        ));
        if already {
            return None;
        }
        let value = if args.len() > 0 {
            args[0].duplicate()
        } else {
            Value::Undefined
        };
        Some(Settle { promise: self.cells[cell].promise.duplicate(), fulfil, value })
    }

    /// A combinator's settlement of its result: only the first one has an effect.
    pub fn combinator_resolve(&mut self, result: &Value, fulfil: bool, v: Value) -> (r: Option<
        Settle,
    >)
        requires
            old(self).wf(),
        ensures
            final(self).wf(),
            resolves(*old(self), *final(self), *result, fulfil, v, r),
    {
        let o: u64 = match result {
            Value::Obj(o) => *o,
            _ => {
                return None;
            },
        };
        let live = match self.slots.get(&o) {
            Some(s) => match &s.comb {
                Some(c) => !c.already,
                None => false,
            },
            None => false,
        };
        if !live {
            return None;
        }
        match self.slots.remove(&o) {
            Some(mut s) => {
                if let Some(c) = &mut s.comb {
                    c.already = true;
                    c.values = Vec::new();
                }
                self.slots.insert(o, s);
                assert(self.slots@ =~= old(self).slots@.insert(o, self.slots@[o]));
                Some(Settle { promise: result.duplicate(), fulfil, value: v })
            },
            None => None,
        }
    }

    /// Stores an element of a combinator, when one is given, and counts one done. The last one
    /// hands out the values; the result is then to be settled with them.
    pub fn combinator_record(&mut self, result: &Value, element: Option<(u32, Value)>) -> (r: Option<
        Vec<Value>,
    >)
        requires
            old(self).wf(),
            *result matches Value::Obj(o) ==> (old(self).slots@.contains_key(o) ==> (old(
                self).slots@[o].comb matches Some(c) ==> c.remaining > 0)),
        ensures
            final(self).wf(),
            records_element(*old(self), *final(self), *result, element, r),
    {
        let o: u64 = match result {
            Value::Obj(o) => *o,
            _ => {
                return None;
            },
        };
        let known = match self.slots.get(&o) {
            Some(s) => s.comb.is_some(),
            None => false,
        };
        if !known {
            return None;
        }
        match self.slots.remove(&o) {
            Some(s) => {
                let mut s = s;
                let mut done: Option<Vec<Value>> = None;
                if let Some(c) = &mut s.comb {
                    if let Some((i, v)) = element {
                        if (i as usize) < c.values.len() {
                            c.values.set(i as usize, v);
                        }
                    }
                    c.remaining = c.remaining - 1;
                    if c.remaining == 0 {
                        let mut all: Vec<Value> = Vec::new();
                        all.append(&mut c.values);
                        assert(all@ =~= match element {
                            Some((i, v)) => if i < old(self).slots@[o].comb->0.values@.len() {
                                old(self).slots@[o].comb->0.values@.update(i as int, v)
                            } else {
                                old(self).slots@[o].comb->0.values@
                            },
                            None => old(self).slots@[o].comb->0.values@,
                        });
                        done = Some(all);
                    }
                }
                self.slots.insert(o, s);
                assert(self.slots@ =~= old(self).slots@.insert(o, self.slots@[o]));
                done
            },
            None => None,
        }
    }

    /// Parks the suspended coroutine of the async function that a promise belongs to.
    pub fn park_async_coro(&mut self, promise: &Value, coro: u64)
        requires
            old(self).wf(),
        ensures
            final(self).wf(),
            *final(self) == (Promises { slots: final(self).slots, ..*old(self) }),
            final(self).slots@ == if *promise matches Value::Obj(o) && old(
                self).slots@.contains_key(o) {
                old(self).slots@.insert(
                    promise->Obj_0,
                    PromiseSlot { coro: Some(coro), ..old(self).slots@[promise->Obj_0] },
                )
            } else {
                old(self).slots@
            },
    {
        if let Value::Obj(o) = promise {
            if !self.slots.contains_key(o) {
                return;
            }
            if let Some(mut s) = self.slots.remove(o) {
                s.coro = Some(coro);
                self.slots.insert(*o, s);
                assert(self.slots@ =~= old(self).slots@.insert(
                    *o,
                    PromiseSlot { coro: Some(coro), ..old(self).slots@[*o] },
                ));
            }
        }
    }

    /// Takes the parked coroutine.
    pub fn take_async_coro(&mut self, promise: &Value) -> (r: Option<u64>)
        requires
            old(self).wf(),
        ensures
            final(self).wf(),
            *final(self) == (Promises { slots: final(self).slots, ..*old(self) }),
            if *promise matches Value::Obj(o) && old(self).slots@.contains_key(o) {
                &&& r == old(self).slots@[promise->Obj_0].coro
                &&& final(self).slots@ == old(self).slots@.insert(
                    promise->Obj_0,
                    PromiseSlot { coro: None, ..old(self).slots@[promise->Obj_0] },
                )
            } else {
                r is None && final(self).slots@ == old(self).slots@
            },
    {
        if let Value::Obj(o) = promise {
            if !self.slots.contains_key(o) {
                return None;
            }
            if let Some(mut s) = self.slots.remove(o) {
                let c = s.coro;
                s.coro = None;
                self.slots.insert(*o, s);
                assert(self.slots@ =~= old(self).slots@.insert(
                    *o,
                    PromiseSlot { coro: None, ..old(self).slots@[*o] },
                ));
                return c;
            }
        }
        None
    }

    /// Subscribes the async function with the given result promise to the value that it awaits.
    /// A value that is no object is as a promise fulfilled with it: the resumption is queued at
    /// once. For an object `resolved` is the promise that it resolves to (itself, or a new one),
    /// or what resolving it threw, which is thrown at the `await`.
    pub fn await_subscribe(
        &mut self,
        awaited: &Value,
        async_promise: &Value,
        resolved: Result<u64, Value>,
    ) -> (r: Result<(), Value>)
        requires
            old(self).wf(),
        ensures
            final(self).wf(),
            match *awaited {
                Value::Obj(_) => match resolved {
                    Ok(p) => r is Ok && reacts(
                        *old(self),
                        *final(self),
                        p,
                        await_reaction(*async_promise, old(self).async_context),
                    ),
                    Err(e) => r == Err::<(), Value>(e) && *final(self) == *old(self),
                },
                _ => {
                    &&& r is Ok
                    &&& final(self).microtasks@ == old(self).microtasks@.push(
                        Job {
                            handler: *async_promise,
                            result: Value::Empty,
                            value: *awaited,
                            fulfilled: true,
                            kind: JobKind::Reaction,
                            idx: 0,
                            context: old(self).async_context,
                        },
                    )
                    &&& *final(self) == Promises {
                        microtasks: final(self).microtasks,
                        ..*old(self)
                    }
                },
            },
    {
        match awaited {
            Value::Obj(_) => match resolved {
                Ok(p) => {
                    let reaction = Reaction::new_then(
                        async_promise.duplicate(),
                        async_promise.duplicate(),
                        Value::Empty,
                        self.async_context.duplicate(),
                    );
                    self.perform_then(p, reaction);
                    Ok(())
                },
                Err(e) => Err(e),
            },
            _ => {
                let job = Job {
                    handler: async_promise.duplicate(),
                    result: Value::Empty,
                    value: awaited.duplicate(),
                    fulfilled: true,
                    kind: JobKind::Reaction,
                    idx: 0,
                    context: self.async_context.duplicate(),
                };
                self.microtasks.push(job);
                Ok(())
            },
        }
    }

    /// A call is about to be made whose result feeds an `await`.
    pub fn note_await_call(&mut self, callee: &Value, depth: u32)
        requires
            depth < u32::MAX,
        ensures
            final(self).await_call == match *callee {
                Value::Obj(o) => Some((o, (depth + 1) as u32)),
                _ => old(self).await_call,
            },
            *final(self) == (Promises { await_call: final(self).await_call, ..*old(self) }),
    {
        if let Value::Obj(o) = callee {
            self.await_call = Some((*o, depth + 1));
        }
    }

    /// Withdraws what the call did not consume.
    pub fn clear_await_call(&mut self)
        ensures
            *final(self) == (Promises { await_call: None, ..*old(self) }),
    {
        self.await_call = None;
    }

    /// Consumes the note, and says whether it was for this very call.
    pub fn take_await_call(&mut self, fn_obj: u64, depth: u32) -> (r: bool)
        ensures
            r == (old(self).await_call == Some((fn_obj, depth))),
            *final(self) == (Promises { await_call: None, ..*old(self) }),
    {
        let r = match self.await_call {
            Some((o, d)) => o == fn_obj && d == depth,
            None => false,
        };
        self.await_call = None;
        r
    }

    /// Takes the mark that the resumed coroutine is the root of a drained job.
    pub fn take_await_job_root(&mut self) -> (r: bool)
        ensures
            r == old(self).job_root,
            *final(self) == (Promises { job_root: false, ..*old(self) }),
    {
        let r = self.job_root;
        self.job_root = false;
        r
    }
}

/// What a combinator element's settlement does.
pub enum ElementStep {
    /// The result is settled with the value.
    Resolve,
    /// The value is recorded; wrapped in an outcome object when `wrap`.
    Record { wrap: bool },
}

/// Whether an element's settlement is recorded.
pub open spec fn records(mode: React, fulfilled: bool) -> bool {
    match mode {
        React::All => fulfilled,
        React::AllSettled => true,
        React::Any => !fulfilled,
        React::Then | React::Race => false,
    }
}

/// What a combinator does with an element that settled: `all` records fulfilments, `any`
/// rejections, `allSettled` both, wrapped in an outcome object; anything else settles the
/// result.
pub fn element_step(mode: React, fulfilled: bool) -> (r: ElementStep)
    ensures
        r == if records(mode, fulfilled) {
            ElementStep::Record { wrap: mode == React::AllSettled }
        } else {
            ElementStep::Resolve
        },
{
    match mode {
        React::All => if fulfilled {
            ElementStep::Record { wrap: false }
        } else {
            ElementStep::Resolve
        },
        React::AllSettled => ElementStep::Record { wrap: true },
        React::Any => if fulfilled {
            ElementStep::Resolve
        } else {
            ElementStep::Record { wrap: false }
        },
        React::Then | React::Race => ElementStep::Resolve,
    }
}

/// An `allSettled` outcome: its status, then its value or reason.
pub open spec fn is_outcome(o: Object, object_proto: u64, fulfilled: bool, value: Value) -> bool {
    &&& crate::object::ordinary(o, Some(object_proto))
    &&& o.props@.len() == 2
    &&& o.props@[0].0 == "status"@
    &&& (o.props@[0].1.kind matches crate::object::PropKind::Data(Value::Str(s)) && s@
        == if fulfilled {
        "fulfilled"@
    } else {
        "rejected"@
    })
    &&& o.props@[1] == (
        if fulfilled {
            "value"@
        } else {
            "reason"@
        },
        Property::spec_data(value, true, true, true),
    )
}

/// The outcome object of an `allSettled` element.
pub fn outcome_object(object_proto: u64, fulfilled: bool, value: Value) -> (o: Object)
    ensures
        is_outcome(o, object_proto, fulfilled, value),
{
    let mut o = Object::new(Some(object_proto));
    let text = if fulfilled {
        "fulfilled".to_owned()
    } else {
        "rejected".to_owned()
    };
    let p = Property::plain(Value::Str(text));
    let ghost st = p;
    o.props.insert("status", p);
    proof {
        reveal_strlit("status");
        reveal_strlit("value");
        reveal_strlit("reason");
        assert("status"@[0] != "value"@[0]);
        assert("status"@[0] != "reason"@[0]);
        let e = Seq::<(Seq<char>, Property)>::empty();
        assert(put(e, "status"@, st) =~= seq![("status"@, st)]);
        crate::object::lemma_index_of_key_is(seq![("status"@, st)], "value"@, 1);
        crate::object::lemma_index_of_key_is(seq![("status"@, st)], "reason"@, 1);
    }
    if fulfilled {
        o.props.insert("value", Property::plain(value));
    } else {
        o.props.insert("reason", Property::plain(value));
    }
    o
}

/// What is left to do when a combinator's element settled.
pub enum Combined {
    Nothing,
    /// The result is settled.
    Settled(Settle),
    /// The last element is in: the result is settled with the array of the values, or rejected
    /// with an `AggregateError` over them, by [`Promises::combinator_finish`].
    Complete(Vec<Value>),
}

/// What the settlement of an element does to a combinator: it settles the result, or it is
/// recorded, as an outcome object where the mode asks for one.
pub open spec fn settles_element(
    before: Promises,
    after: Promises,
    h: Heap,
    k: Heap,
    object_proto: u64,
    result: Value,
    mode: React,
    fulfilled: bool,
    idx: u32,
    value: Value,
    r: Combined,
) -> bool {
    let n = h.objects@.len() as int;
    let wraps = mode == React::AllSettled;
    let stored = if wraps {
        Value::Obj(n as u64)
    } else {
        value
    };
    &&& if wraps {
        &&& k.objects@.len() == n + 1
        &&& k.objects@.take(n) == h.objects@
        &&& is_outcome(k.objects@[n], object_proto, fulfilled, value)
    } else {
        k == h
    }
    &&& if records(mode, fulfilled) {
        match r {
            Combined::Complete(vs) => records_element(
                before,
                after,
                result,
                Some((idx, stored)),
                Some(vs),
            ),
            Combined::Nothing => records_element(before, after, result, Some((idx, stored)), None),
            Combined::Settled(_) => false,
        }
    } else {
        match r {
            Combined::Settled(s) => resolves(before, after, result, fulfilled, value, Some(s)),
            Combined::Nothing => resolves(before, after, result, fulfilled, value, None),
            Combined::Complete(_) => false,
        }
    }
}

impl Promises {
    /// An element of a combinator settled: it is recorded, in an outcome object where the
    /// combinator wants one, or it settles the result.
    pub fn combinator_settle(
        &mut self,
        heap: &mut Heap,
        object_proto: u64,
        result: &Value,
        mode: React,
        fulfilled: bool,
        idx: u32,
        value: Value,
    ) -> (r: Combined)
        requires
            old(self).wf(),
            old(heap).objects@.len() < u64::MAX,
            records(mode, fulfilled) ==> (*result matches Value::Obj(o) ==> (old(
                self).slots@.contains_key(o) ==> (old(self).slots@[o].comb matches Some(c)
                ==> c.remaining > 0))),
        ensures
            final(self).wf(),
            settles_element(
                *old(self),
                *final(self),
                *old(heap),
                *final(heap),
                object_proto,
                *result,
                mode,
                fulfilled,
                idx,
                value,
                r,
            ),
    {
        match element_step(mode, fulfilled) {
            ElementStep::Resolve => match self.combinator_resolve(result, fulfilled, value) {
                Some(s) => Combined::Settled(s),
                None => Combined::Nothing,
            },
            ElementStep::Record { wrap } => {
                let stored = if wrap {
                    let o = heap.add_object(outcome_object(object_proto, fulfilled, value));
                    assert(heap.objects@.take(old(heap).objects@.len() as int)
                        =~= old(heap).objects@);
                    Value::Obj(o)
                } else {
                    value
                };
                match self.combinator_record(result, Some((idx, stored))) {
                    Some(vs) => Combined::Complete(vs),
                    None => Combined::Nothing,
                }
            },
        }
    }

    /// Runs the job of a combinator's element.
    pub fn run_combinator_job(
        &mut self,
        heap: &mut Heap,
        object_proto: u64,
        mode: React,
        job: Job,
    ) -> (r: Combined)
        requires
            old(self).wf(),
            job.kind == JobKind::Combinator(mode),
            old(heap).objects@.len() < u64::MAX,
            records(mode, job.fulfilled) ==> (job.result matches Value::Obj(o) ==> (old(
                self).slots@.contains_key(o) ==> (old(self).slots@[o].comb matches Some(c)
                ==> c.remaining > 0))),
        ensures
            final(self).wf(),
            settles_element(
                *old(self),
                *final(self),
                *old(heap),
                *final(heap),
                object_proto,
                job.result,
                mode,
                job.fulfilled,
                job.idx,
                job.value,
                r,
            ),
    {
        self.combinator_settle(
            heap,
            object_proto,
            &job.result,
            mode,
            job.fulfilled,
            job.idx,
            job.value,
        )
    }

    /// Settles a combinator whose last element is in: fulfilled with the array of the values, or
    /// rejected with the error made from it.
    pub fn combinator_finish(&mut self, result: &Value, any: bool, made: Value) -> (r: Option<
        Settle,
    >)
        requires
            old(self).wf(),
        ensures
            final(self).wf(),
            resolves(*old(self), *final(self), *result, !any, made, r),
    {
        self.combinator_resolve(result, !any, made)
    }

    /// The start of a thenable job that calls `then`: the resolving functions to pass, and the
    /// context to put back. The job's context holds during the call.
    pub fn begin_thenable_call(&mut self, heap: &mut Heap, function_proto: u64, job: &Job) -> (r: (
        u64,
        u64,
        Value,
    ))
        requires
            old(self).wf(),
            old(heap).objects@.len() + 2 <= u64::MAX,
        ensures
            final(self).wf(),
            ({
                let cell = old(self).cells@.len() as usize;
                let n = old(heap).objects@.len() as int;
                &&& r == (n as u64, (n + 1) as u64, old(self).async_context)
                &&& final(self).cells@ == old(self).cells@.push(
                    ResolverCell { promise: job.result, already: false },
                )
                &&& final(heap).objects@.len() == n + 2
                &&& final(heap).objects@.take(n) == old(heap).objects@
                &&& is_resolver(final(heap).objects@[n], function_proto, cell, true)
                &&& is_resolver(final(heap).objects@[n + 1], function_proto, cell, false)
            }),
            *final(self) == (Promises {
                cells: final(self).cells,
                async_context: job.context,
                ..*old(self)
            }),
    {
        let outer = self.async_context.duplicate();
        self.async_context = job.context.duplicate();
        let (res, rej) = self.make_resolver_pair(heap, function_proto, &job.result);
        assert(heap.objects@.take(old(heap).objects@.len() as int) =~= old(heap).objects@);
        (res, rej, outer)
    }

    /// The end of that call. One that threw rejects the promise, unless it was settled before.
    pub fn end_thenable_call(&mut self, cell: usize, thrown: Option<Value>, outer: Value) -> (r:
        Option<Settle>)
        requires
            cell < old(self).cells@.len(),
        ensures
            *final(self) == (Promises {
                cells: final(self).cells,
                async_context: outer,
                ..*old(self)
            }),
            r == match thrown {
                Some(e) => settlement(old(self).cells@[cell as int], false, e),
                None => None,
            },
            final(self).cells@ == match thrown {
                Some(_) => old(self).cells@.update(
                    cell as int,
                    used(old(self).cells@[cell as int]),
                ),
                None => old(self).cells@,
            },
    {
        let r = match thrown {
            Some(e) => {
                let mut args: Vec<Value> = Vec::new();
                args.push(e);
                self.call_promise_resolver(cell, false, &args)
            },
            None => None,
        };
        self.async_context = outer;
        r
    }
}

/// A realm's promise intrinsics.
pub struct PromiseIntr {
    pub proto: u64,
    pub ctor: u64,
    /// The original `Promise.prototype.then`.
    pub then_fn: u64,
}

/// `%Promise.prototype%.constructor` is a data property that holds `%Promise%`.
pub open spec fn ctor_is_intrinsic(heap: Heap, i: PromiseIntr) -> bool {
    heap.has(i.proto) && data_of(heap.at(i.proto).props@, "constructor"@) == Some(
        Value::Obj(i.ctor),
    )
}

fn proto_ctor_is_intrinsic(heap: &Heap, i: &PromiseIntr) -> (r: bool)
    ensures
        r == ctor_is_intrinsic(*heap, *i),
{
    if !heap.holds(i.proto) {
        return false;
    }
    match heap.get(i.proto).props.get_data("constructor") {
        Some(Value::Obj(f)) => f == i.ctor,
        _ => false,
    }
}

/// Whether reading `constructor` of a promise runs no code and gives `%Promise%`: the promise has
/// none of its own, inherits straight from `%Promise.prototype%`, and that one is pristine.
pub open spec fn ctor_get_silent(heap: Heap, i: PromiseIntr, p: u64) -> bool {
    heap.has(p) && heap.at(p).proto == Some(i.proto) && lookup(
        heap.at(p).props@,
        "constructor"@,
    ) is None && ctor_is_intrinsic(heap, i)
}

/// Whether resolving `%Promise%` with the promise `p` gives `p` itself without running code.
pub fn promise_ctor_get_is_silent(heap: &Heap, intr: Option<&PromiseIntr>, p: u64) -> (r: bool)
    ensures
        r == (intr matches Some(i) && ctor_get_silent(*heap, *i, p)),
{
    match intr {
        None => false,
        Some(i) => {
            if !heap.holds(p) {
                return false;
            }
            let o = heap.get(p);
            let straight = match o.proto {
                Some(x) => x == i.proto,
                None => false,
            };
            if !straight || o.props.contains("constructor") {
                return false;
            }
            proto_ctor_is_intrinsic(heap, i)
        },
    }
}

/// Whether reading `constructor` of a fresh promise runs no code.
pub fn fresh_promise_ctor_get_is_silent(heap: &Heap, intr: Option<&PromiseIntr>) -> (r: bool)
    ensures
        r == (intr matches Some(i) && ctor_is_intrinsic(*heap, *i)),
{
    match intr {
        None => false,
        Some(i) => proto_ctor_is_intrinsic(heap, i),
    }
}

/// Whether a value is the realm's original `Promise.prototype.then`.
pub fn is_intrinsic_then(intr: Option<&PromiseIntr>, f: &Value) -> (r: bool)
    ensures
        r == (intr matches Some(i) && *f == Value::Obj(i.then_fn)),
{
    match (intr, f) {
        (Some(i), Value::Obj(o)) => *o == i.then_fn,
        _ => false,
    }
}

/// How a suspended coroutine is resumed.
pub enum Resume {
    Next(Value),
    Throw(Value),
}

/// Whether an `await` may go on without suspending: the queue is empty and nothing ends the
/// engine, and the value settles without running code: it is no object, or a settled promise
/// whose `constructor` read is silent.
pub open spec fn awaits_directly(
    p: Promises,
    heap: Heap,
    intr: Option<&PromiseIntr>,
    awaited: Value,
    terminating: bool,
    poll_ok: bool,
) -> bool {
    &&& p.microtasks@.len() == 0
    &&& !terminating
    &&& poll_ok
    &&& match awaited {
        Value::Obj(o) => {
            &&& p.slots@.contains_key(o)
            &&& p.slots@[o].status == Status::Fulfilled || p.slots@[o].status == Status::Rejected
            &&& intr matches Some(i)
            &&& ctor_get_silent(heap, *i, o)
        },
        _ => true,
    }
}

impl Promises {
    /// `await` continuing without a suspension, when that cannot be observed (see
    /// [`awaits_directly`]); a rejection that was unhandled is handled then. None to suspend.
    pub fn await_direct(
        &mut self,
        heap: &Heap,
        intr: Option<&PromiseIntr>,
        awaited: &Value,
        terminating: bool,
        poll_ok: bool,
    ) -> (r: Option<Resume>)
        requires
            old(self).wf(),
        ensures
            final(self).wf(),
            if !awaits_directly(*old(self), *heap, intr, *awaited, terminating, poll_ok) {
                r is None && *final(self) == *old(self)
            } else {
                match *awaited {
                    Value::Obj(o) => {
                        let s = old(self).slots@[o];
                        let rejected = s.status == Status::Rejected;
                        &&& r == Some(
                            if rejected {
                                Resume::Throw(s.value)
                            } else {
                                Resume::Next(s.value)
                            },
                        )
                        &&& final(self).slots@ == if rejected {
                            old(self).slots@.insert(o, PromiseSlot { is_tracked: false, ..s })
                        } else {
                            old(self).slots@
                        }
                        &&& final(self).unhandled@ == if rejected && s.is_tracked {
                            handled(old(self).unhandled@, o)
                        } else {
                            old(self).unhandled@
                        }
                        &&& *final(self) == Promises {
                            slots: final(self).slots,
                            unhandled: final(self).unhandled,
                            ..*old(self)
                        }
                    },
                    _ => r == Some(Resume::Next(*awaited)) && *final(self) == *old(self),
                }
            },
    {
        if self.microtasks.len() != 0 || terminating || !poll_ok {
            return None;
        }
        match awaited {
            Value::Obj(o) => {
                let ready = match self.slots.get(o) {
                    Some(s) => s.status == Status::Fulfilled || s.status == Status::Rejected,
                    None => false,
                };
                if !ready || !promise_ctor_get_is_silent(heap, intr, *o) {
                    return None;
                }
                let fulfilled = match self.slots.get(o) {
                    Some(s) => s.status == Status::Fulfilled,
                    None => false,
                };
                if fulfilled {
                    return match self.slots.get(o) {
                        Some(s) => Some(Resume::Next(s.value.duplicate())),
                        None => None,
                    };
                }
                match self.slots.remove(o) {
                    Some(mut s) => {
                        let v = s.value.duplicate();
                        if s.is_tracked {
                            s.is_tracked = false;
                            self.unhandled = crate::eval::promise_fast::without_id(
                                &self.unhandled,
                                *o,
                            );
                        }
                        self.slots.insert(*o, s);
                        assert(self.slots@ =~= old(self).slots@.insert(
                            *o,
                            PromiseSlot { is_tracked: false, ..old(self).slots@[*o] },
                        ));
                        Some(Resume::Throw(v))
                    },
                    None => None,
                }
            },
            v => Some(Resume::Next(v.duplicate())),
        }
    }

    /// The start of a job that resumes an `await`: the context and the drain mark are set, and
    /// the signal is the settlement. Gives the context to put back. The job is a safe point: where
    /// the collector's poll there failed (`poll_ok`), the job is dropped and nothing is set.
    pub fn begin_await_job(&mut self, job: Job, from_drain: bool, poll_ok: bool) -> (r: Option<
        (Value, Value, Resume),
    >)
        ensures
            if poll_ok {
                &&& r == Some(
                    (
                        old(self).async_context,
                        job.handler,
                        if job.fulfilled {
                            Resume::Next(job.value)
                        } else {
                            Resume::Throw(job.value)
                        },
                    ),
                )
                &&& *final(self) == Promises {
                    async_context: job.context,
                    job_root: from_drain,
                    ..*old(self)
                }
            } else {
                r is None && *final(self) == *old(self)
            },
    {
        if !poll_ok {
            return None;
        }
        let outer = self.async_context.duplicate();
        self.async_context = job.context;
        self.job_root = from_drain;
        let signal = if job.fulfilled {
            Resume::Next(job.value)
        } else {
            Resume::Throw(job.value)
        };
        Some((outer, job.handler, signal))
    }

    /// The end of that job.
    pub fn end_await_job(&mut self, outer: Value)
        ensures
            *final(self) == (Promises { async_context: outer, job_root: false, ..*old(self) }),
    {
        self.async_context = outer;
        self.job_root = false;
    }

    /// A job that calls a thenable's `then`. When that is the intrinsic one on a promise whose
    /// lookup is silent, the call would only attach the resolving functions: a reaction that
    /// settles the promise is attached in its place. True when that was done.
    pub fn run_thenable_job(&mut self, job: Job, intrinsic: bool, silent: bool) -> (r: bool)
        requires
            old(self).wf(),
        ensures
            final(self).wf(),
            r == (intrinsic && silent && job.value is Obj),
            if r {
                reacts(
                    *old(self),
                    *final(self),
                    job.value->Obj_0,
                    Reaction {
                        on_f: Value::Undefined,
                        on_r: Value::Undefined,
                        result: job.result,
                        context: job.context,
                        kind: React::Then,
                        idx: 0,
                    },
                )
            } else {
                *final(self) == *old(self)
            },
    {
        if !intrinsic || !silent {
            return false;
        }
        match job.value {
            Value::Obj(p) => {
                let reaction = Reaction::new_then(
                    Value::Undefined,
                    Value::Undefined,
                    job.result,
                    job.context,
                );
                self.perform_then(p, reaction);
                true
            },
            _ => false,
        }
    }
}

/// The cell of a pair of resolving functions after a call of either.
pub open spec fn used(c: ResolverCell) -> ResolverCell {
    ResolverCell { already: true, ..c }
}

/// What a call of a resolving function settles.
pub open spec fn settlement(c: ResolverCell, fulfil: bool, value: Value) -> Option<Settle> {
    if c.already {
        None
    } else {
        Some(Settle { promise: c.promise, fulfil, value })
    }
}

/// What calls of a pair of resolving functions settle, one after the other.
pub open spec fn settlements(c: ResolverCell, calls: Seq<(bool, Value)>) -> Seq<Settle>
    decreases calls.len(),
{
    if calls.len() == 0 {
        Seq::empty()
    } else {
        let rest = settlements(used(c), calls.drop_first());
        match settlement(c, calls[0].0, calls[0].1) {
            Some(s) => seq![s] + rest,
            None => rest,
        }
    }
}

/// However often the resolving functions of a pair are called, and in whatever order, the promise
/// is settled once, by the first call.
pub proof fn lemma_resolvers_settle_once(c: ResolverCell, calls: Seq<(bool, Value)>)
    ensures
        settlements(c, calls) == if c.already || calls.len() == 0 {
            Seq::empty()
        } else {
            seq![Settle { promise: c.promise, fulfil: calls[0].0, value: calls[0].1 }]
        },
    decreases calls.len(),
{
    if calls.len() > 0 {
        lemma_resolvers_settle_once(used(c), calls.drop_first());
        assert(settlements(used(c), calls.drop_first()) =~= Seq::<Settle>::empty());
        assert(settlements(c, calls) =~= if c.already {
            Seq::empty()
        } else {
            seq![Settle { promise: c.promise, fulfil: calls[0].0, value: calls[0].1 }]
        });
    }
}

/// Attaching a handler to a rejected promise takes it off the unhandled rejections.
pub proof fn lemma_handled_is_gone(unhandled: Seq<u64>, p: u64)
    ensures
        !handled(unhandled, p).contains(p),
        forall|q: u64| q != p ==> (#[trigger] handled(unhandled, p).contains(q)
            <==> unhandled.contains(q)),
    decreases unhandled.len(),
{
    if unhandled.len() > 0 {
        let d = unhandled.drop_last();
        let h = handled(d, p);
        lemma_handled_is_gone(d, p);
        let t = handled(unhandled, p);
        assert forall|q: u64| #[trigger] t.contains(q) implies q != p && unhandled.contains(q) by {
            let i = choose|i: int| 0 <= i < t.len() && t[i] == q;
            if i < h.len() {
                assert(h[i] == q);
                assert(h.contains(q));
                let j = choose|j: int| 0 <= j < d.len() && d[j] == q;
                assert(unhandled[j] == q);
            } else {
                assert(unhandled[unhandled.len() - 1] == q);
            }
        }
        assert forall|q: u64| q != p && unhandled.contains(q) implies #[trigger] t.contains(q) by {
            let j = choose|j: int| 0 <= j < unhandled.len() && unhandled[j] == q;
            if j < d.len() {
                assert(d[j] == q);
                assert(d.contains(q));
                assert(h.contains(q));
                let i = choose|i: int| 0 <= i < h.len() && h[i] == q;
                assert(t[i] == q);
            } else {
                assert(t[t.len() - 1] == q);
            }
        }
    }
}

} // verus!
