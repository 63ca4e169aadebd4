//! Promises: their state and reactions, resolving functions, combinators, and `await`.
//!
//! An `await` subscribes the suspended async function with a reaction whose handler is the
//! function's own promise and whose result is [`Value::Empty`], which no real result is. The job
//! runner resumes the function directly.

use crate::value::Value;
use std::collections::HashMap;
use vstd::prelude::*;

verus! {

broadcast use vstd::std_specs::hash::group_hash_axioms;

/// A promise's state.
#[derive(Clone, Copy, Debug, PartialEq, Eq, Structural)]
pub enum Status {
    Pending,
    Fulfilled,
    Rejected,
    /// The state was moved onto another promise, which is the value.
    Forwarded,
}

/// What a reaction belongs to.
#[derive(Clone, Copy, Debug, PartialEq, Eq, Structural)]
pub enum React {
    /// An ordinary `then`.
    Then,
    /// An element of `Promise.all`.
    All,
    AllSettled,
    Any,
    Race,
}

/// What a job does.
#[derive(Clone, Copy, Debug, PartialEq, Eq, Structural)]
pub enum JobKind {
    /// Runs a reaction handler, passes the settlement on, or resumes an `await`.
    Reaction,
    /// Calls a thenable's `then`.
    Thenable,
    /// Settles an element of a combinator.
    Combinator(React),
    /// Calls a queued callback.
    Task,
}

/// A pair of reactions.
pub struct Reaction {
    pub on_f: Value,
    pub on_r: Value,
    /// The derived promise; `undefined` for none; `Empty` for an `await`.
    pub result: Value,
    pub context: Value,
    pub kind: React,
    /// A combinator element's index.
    pub idx: u32,
}

/// A queued job.
pub struct Job {
    pub handler: Value,
    pub result: Value,
    pub value: Value,
    pub fulfilled: bool,
    pub kind: JobKind,
    pub idx: u32,
    pub context: Value,
}

/// The state of a combinator call, kept with its result promise.
pub struct Combinator {
    pub values: Vec<Value>,
    pub remaining: usize,
    /// The result is settled.
    pub already: bool,
}

/// The cell that a pair of resolving functions shares.
pub struct ResolverCell {
    pub promise: Value,
    pub already: bool,
}

/// A promise's internal slots.
pub struct PromiseSlot {
    pub status: Status,
    /// Listed among the unhandled rejections.
    pub is_tracked: bool,
    pub value: Value,
    /// The first pending reaction.
    pub first: Option<Reaction>,
    pub rest: Vec<Reaction>,
    /// The suspended coroutine of the async function that the promise belongs to.
    pub coro: Option<u64>,
    pub comb: Option<Combinator>,
}

/// The promises of an engine by object identity, their resolving cells and the job queue.
pub struct Promises {
    pub slots: HashMap<u64, PromiseSlot>,
    pub cells: Vec<ResolverCell>,
    /// The jobs, the next one first.
    pub microtasks: Vec<Job>,
    /// The promises rejected without a handler, each once.
    pub unhandled: Vec<u64>,
    pub async_context: Value,
    /// A call whose result feeds an `await` at once: the callee and the depth its body runs at.
    pub await_call: Option<(u64, u32)>,
    /// The next resumed coroutine is the root of a job that the drain loop runs.
    pub job_root: bool,
}

/// A settlement that the engine is to perform.
pub struct Settle {
    pub promise: Value,
    /// Resolve, else reject.
    pub fulfil: bool,
    pub value: Value,
}

/// No promise, no resolving function and no job, and nothing noted.
pub open spec fn fresh_promises(r: Promises) -> bool {
    &&& r.slots@ == Map::<u64, PromiseSlot>::empty()
    &&& r.cells@.len() == 0
    &&& r.microtasks@.len() == 0
    &&& r.unhandled@.len() == 0
    &&& r.async_context == Value::Undefined
    &&& r.await_call is None
    &&& !r.job_root
}

/// A promise that is pending, without a reaction.
pub open spec fn pending_slot(s: PromiseSlot) -> bool {
    &&& s.status == Status::Pending
    &&& !s.is_tracked
    &&& s.value == Value::Undefined
    &&& s.first is None
    &&& s.rest@.len() == 0
    &&& s.coro is None
    &&& s.comb is None
}

/// The reactions of a slot, in order.
pub open spec fn reactions(s: PromiseSlot) -> Seq<Reaction> {
    match s.first {
        Some(r) => seq![r] + s.rest@,
        None => Seq::empty(),
    }
}

impl Reaction {
    /// An ordinary `then` reaction.
    pub fn new_then(on_f: Value, on_r: Value, result: Value, context: Value) -> (r: Reaction)
        ensures
            r == (Reaction { on_f, on_r, result, context, kind: React::Then, idx: 0 }),
    {
        Reaction { on_f, on_r, result, context, kind: React::Then, idx: 0 }
    }

    fn duplicate(&self) -> (r: Reaction)
        ensures
            r == *self,
    {
        Reaction {
            on_f: self.on_f.duplicate(),
            on_r: self.on_r.duplicate(),
            result: self.result.duplicate(),
            context: self.context.duplicate(),
            kind: self.kind,
            idx: self.idx,
        }
    }
}

impl PromiseSlot {
    /// Reactions beyond the first are only there after it.
    pub open spec fn wf(self) -> bool {
        self.first is None ==> self.rest@.len() == 0
    }

    /// A pending promise.
    pub fn boxed() -> (r: PromiseSlot)
        ensures
            r.wf(),
            pending_slot(r),
    {
        PromiseSlot {
            status: Status::Pending,
            is_tracked: false,
            value: Value::Undefined,
            first: None,
            rest: Vec::new(),
            coro: None,
            comb: None,
        }
    }

    /// Adds a reaction after the others.
    pub fn push_reaction(&mut self, r: Reaction)
        requires
            old(self).wf(),
        ensures
            final(self).wf(),
            reactions(*final(self)) == reactions(*old(self)).push(r),
            *final(self) == (PromiseSlot {
                first: final(self).first,
                rest: final(self).rest,
                ..*old(self)
            }),
    {
        if self.first.is_none() {
            self.first = Some(r);
            assert(reactions(*self) =~= reactions(*old(self)).push(r));
        } else {
            self.rest.push(r);
            assert(reactions(*self) =~= reactions(*old(self)).push(r));
        }
    }

    /// A copy of the observable state: neither the coroutine nor the combinator is duplicated.
    pub fn duplicate(&self) -> (r: PromiseSlot)
        requires
            self.wf(),
        ensures
            r.wf(),
            r.status == self.status,
            r.value == self.value,
            reactions(r) == reactions(*self),
            !r.is_tracked,
            r.coro is None,
            r.comb is None,
    {
        let mut rest: Vec<Reaction> = Vec::new();
        let mut i: usize = 0;
        while i < self.rest.len()
            invariant
                i <= self.rest@.len(),
                rest@ == self.rest@.take(i as int),
            decreases self.rest@.len() - i,
        {
            rest.push(self.rest[i].duplicate());
            i = i + 1;
            assert(rest@ =~= self.rest@.take(i as int));
        }
        assert(rest@ =~= self.rest@);
        let first = match &self.first {
            Some(r) => Some(r.duplicate()),
            None => None,
        };
        PromiseSlot {
            status: self.status,
            is_tracked: false,
            value: self.value.duplicate(),
            first,
            rest,
            coro: None,
            comb: None,
        }
    }

    /// Every object that the slot keeps alive: those of its value, of its reactions and of its
    /// combinator's values.
    pub fn object_refs(&self, refs: &mut Vec<u64>)
        requires
            self.wf(),
        ensures
            final(refs)@ == old(refs)@ + slot_refs(*self),
    {
        let ghost r0 = refs@;
        push_ref(refs, &self.value);
        if let Some(r) = &self.first {
            push_reaction_refs(refs, r);
        }
        let mut i: usize = 0;
        let ghost base = refs@;
        assert(reactions_refs(self.rest@.take(0)) =~= Seq::<u64>::empty());
        assert(base =~= base + reactions_refs(self.rest@.take(0)));
        while i < self.rest.len()
            invariant
                i <= self.rest@.len(),
                refs@ == base + reactions_refs(self.rest@.take(i as int)),
            decreases self.rest@.len() - i,
        {
            push_reaction_refs(refs, &self.rest[i]);
            i = i + 1;
            assert(self.rest@.take(i as int).drop_last() =~= self.rest@.take(i - 1));
            assert(self.rest@.take(i as int).last() == self.rest@[i - 1]);
            assert(refs@ =~= base + reactions_refs(self.rest@.take(i as int)));
        }
        assert(self.rest@.take(i as int) =~= self.rest@);
        proof {
            lemma_reactions_refs_first(*self);
        }
        let ghost head = obj_ref(self.value) + reactions_refs(reactions(*self));
        assert(refs@ =~= r0 + head);
        if let Some(c) = &self.comb {
            let mut j: usize = 0;
            assert(values_refs(c.values@.take(0)) =~= Seq::<u64>::empty());
            assert(refs@ =~= r0 + head + values_refs(c.values@.take(0)));
            while j < c.values.len()
                invariant
                    j <= c.values@.len(),
                    refs@ == r0 + head + values_refs(c.values@.take(j as int)),
                decreases c.values@.len() - j,
            {
                push_ref(refs, &c.values[j]);
                j = j + 1;
                assert(c.values@.take(j as int).drop_last() =~= c.values@.take(j - 1));
                assert(c.values@.take(j as int).last() == c.values@[j - 1]);
                assert(refs@ =~= r0 + head + values_refs(c.values@.take(j as int)));
            }
            assert(c.values@.take(j as int) =~= c.values@);
            assert(refs@ =~= r0 + slot_refs(*self));
        } else {
            assert(refs@ =~= r0 + slot_refs(*self));
        }
    }
}

/// The object that a value is.
pub open spec fn obj_ref(v: Value) -> Seq<u64> {
    match v {
        Value::Obj(o) => seq![o],
        _ => Seq::empty(),
    }
}

pub open spec fn reaction_refs(r: Reaction) -> Seq<u64> {
    obj_ref(r.on_f) + obj_ref(r.on_r) + obj_ref(r.result) + obj_ref(r.context)
}

pub open spec fn reactions_refs(rs: Seq<Reaction>) -> Seq<u64>
    decreases rs.len(),
{
    if rs.len() == 0 {
        Seq::empty()
    } else {
        reactions_refs(rs.drop_last()) + reaction_refs(rs.last())
    }
}

pub open spec fn values_refs(vs: Seq<Value>) -> Seq<u64>
    decreases vs.len(),
{
    if vs.len() == 0 {
        Seq::empty()
    } else {
        values_refs(vs.drop_last()) + obj_ref(vs.last())
    }
}

/// Every object that a slot keeps alive, in order.
pub open spec fn slot_refs(s: PromiseSlot) -> Seq<u64> {
    obj_ref(s.value) + reactions_refs(reactions(s)) + match s.comb {
        Some(c) => values_refs(c.values@),
        None => Seq::empty(),
    }
}

proof fn lemma_reactions_refs_split(a: Reaction, rest: Seq<Reaction>)
    ensures
        reactions_refs(seq![a] + rest) == reaction_refs(a) + reactions_refs(rest),
    decreases rest.len(),
{
    if rest.len() == 0 {
        assert((seq![a] + rest).drop_last() =~= Seq::<Reaction>::empty());
        assert((seq![a] + rest).last() == a);
        assert(reactions_refs(Seq::<Reaction>::empty()) =~= Seq::<u64>::empty());
        assert(reactions_refs(rest) =~= Seq::<u64>::empty());
        assert(reactions_refs(seq![a] + rest) =~= reaction_refs(a) + reactions_refs(rest));
    } else {
        lemma_reactions_refs_split(a, rest.drop_last());
        assert((seq![a] + rest).drop_last() =~= seq![a] + rest.drop_last());
        assert((seq![a] + rest).last() == rest.last());
        assert(reactions_refs(seq![a] + rest) =~= reaction_refs(a) + reactions_refs(rest));
    }
}

proof fn lemma_reactions_refs_first(s: PromiseSlot)
    requires
        s.wf(),
    ensures
        reactions_refs(reactions(s)) == match s.first {
            Some(r) => reaction_refs(r) + reactions_refs(s.rest@),
            None => Seq::empty(),
        },
        s.first is None ==> reactions_refs(s.rest@) == Seq::<u64>::empty(),
{
    if let Some(r) = s.first {
        lemma_reactions_refs_split(r, s.rest@);
    }
}

fn push_ref(refs: &mut Vec<u64>, v: &Value)
    ensures
        final(refs)@ == old(refs)@ + obj_ref(*v),
{
    if let Value::Obj(o) = v {
        refs.push(*o);
    }
    assert(refs@ =~= old(refs)@ + obj_ref(*v));
}

fn push_reaction_refs(refs: &mut Vec<u64>, r: &Reaction)
    ensures
        final(refs)@ == old(refs)@ + reaction_refs(*r),
{
    push_ref(refs, &r.on_f);
    push_ref(refs, &r.on_r);
    push_ref(refs, &r.result);
    push_ref(refs, &r.context);
    assert(refs@ =~= old(refs)@ + reaction_refs(*r));
}

/// The job for a reaction of a promise that settled.
pub open spec fn job_for(r: Reaction, fulfilled: bool, value: Value) -> Job {
    Job {
        handler: if r.kind == React::Then {
            if fulfilled {
                r.on_f
            } else {
                r.on_r
            }
        } else {
            Value::Undefined
        },
        result: r.result,
        value,
        fulfilled,
        kind: if r.kind == React::Then {
            JobKind::Reaction
        } else {
            JobKind::Combinator(r.kind)
        },
        idx: r.idx,
        context: r.context,
    }
}

/// The job for a reaction of a promise that settled with `value`.
pub fn reaction_job(r: Reaction, fulfilled: bool, value: Value) -> (j: Job)
    ensures
        j == job_for(r, fulfilled, value),
{
    let (handler, kind) = match r.kind {
        React::Then => (
            if fulfilled {
                r.on_f
            } else {
                r.on_r
            },
            JobKind::Reaction,
        ),
        k => (Value::Undefined, JobKind::Combinator(k)),
    };
    Job {
        handler,
        result: r.result,
        value,
        fulfilled,
        kind,
        idx: r.idx,
        context: r.context,
    }
}

/// The unhandled rejections without a promise.
pub open spec fn handled(unhandled: Seq<u64>, p: u64) -> Seq<u64>
    decreases unhandled.len(),
{
    if unhandled.len() == 0 {
        Seq::empty()
    } else if unhandled.last() == p {
        handled(unhandled.drop_last(), p)
    } else {
        handled(unhandled.drop_last(), p).push(unhandled.last())
    }
}

pub(crate) fn without_id(v: &Vec<u64>, p: u64) -> (r: Vec<u64>)
    ensures
        r@ == handled(v@, p),
{
    let mut out: Vec<u64> = Vec::new();
    let mut i: usize = 0;
    assert(v@.take(0) =~= Seq::<u64>::empty());
    while i < v.len()
        invariant
            i <= v@.len(),
            out@ == handled(v@.take(i as int), p),
        decreases v@.len() - i,
    {
        assert(v@.take(i + 1).drop_last() =~= v@.take(i as int));
        assert(v@.take(i + 1).last() == v@[i as int]);
        if v[i] != p {
            out.push(v[i]);
        }
        i = i + 1;
    }
    assert(v@.take(i as int) =~= v@);
    out
}

impl Promises {
    pub open spec fn wf(self) -> bool {
        forall|p: u64| #[trigger] self.slots@.contains_key(p) ==> self.slots@[p].wf()
    }

    /// No promises and no jobs.
    pub fn new() -> (r: Promises)
        ensures
            r.wf(),
            fresh_promises(r),
    {
        Promises {
            slots: HashMap::new(),
            cells: Vec::new(),
            microtasks: Vec::new(),
            unhandled: Vec::new(),
            async_context: Value::Undefined,
            await_call: None,
            job_root: false,
        }
    }

    /// Gives an object the slots of a pending promise.
    pub fn make_promise(&mut self, p: u64)
        requires
            old(self).wf(),
        ensures
            final(self).wf(),
            exists|s: PromiseSlot|
                pending_slot(s) && #[trigger] old(self).slots@.insert(p, s) == final(self).slots@,
            *final(self) == (Promises { slots: final(self).slots, ..*old(self) }),
    {
        let s = PromiseSlot::boxed();
        self.slots.insert(p, s);
    }

    /// Whether a value is a promise.
    pub open spec fn spec_is_promise(self, v: Value) -> bool {
        v matches Value::Obj(o) && self.slots@.contains_key(o)
    }

    /// Whether a value is a promise.
    pub fn is_promise(&self, v: &Value) -> (r: bool)
        ensures
            r == self.spec_is_promise(*v),
    {
        match v {
            Value::Obj(o) => self.slots.contains_key(o),
            _ => false,
        }
    }

    /// The forwarding from a value ends within `n` steps.
    pub open spec fn forwarding_ends(self, v: Value, n: nat) -> bool
        decreases n,
    {
        if self.spec_is_promise(v) && self.slots@[v->Obj_0].status == Status::Forwarded {
            n > 0 && self.forwarding_ends(self.slots@[v->Obj_0].value, (n - 1) as nat)
        } else {
            true
        }
    }

    /// The status and value of a promise; those of its target for a forwarded one.
    pub open spec fn state_of(self, v: Value, n: nat) -> Option<(Status, Value)>
        decreases n,
    {
        if !self.spec_is_promise(v) {
            None
        } else {
            let s = self.slots@[v->Obj_0];
            if s.status == Status::Forwarded && n > 0 {
                self.state_of(s.value, (n - 1) as nat)
            } else {
                Some((s.status, s.value))
            }
        }
    }

    /// The status and value of a promise; a forwarded one reports its target's.
    pub fn promise_state(&self, v: &Value) -> (r: Option<(Status, Value)>)
        requires
            exists|n: nat| self.forwarding_ends(*v, n),
        ensures
            forall|n: nat| self.forwarding_ends(*v, n) ==> r == #[trigger] self.state_of(*v, n),
            r matches Some((s, _)) ==> s != Status::Forwarded,
    {
        let ghost mut n = choose|n: nat| self.forwarding_ends(*v, n);
        let mut cur: Value = v.duplicate();
        let ghost mut hops: nat = 0;
        assert(forall|m: nat| self.forwarding_ends(*v, m) ==> self.state_of(*v, m) == self.state_of(
            cur,
            (m - 0) as nat,
        ));
        loop
            invariant
                self.forwarding_ends(cur, n),
                forall|m: nat|
                    #![trigger self.forwarding_ends(*v, m)]
                    #![trigger self.state_of(*v, m)]
                    self.forwarding_ends(*v, m) ==> m >= hops && self.forwarding_ends(
                        cur,
                        (m - hops) as nat,
                    ) && self.state_of(*v, m) == self.state_of(cur, (m - hops) as nat),
            decreases n,
        {
            let o: u64 = match &cur {
                Value::Obj(o) => *o,
                _ => {
                    return None;
                },
            };
            match self.slots.get(&o) {
                None => {
                    return None;
                },
                Some(s) => {
                    if s.status != Status::Forwarded {
                        return Some((s.status, s.value.duplicate()));
                    }
                    cur = s.value.duplicate();
                    proof {
                        n = (n - 1) as nat;
                        hops = hops + 1;
                    }
                },
            }
        }
    }

    /// Attaches a reaction to a promise. A pending promise keeps it; a settled one queues its
    /// job at once, and a rejection that was unhandled is handled now.
    pub fn perform_then(&mut self, p: u64, reaction: Reaction)
        requires
            old(self).wf(),
        ensures
            final(self).wf(),
            reacts(*old(self), *final(self), p, reaction),
    {
        if !self.slots.contains_key(&p) {
            return;
        }
        match self.slots.remove(&p) {
            None => {},
            Some(mut s) => {
                if s.status == Status::Pending {
                    s.push_reaction(reaction);
                    self.slots.insert(p, s);
                    assert(self.slots@ =~= old(self).slots@.insert(p, self.slots@[p]));
                    return;
                }
                if s.is_tracked {
                    s.is_tracked = false;
                    self.unhandled = without_id(&self.unhandled, p);
                }
                let job = reaction_job(
                    reaction,
                    s.status == Status::Fulfilled,
                    s.value.duplicate(),
                );
                self.slots.insert(p, s);
                assert(self.slots@ =~= old(self).slots@.insert(p, self.slots@[p]));
                self.microtasks.push(job);
            },
        }
    }
}

/// A reaction is attached to a promise: a pending promise keeps it; a settled one queues its job
/// at once, and a rejection that was unhandled is handled now.
pub open spec fn reacts(before: Promises, after: Promises, p: u64, reaction: Reaction) -> bool {
    if !before.slots@.contains_key(p) {
        after == before
    } else {
        let s = before.slots@[p];
        let k = after.slots@[p];
        &&& after == (Promises {
            slots: after.slots,
            microtasks: after.microtasks,
            unhandled: after.unhandled,
            ..before
        })
        &&& after.slots@.contains_key(p)
        &&& after.slots@ == before.slots@.insert(p, k)
        &&& if s.status == Status::Pending {
            &&& reactions(k) == reactions(s).push(reaction)
            &&& k == PromiseSlot { first: k.first, rest: k.rest, ..s }
            &&& after.microtasks@ == before.microtasks@
            &&& after.unhandled@ == before.unhandled@
        } else {
            &&& k == PromiseSlot { is_tracked: false, ..s }
            &&& after.microtasks@ == before.microtasks@.push(
                job_for(reaction, s.status == Status::Fulfilled, s.value),
            )
            &&& after.unhandled@ == if s.is_tracked {
                handled(before.unhandled@, p)
            } else {
                before.unhandled@
            }
        }
    }
}

} // verus!
