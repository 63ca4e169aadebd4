//! What becomes of promises: reactions, combinators and the objects they hold.

use crate::eval::promise_fast::{
    fresh_promises, job_for, obj_ref, pending_slot, reaction_refs, reactions, reactions_refs,
    reacts, slot_refs, values_refs, Combinator, JobKind, Promises, PromiseSlot, React, Reaction,
    ResolverCell, Settle, Status,
};
use crate::eval::promise_jobs::{
    await_reaction, awaits_directly, ctor_is_intrinsic, is_outcome, is_resolver, records,
    records_element, resolves, settlement, settles_element, Combined, PromiseIntr,
};
use crate::object::{data_of, lookup, Callable, Heap, Object, PropKind};
use crate::value::Value;
use vstd::prelude::*;

verus! {

// ---- reactions ------------------------------------------------------------------------------

/// The job of a reaction: of a `then` it calls the handler for how the promise settled, of a
/// combinator's element it settles that element. It carries the value, the derived promise and
/// the context.
pub proof fn lemma_reactions_run_the_handler_of_the_outcome(r: Reaction, fulfilled: bool, v: Value)
    ensures
        ({
            let j = job_for(r, fulfilled, v);
            &&& j.value == v
            &&& j.fulfilled == fulfilled
            &&& j.result == r.result
            &&& j.context == r.context
            &&& j.idx == r.idx
            &&& r.kind == React::Then && fulfilled ==> j.handler == r.on_f && j.kind
                == JobKind::Reaction
            &&& r.kind == React::Then && !fulfilled ==> j.handler == r.on_r && j.kind
                == JobKind::Reaction
            &&& r.kind != React::Then ==> j.kind == JobKind::Combinator(r.kind)
        }),
{
}

/// An `await` resumes its function, with the context that it was made in, however the promise
/// settles.
pub proof fn lemma_awaits_resume_their_function(p: Value, context: Value, fulfilled: bool, v: Value)
    ensures
        ({
            let j = job_for(await_reaction(p, context), fulfilled, v);
            &&& j.handler == p
            &&& j.context == context
            &&& j.result == Value::Empty
            &&& j.value == v
            &&& j.fulfilled == fulfilled
            &&& j.kind == JobKind::Reaction
        }),
{
}

/// A reaction to a pending promise waits behind those before it, and no job is queued.
pub proof fn lemma_pending_promises_keep_reactions(
    before: Promises,
    after: Promises,
    p: u64,
    r: Reaction,
)
    requires
        reacts(before, after, p, r),
        before.slots@.contains_key(p),
        before.slots@[p].status == Status::Pending,
    ensures
        reactions(after.slots@[p]) == reactions(before.slots@[p]).push(r),
        after.slots@[p].status == Status::Pending,
        after.slots@[p].value == before.slots@[p].value,
        after.microtasks@ == before.microtasks@,
        after.unhandled@ == before.unhandled@,
        forall|q: u64|
            q != p && before.slots@.contains_key(q) ==> after.slots@.contains_key(q)
                && #[trigger] after.slots@[q] == before.slots@[q],
{
}

/// A reaction to a settled promise queues one job behind those there are: the handler for how it
/// settled, with its value. The promise counts as handled.
pub proof fn lemma_settled_promises_queue_a_job(
    before: Promises,
    after: Promises,
    p: u64,
    r: Reaction,
)
    requires
        reacts(before, after, p, r),
        before.slots@.contains_key(p),
        before.slots@[p].status == Status::Fulfilled || before.slots@[p].status == Status::Rejected,
    ensures
        after.microtasks@.len() == before.microtasks@.len() + 1,
        after.microtasks@.drop_last() == before.microtasks@,
        ({
            let j = after.microtasks@.last();
            let ok = before.slots@[p].status == Status::Fulfilled;
            &&& j.value == before.slots@[p].value
            &&& j.fulfilled == ok
            &&& r.kind == React::Then ==> j.handler == if ok {
                r.on_f
            } else {
                r.on_r
            }
            &&& j.result == r.result && j.context == r.context
        }),
        before.slots@[p].is_tracked ==> !after.unhandled@.contains(p),
        !before.slots@[p].is_tracked ==> after.unhandled@ == before.unhandled@,
        forall|q: u64|
            q != p ==> (#[trigger] after.unhandled@.contains(q) <==> before.unhandled@.contains(q)),
        after.slots@[p].status == before.slots@[p].status,
        after.slots@[p].value == before.slots@[p].value,
{
    crate::eval::promise_jobs::lemma_handled_is_gone(before.unhandled@, p);
    assert(after.microtasks@.drop_last() =~= before.microtasks@);
}

/// The state of a promise is its own, or where it was moved onto another one that one's.
pub proof fn lemma_forwarded_promises_have_the_state_of_their_target(
    p: Promises,
    o: u64,
    n: nat,
)
    requires
        p.slots@.contains_key(o),
    ensures
        p.slots@[o].status != Status::Forwarded ==> p.state_of(Value::Obj(o), n) == Some(
            (p.slots@[o].status, p.slots@[o].value),
        ),
        p.slots@[o].status == Status::Forwarded ==> p.state_of(Value::Obj(o), n + 1) == p.state_of(
            p.slots@[o].value,
            n,
        ),
        forall|v: Value|
            !(v matches Value::Obj(q) && p.slots@.contains_key(q)) ==> #[trigger] p.state_of(v, n)
                is None,
{
}

// ---- combinators ----------------------------------------------------------------------------

/// The combinator of a result promise.
pub open spec fn comb_of(p: Promises, o: u64) -> Combinator {
    p.slots@[o].comb->0
}

/// Whether a promise is the result of a combinator.
pub open spec fn combines(p: Promises, o: u64) -> bool {
    p.slots@.contains_key(o) && p.slots@[o].comb is Some
}

/// An element of `allSettled` is recorded as an object that says how it settled: `status` is
/// "fulfilled" and `value` its value, or `status` is "rejected" and `reason` its reason.
pub proof fn lemma_all_settled_says_how_elements_settled(
    before: Promises,
    after: Promises,
    h: Heap,
    k: Heap,
    object_proto: u64,
    o: u64,
    fulfilled: bool,
    idx: u32,
    value: Value,
    r: Combined,
)
    requires
        settles_element(
            before,
            after,
            h,
            k,
            object_proto,
            Value::Obj(o),
            React::AllSettled,
            fulfilled,
            idx,
            value,
            r,
        ),
        combines(before, o),
        comb_of(before, o).remaining > 0,
        idx < comb_of(before, o).values@.len(),
        h.objects@.len() < u64::MAX,
    ensures
        ({
            let n = h.objects@.len() as int;
            let made = k.objects@[n];
            let values = match r {
                Combined::Complete(vs) => vs@,
                _ => comb_of(after, o).values@,
            };
            &&& made.proto == Some(object_proto)
            &&& (data_of(made.props@, "status"@) matches Some(Value::Str(s)) && (fulfilled ==> s@
                == "fulfilled"@) && (!fulfilled ==> s@ == "rejected"@))
            &&& fulfilled ==> data_of(made.props@, "value"@) == Some(value) && lookup(
                made.props@,
                "reason"@,
            ) is None
            &&& !fulfilled ==> data_of(made.props@, "reason"@) == Some(value) && lookup(
                made.props@,
                "value"@,
            ) is None
            &&& values[idx as int] == Value::Obj(n as u64)
            &&& values.len() == comb_of(before, o).values@.len()
            &&& forall|i: int|
                0 <= i < values.len() && i != idx ==> values[i] == #[trigger] comb_of(
                    before,
                    o,
                ).values@[i]
            &&& r is Complete <==> comb_of(before, o).remaining == 1
            &&& comb_of(after, o).remaining == comb_of(before, o).remaining - 1
        }),
{
    let n = h.objects@.len() as int;
    lemma_outcomes_read_back(k.objects@[n], object_proto, fulfilled, value);
}

proof fn lemma_outcomes_read_back(o: Object, object_proto: u64, fulfilled: bool, value: Value)
    requires
        is_outcome(o, object_proto, fulfilled, value),
    ensures
        lookup(o.props@, "status"@) == Some(o.props@[0].1),
        fulfilled ==> lookup(o.props@, "value"@) == Some(o.props@[1].1) && lookup(
            o.props@,
            "reason"@,
        ) is None,
        !fulfilled ==> lookup(o.props@, "reason"@) == Some(o.props@[1].1) && lookup(
            o.props@,
            "value"@,
        ) is None,
{
    reveal_strlit("status");
    reveal_strlit("value");
    reveal_strlit("reason");
    assert("status"@[0] == 's' && "value"@[0] == 'v' && "reason"@[0] == 'r');
    crate::object::lemma_index_of_key_is(o.props@, "status"@, 0);
    if fulfilled {
        crate::object::lemma_index_of_key_is(o.props@, "value"@, 1);
        crate::object::lemma_index_of_key_is(o.props@, "reason"@, 2);
    } else {
        crate::object::lemma_index_of_key_is(o.props@, "reason"@, 1);
        crate::object::lemma_index_of_key_is(o.props@, "value"@, 2);
    }
}

/// What `all` waits for are fulfilments, what `any` waits for rejections: such an element is put
/// in its place, and the last one in hands out all of them. The heap is as it was.
pub proof fn lemma_awaited_elements_are_put_in_their_place(
    before: Promises,
    after: Promises,
    h: Heap,
    k: Heap,
    object_proto: u64,
    o: u64,
    any: bool,
    idx: u32,
    value: Value,
    r: Combined,
)
    requires
        settles_element(
            before,
            after,
            h,
            k,
            object_proto,
            Value::Obj(o),
            if any {
                React::Any
            } else {
                React::All
            },
            !any,
            idx,
            value,
            r,
        ),
        combines(before, o),
        comb_of(before, o).remaining > 0,
        idx < comb_of(before, o).values@.len(),
    ensures
        k == h,
        comb_of(after, o).remaining == comb_of(before, o).remaining - 1,
        comb_of(before, o).remaining == 1 ==> (r matches Combined::Complete(vs) && vs@ == comb_of(
            before,
            o,
        ).values@.update(idx as int, value)),
        comb_of(before, o).remaining > 1 ==> r is Nothing && comb_of(after, o).values@ == comb_of(
            before,
            o,
        ).values@.update(idx as int, value),
{
}

/// A rejection decides `all`, a fulfilment decides `any`, and the first element decides `race`:
/// the result is settled in the same way, with the element's value, unless it was before.
pub proof fn lemma_deciding_elements_settle_the_result(
    before: Promises,
    after: Promises,
    h: Heap,
    k: Heap,
    object_proto: u64,
    o: u64,
    mode: React,
    fulfilled: bool,
    idx: u32,
    value: Value,
    r: Combined,
)
    requires
        settles_element(
            before,
            after,
            h,
            k,
            object_proto,
            Value::Obj(o),
            mode,
            fulfilled,
            idx,
            value,
            r,
        ),
        mode == React::Race || (mode == React::All && !fulfilled) || (mode == React::Any
            && fulfilled),
        combines(before, o),
    ensures
        k == h,
        !comb_of(before, o).already ==> (r matches Combined::Settled(s) && s.promise == Value::Obj(
            o,
        ) && s.fulfil == fulfilled && s.value == value) && comb_of(after, o).already,
        comb_of(before, o).already ==> r is Nothing && after == before,
{
}

/// A result that was settled stays so: nothing settles it again.
pub proof fn lemma_results_are_settled_once(
    a: Promises,
    b: Promises,
    c: Promises,
    result: Value,
    fulfil: bool,
    v: Value,
    r: Option<Settle>,
    again: bool,
    w: Value,
    s: Option<Settle>,
)
    requires
        resolves(a, b, result, fulfil, v, r),
        resolves(b, c, result, again, w, s),
    ensures
        s is None,
        c == b,
        r matches Some(x) ==> x.promise == result && x.fulfil == fulfil && x.value == v,
        r is Some <==> (result matches Value::Obj(o) && combines(a, o) && !comb_of(a, o).already),
        r is Some ==> {
            let o = result->Obj_0;
            &&& combines(b, o)
            &&& comb_of(b, o).already
            &&& comb_of(b, o).remaining == comb_of(a, o).remaining
            &&& comb_of(b, o).values@.len() == 0
            &&& b.slots@[o].status == a.slots@[o].status
            &&& b.slots@[o].value == a.slots@[o].value
            &&& b.slots@.remove(o) == a.slots@.remove(o)
            &&& b.microtasks == a.microtasks
            &&& b.unhandled == a.unhandled
        },
        r is None ==> b == a,
{
    if r is Some {
        let o = result->Obj_0;
        assert(b.slots@.remove(o) =~= a.slots@.remove(o));
    }
}

/// Which elements are waited for.
pub proof fn lemma_combinators_wait_for(fulfilled: bool)
    ensures
        records(React::All, fulfilled) == fulfilled,
        records(React::Any, fulfilled) == !fulfilled,
        records(React::AllSettled, fulfilled),
        !records(React::Race, fulfilled),
        !records(React::Then, fulfilled),
{
}

/// A resolving function fulfils or rejects through its cell; it takes one argument and has no
/// name.
pub proof fn lemma_resolvers_are_functions(o: Object, proto: u64, cell: usize, fulfil: bool)
    requires
        is_resolver(o, proto, cell, fulfil),
    ensures
        o.call == Callable::Resolver(cell, fulfil),
        o.proto == Some(proto),
        o.spec_is_fn(),
        !o.is_constructor,
        data_of(o.props@, "length"@) matches Some(Value::Num(n)) && crate::num::integer_value(n)
            == Some(1int),
        data_of(o.props@, "name"@) matches Some(Value::Str(s)) && s@.len() == 0,
{
    crate::object_laws::lemma_functions_have_a_length_and_a_name(o, proto, o.call, 1, ""@);
    reveal_strlit("");
}

// ---- what is kept alive ---------------------------------------------------------------------

/// `v` is the object `o`.
pub open spec fn is_obj(v: Value, o: u64) -> bool {
    v == Value::Obj(o)
}

/// A reaction holds an object.
pub open spec fn reaction_holds(r: Reaction, o: u64) -> bool {
    is_obj(r.on_f, o) || is_obj(r.on_r, o) || is_obj(r.result, o) || is_obj(r.context, o)
}

proof fn lemma_reaction_refs(r: Reaction, o: u64)
    ensures
        reaction_refs(r).contains(o) <==> reaction_holds(r, o),
{
    let (a, b, c, d) = (obj_ref(r.on_f), obj_ref(r.on_r), obj_ref(r.result), obj_ref(r.context));
    lemma_obj_ref(r.on_f, o);
    lemma_obj_ref(r.on_r, o);
    lemma_obj_ref(r.result, o);
    lemma_obj_ref(r.context, o);
    lemma_in_sum(a, b, o);
    lemma_in_sum(a + b, c, o);
    lemma_in_sum(a + b + c, d, o);
}

proof fn lemma_obj_ref(v: Value, o: u64)
    ensures
        obj_ref(v).contains(o) <==> is_obj(v, o),
{
    if is_obj(v, o) {
        assert(obj_ref(v)[0] == o);
    }
}

proof fn lemma_in_sum(a: Seq<u64>, b: Seq<u64>, o: u64)
    ensures
        (a + b).contains(o) <==> a.contains(o) || b.contains(o),
{
    if a.contains(o) {
        let i = choose|i: int| 0 <= i < a.len() && a[i] == o;
        assert((a + b)[i] == o);
    }
    if b.contains(o) {
        let i = choose|i: int| 0 <= i < b.len() && b[i] == o;
        assert((a + b)[a.len() + i] == o);
    }
    if (a + b).contains(o) {
        let i = choose|i: int| 0 <= i < (a + b).len() && (a + b)[i] == o;
        if i < a.len() {
            assert(a[i] == o);
        } else {
            assert(b[i - a.len()] == o);
        }
    }
}

proof fn lemma_reactions_refs(rs: Seq<Reaction>, o: u64)
    ensures
        reactions_refs(rs).contains(o) <==> exists|i: int|
            0 <= i < rs.len() && reaction_holds(#[trigger] rs[i], o),
    decreases rs.len(),
{
    if rs.len() > 0 {
        let d = rs.drop_last();
        lemma_reactions_refs(d, o);
        lemma_reaction_refs(rs.last(), o);
        lemma_in_sum(reactions_refs(d), reaction_refs(rs.last()), o);
        assert(rs.last() == rs[rs.len() - 1]);
        if reactions_refs(d).contains(o) {
            let i = choose|i: int| 0 <= i < d.len() && reaction_holds(#[trigger] d[i], o);
            assert(reaction_holds(rs[i], o));
        }
        if exists|i: int| 0 <= i < rs.len() && reaction_holds(#[trigger] rs[i], o) {
            let i = choose|i: int| 0 <= i < rs.len() && reaction_holds(#[trigger] rs[i], o);
            if i < d.len() {
                assert(reaction_holds(d[i], o));
            }
        }
    }
}

proof fn lemma_values_refs(vs: Seq<Value>, o: u64)
    ensures
        values_refs(vs).contains(o) <==> exists|i: int|
            0 <= i < vs.len() && is_obj(#[trigger] vs[i], o),
    decreases vs.len(),
{
    if vs.len() > 0 {
        let d = vs.drop_last();
        lemma_values_refs(d, o);
        lemma_obj_ref(vs.last(), o);
        lemma_in_sum(values_refs(d), obj_ref(vs.last()), o);
        assert(vs.last() == vs[vs.len() - 1]);
        if values_refs(d).contains(o) {
            let i = choose|i: int| 0 <= i < d.len() && is_obj(#[trigger] d[i], o);
            assert(is_obj(vs[i], o));
        }
        if exists|i: int| 0 <= i < vs.len() && is_obj(#[trigger] vs[i], o) {
            let i = choose|i: int| 0 <= i < vs.len() && is_obj(#[trigger] vs[i], o);
            if i < d.len() {
                assert(is_obj(d[i], o));
            }
        }
    }
}

/// The objects that a promise keeps alive are those of its value, of its reactions and of what
/// its combinator collected, and no others.
pub proof fn lemma_promises_keep_what_they_hold(s: PromiseSlot, o: u64)
    ensures
        slot_refs(s).contains(o) <==> {
            ||| is_obj(s.value, o)
            ||| exists|i: int|
                0 <= i < reactions(s).len() && reaction_holds(#[trigger] reactions(s)[i], o)
            ||| s.comb is Some && exists|i: int|
                0 <= i < s.comb->0.values@.len() && is_obj(#[trigger] s.comb->0.values@[i], o)
        },
{
    let a = obj_ref(s.value);
    let b = reactions_refs(reactions(s));
    lemma_obj_ref(s.value, o);
    lemma_reactions_refs(reactions(s), o);
    lemma_in_sum(a, b, o);
    match s.comb {
        Some(c) => {
            lemma_values_refs(c.values@, o);
            lemma_in_sum(a + b, values_refs(c.values@), o);
        },
        None => {
            lemma_in_sum(a + b, Seq::empty(), o);
        },
    }
}

// ---- silent paths ---------------------------------------------------------------------------

/// An `await` goes on at once only while no job waits and nothing stops the realm, and of a promise
/// only when it is settled and reading its `constructor` is not seen.
pub proof fn lemma_direct_awaits_skip_no_job(
    p: Promises,
    heap: Heap,
    intr: Option<&PromiseIntr>,
    awaited: Value,
    terminating: bool,
    poll_ok: bool,
)
    ensures
        awaits_directly(p, heap, intr, awaited, terminating, poll_ok) ==> p.microtasks@.len() == 0
            && !terminating && poll_ok,
        !(awaited is Obj) && p.microtasks@.len() == 0 && !terminating && poll_ok
            ==> awaits_directly(p, heap, intr, awaited, terminating, poll_ok),
        awaited matches Value::Obj(o) ==> (awaits_directly(
            p,
            heap,
            intr,
            awaited,
            terminating,
            poll_ok,
        ) <==> p.microtasks@.len() == 0 && !terminating && poll_ok && p.slots@.contains_key(o)
            && p.slots@[o].status != Status::Pending && p.slots@[o].status != Status::Forwarded
            && intr is Some && heap.has(o) && heap.at(o).proto == Some(intr->0.proto) && lookup(
            heap.at(o).props@,
            "constructor"@,
        ) is None && heap.has(intr->0.proto) && data_of(
            heap.at(intr->0.proto).props@,
            "constructor"@,
        ) == Some(Value::Obj(intr->0.ctor))),
{
}

/// A resolving function settles its promise once: with the value, and fulfilling or rejecting as
/// it is; after that it settles nothing.
pub proof fn lemma_resolving_functions_settle_once(c: ResolverCell, fulfil: bool, value: Value)
    ensures
        c.already ==> settlement(c, fulfil, value) is None,
        !c.already ==> (settlement(c, fulfil, value) matches Some(s) && s.promise == c.promise
            && s.fulfil == fulfil && s.value == value),
{
}

/// A combinator's element is stored in its place and counted; the last one hands out all values,
/// and what is no combinator records nothing.
pub proof fn lemma_combinators_count_their_elements(
    before: Promises,
    after: Promises,
    o: u64,
    element: Option<(u32, Value)>,
    r: Option<Vec<Value>>,
    j: int,
)
    requires
        records_element(before, after, Value::Obj(o), element, r),
        before.slots@.contains_key(o),
        before.slots@[o].comb is Some,
        before.slots@[o].comb->0.remaining > 0,
    ensures
        ({
            let c0 = before.slots@[o].comb->0;
            &&& after.slots@.contains_key(o)
            &&& after.slots@[o].comb matches Some(c)
            &&& c.remaining == c0.remaining - 1
            &&& c.already == c0.already
            &&& r is Some <==> c0.remaining == 1
            &&& r matches Some(vs) ==> vs@.len() == c0.values@.len()
            &&& (element matches Some((i, v)) && r is Some && i < c0.values@.len()) ==> r->0@[(
            element->0).0 as int] == (element->0).1
            &&& r is Some && 0 <= j < c0.values@.len() && !(element matches Some((i, _)) && i == j)
                ==> r->0@[j] == c0.values@[j]
            &&& (element matches Some((i, v)) && r is None && i < c0.values@.len())
                ==> c.values@[(element->0).0 as int] == (element->0).1
            &&& r is None && 0 <= j < c0.values@.len() && !(element matches Some((i, _)) && i == j)
                ==> c.values@[j] == c0.values@[j]
            &&& r is None ==> c.values@.len() == c0.values@.len()
            &&& r is Some ==> c.values@.len() == 0
        }),
        after.slots@[o].status == before.slots@[o].status,
        after.slots@[o].value == before.slots@[o].value,
        after.slots@[o].first == before.slots@[o].first,
        after.slots@[o].rest == before.slots@[o].rest,
        after.microtasks == before.microtasks,
        after.unhandled == before.unhandled,
        forall|p: u64| p != o ==> (after.slots@.contains_key(p) <==> #[trigger] before.slots@.contains_key(p)),
{
}

/// A new promise is pending: nothing waits for it, and nothing is known of it. A realm starts
/// with none.
pub proof fn lemma_new_promises_are_pending(s: PromiseSlot, r: Promises, v: Value)
    ensures
        pending_slot(s) ==> s.status is Pending && s.value is Undefined && s.first is None
            && s.rest@.len() == 0 && s.comb is None && s.coro is None && !s.is_tracked,
        fresh_promises(r) ==> {
            &&& !r.spec_is_promise(v)
            &&& r.microtasks@.len() == 0
            &&& r.unhandled@.len() == 0
            &&& r.cells@.len() == 0
            &&& r.async_context is Undefined
            &&& !r.job_root
            &&& r.await_call is None
        },
        r.spec_is_promise(v) <==> v is Obj && r.slots@.contains_key(v->Obj_0),
{
}

/// The promise prototype is as built in while its `constructor` is a data property that holds
/// the promise constructor.
pub proof fn lemma_the_constructor_is_intrinsic(heap: Heap, i: PromiseIntr)
    ensures
        ctor_is_intrinsic(heap, i) <==> heap.has(i.proto) && lookup(
            heap.at(i.proto).props@,
            "constructor"@,
        ) is Some && lookup(heap.at(i.proto).props@, "constructor"@)->0.kind == PropKind::Data(
            Value::Obj(i.ctor),
        ),
{
}

} // verus!
