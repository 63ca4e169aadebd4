//! Promises: reactions, resolving functions, combinators and awaits.

use lumen::eval::promise_fast::{
    reaction_job, Combinator, Job, JobKind, Promises, React, Reaction, Status,
};
use lumen::eval::promise_jobs::{
    element_step, fresh_promise_ctor_get_is_silent, is_intrinsic_then, Combined, ElementStep,
    PromiseIntr, Resume,
};
use lumen::object::{Heap, Object, Property};
use lumen::value::Value;

fn then(result: u64) -> Reaction {
    Reaction::new_then(Value::Obj(90), Value::Obj(91), Value::Obj(result), Value::Undefined)
}

#[test]
fn promises_start_pending() {
    let mut p = Promises::new();
    p.make_promise(5);
    assert!(p.is_promise(&Value::Obj(5)));
    assert!(!p.is_promise(&Value::Obj(6)) && !p.is_promise(&Value::Null));
    assert!(matches!(p.promise_state(&Value::Obj(5)), Some((Status::Pending, _))));
    assert!(p.promise_state(&Value::Null).is_none());
}

#[test]
fn reactions_wait_for_a_pending_promise() {
    let mut p = Promises::new();
    p.make_promise(5);
    p.perform_then(5, then(6));
    p.perform_then(5, then(7));
    assert!(p.microtasks.is_empty());
    let s = p.slots.get_mut(&5).unwrap();
    assert!(s.first.is_some() && s.rest.len() == 1);
    s.status = Status::Fulfilled;
    s.value = Value::Bool(true);
    p.perform_then(5, then(8));
    assert_eq!(p.microtasks.len(), 1);
    assert!(matches!(p.microtasks[0].value, Value::Bool(true)));
    assert!(p.microtasks[0].fulfilled);
}

#[test]
fn jobs_take_the_handler_of_the_outcome() {
    let f = reaction_job(then(6), true, Value::Null);
    assert!(matches!(f.handler, Value::Obj(90)) && f.fulfilled);
    let r = reaction_job(then(6), false, Value::Null);
    assert!(matches!(r.handler, Value::Obj(91)) && !r.fulfilled);
    assert_eq!(f.kind, JobKind::Reaction);
}

#[test]
fn resolving_functions_settle_once() {
    let mut heap = Heap::new();
    let proto = heap.add_object(Object::new(None));
    let mut p = Promises::new();
    p.make_promise(5);
    let (res, rej) = p.make_resolver_pair(&mut heap, proto, &Value::Obj(5));
    assert!(heap.get(res).is_fn() && heap.get(rej).is_fn());
    let s = p.call_promise_resolver(0, true, &vec![Value::Bool(true)]).unwrap();
    assert!(s.fulfil && matches!(s.value, Value::Bool(true)));
    assert!(p.call_promise_resolver(0, false, &Vec::new()).is_none());
}

#[test]
fn combinators_differ_in_what_they_record() {
    assert!(matches!(element_step(React::All, true), ElementStep::Record { wrap: false }));
    assert!(matches!(element_step(React::All, false), ElementStep::Resolve));
    assert!(matches!(element_step(React::AllSettled, false), ElementStep::Record { wrap: true }));
    assert!(matches!(element_step(React::Any, true), ElementStep::Resolve));
    assert!(matches!(element_step(React::Any, false), ElementStep::Record { wrap: false }));
    assert!(matches!(element_step(React::Race, false), ElementStep::Resolve));
}

#[test]
fn suspended_bodies_are_parked_at_their_promise() {
    let mut p = Promises::new();
    p.make_promise(5);
    p.park_async_coro(&Value::Obj(5), 33);
    assert_eq!(p.take_async_coro(&Value::Obj(5)), Some(33));
    assert_eq!(p.take_async_coro(&Value::Obj(5)), None);
}

#[test]
fn await_requests_are_for_one_call() {
    let mut p = Promises::new();
    p.note_await_call(&Value::Obj(4), 7);
    assert!(!p.take_await_call(3, 8) || p.await_call.is_none());
    p.note_await_call(&Value::Obj(4), 7);
    p.clear_await_call();
    assert!(p.await_call.is_none());
    let intr = PromiseIntr { proto: 1, ctor: 2, then_fn: 3 };
    assert!(is_intrinsic_then(Some(&intr), &Value::Obj(3)));
    assert!(!is_intrinsic_then(Some(&intr), &Value::Obj(4)));
    assert!(!is_intrinsic_then(None, &Value::Obj(3)));
}

#[test]
fn awaited_primitives_resume_directly() {
    let heap = Heap::new();
    let mut p = Promises::new();
    p.job_root = true;
    let r = p.await_direct(&heap, None, &Value::Bool(true), false, true);
    if let Some(Resume::Next(v)) = r {
        assert!(matches!(v, Value::Bool(true)));
    }
    assert!(p.await_direct(&heap, None, &Value::Bool(true), true, true).is_none());
}

fn job(kind: JobKind, value: Value, idx: u32) -> Job {
    Job {
        handler: Value::Obj(60),
        result: Value::Obj(5),
        value,
        fulfilled: true,
        kind,
        idx,
        context: Value::Bool(true),
    }
}

#[test]
fn awaited_primitives_are_queued_as_fulfilled() {
    let mut p = Promises::new();
    let failed = p.await_subscribe(&Value::Obj(4), &Value::Obj(9), Err(Value::Bool(true)));
    assert!(matches!(failed, Err(Value::Bool(true))));
    assert!(p.microtasks.is_empty());
    assert!(p.await_subscribe(&Value::Null, &Value::Obj(9), Err(Value::Null)).is_ok());
    assert_eq!(p.microtasks.len(), 1);
    let j = p.microtasks.remove(0);
    assert!(j.fulfilled && matches!(j.result, Value::Empty) && matches!(j.handler, Value::Obj(9)));
    let (outer, coro, signal) = p.begin_await_job(j, true, true).unwrap();
    assert!(matches!(coro, Value::Obj(9)) && matches!(signal, Resume::Next(Value::Null)));
    assert!(p.take_await_job_root());
    assert!(!p.take_await_job_root());
    p.end_await_job(outer);
    assert!(matches!(p.async_context, Value::Undefined));
    let mut thrown = job(JobKind::Reaction, Value::Bool(false), 0);
    thrown.fulfilled = false;
    let (_, _, signal) = p.begin_await_job(thrown, false, true).unwrap();
    assert!(matches!(signal, Resume::Throw(Value::Bool(false))));
    assert!(matches!(p.async_context, Value::Bool(true)));
}

#[test]
fn combinators_complete_with_their_last_element() {
    let mut heap = Heap::new();
    let proto = heap.add_object(Object::new(None));
    let mut p = Promises::new();
    p.make_promise(5);
    p.slots.get_mut(&5).unwrap().comb =
        Some(Combinator { values: vec![Value::Undefined, Value::Undefined], remaining: 2, already: false });
    let all = |v: Value, i: u32| job(JobKind::Combinator(React::All), v, i);
    let r = p.run_combinator_job(&mut heap, proto, React::All, all(Value::Bool(true), 1));
    assert!(matches!(r, Combined::Nothing));
    let r = p.run_combinator_job(&mut heap, proto, React::All, all(Value::Null, 0));
    match r {
        Combined::Complete(vs) => {
            assert!(matches!(vs[0], Value::Null) && matches!(vs[1], Value::Bool(true)));
        }
        _ => panic!("the last element completes the result"),
    }
    let s = p.combinator_finish(&Value::Obj(5), false, Value::Obj(44)).unwrap();
    assert!(s.fulfil && matches!(s.value, Value::Obj(44)));
    assert!(p.combinator_finish(&Value::Obj(5), false, Value::Obj(44)).is_none());
}

#[test]
fn a_rejection_settles_all_at_once() {
    let mut heap = Heap::new();
    let proto = heap.add_object(Object::new(None));
    let mut p = Promises::new();
    p.make_promise(5);
    p.slots.get_mut(&5).unwrap().comb =
        Some(Combinator { values: vec![Value::Undefined], remaining: 1, already: false });
    let mut j = job(JobKind::Combinator(React::All), Value::Bool(true), 0);
    j.fulfilled = false;
    match p.run_combinator_job(&mut heap, proto, React::All, j) {
        Combined::Settled(s) => assert!(!s.fulfil && matches!(s.value, Value::Bool(true))),
        _ => panic!("a rejection settles the result"),
    }
}

#[test]
fn a_race_settles_with_nothing_to_wait_for() {
    let mut heap = Heap::new();
    let proto = heap.add_object(Object::new(None));
    for fulfilled in [true, false] {
        let mut p = Promises::new();
        p.make_promise(5);
        p.slots.get_mut(&5).unwrap().comb =
            Some(Combinator { values: Vec::new(), remaining: 0, already: false });
        let mut j = job(JobKind::Combinator(React::Race), Value::Bool(true), 0);
        j.fulfilled = fulfilled;
        match p.run_combinator_job(&mut heap, proto, React::Race, j) {
            Combined::Settled(s) => {
                assert!(s.fulfil == fulfilled && matches!(s.value, Value::Bool(true)));
            }
            _ => panic!("the first element settles the result"),
        }
    }
}

#[test]
fn thenables_are_called_with_resolving_functions() {
    let mut heap = Heap::new();
    let proto = heap.add_object(Object::new(None));
    let mut p = Promises::new();
    p.make_promise(5);
    let j = job(JobKind::Thenable, Value::Obj(8), 0);
    let (res, rej, outer) = p.begin_thenable_call(&mut heap, proto, &j);
    assert!(heap.get(res).is_fn() && heap.get(rej).is_fn() && res != rej);
    assert!(matches!(p.async_context, Value::Bool(true)));
    let s = p.end_thenable_call(0, Some(Value::Null), outer).unwrap();
    assert!(!s.fulfil && matches!(s.promise, Value::Obj(5)));
    assert!(matches!(p.async_context, Value::Undefined));
    assert!(p.end_thenable_call(0, Some(Value::Null), Value::Undefined).is_none());
    // The intrinsic `then` of a silent promise needs no call.
    p.make_promise(8);
    assert!(!p.run_thenable_job(job(JobKind::Thenable, Value::Obj(8), 0), true, false));
    assert!(p.run_thenable_job(job(JobKind::Thenable, Value::Obj(8), 0), true, true));
    assert!(p.slots[&8].first.is_some());
}

#[test]
fn slots_list_the_objects_they_keep_alive() {
    let mut p = Promises::new();
    p.make_promise(5);
    p.perform_then(5, then(6));
    let mut refs: Vec<u64> = vec![1];
    p.slots[&5].object_refs(&mut refs);
    assert!(refs.contains(&1) && refs.contains(&6) && refs.contains(&90) && refs.contains(&91));
}

#[test]
fn reading_the_constructor_of_a_promise_is_silent_while_it_is_intrinsic() {
    let mut heap = Heap::new();
    let proto = heap.add_object(Object::new(None));
    let ctor = heap.add_object(Object::new(None));
    heap.set_prop(proto, "constructor", Property::builtin(Value::Obj(ctor)));
    let intr = PromiseIntr { proto, ctor, then_fn: 3 };
    assert!(fresh_promise_ctor_get_is_silent(&heap, Some(&intr)));
    assert!(!fresh_promise_ctor_get_is_silent(&heap, None));
    heap.set_prop(proto, "constructor", Property::builtin(Value::Null));
    assert!(!fresh_promise_ctor_get_is_silent(&heap, Some(&intr)));
}

#[test]
fn awaited_promises_react_with_the_async_promise() {
    let mut p = Promises::new();
    p.make_promise(5);
    assert!(p.await_subscribe(&Value::Obj(5), &Value::Obj(9), Ok(5)).is_ok());
    assert!(p.microtasks.is_empty());
    let r = p.slots.get(&5).unwrap().first.as_ref().unwrap();
    assert!(matches!((&r.on_f, &r.on_r), (Value::Obj(9), Value::Obj(9))));
    assert!(matches!(r.result, Value::Empty) && r.kind == React::Then && r.idx == 0);
    // A safe point that fails drops the job.
    let j = job(JobKind::Reaction, Value::Null, 0);
    assert!(p.begin_await_job(j, true, false).is_none());
    assert!(matches!(p.async_context, Value::Undefined));
    assert!(!p.take_await_job_root());
}
