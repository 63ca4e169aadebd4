//! Promises that the host settles, and promise results.

use crate::embed_convert::convert::{made, IntoJs};
use crate::embed_convert::desc::ClassDesc;
use crate::embed_convert::op_error::{IntoOpError, OpError, OpErrorView};
use crate::eval::promise_fast::{pending_slot, Promises, ResolverCell, Settle};
use crate::eval::promise_jobs::is_resolver;
use crate::interpreter::interp::Interp;
use crate::object::{plain_object, Callable, Object, Property};
use crate::value::Value;
use vstd::prelude::*;

verus! {

broadcast use vstd::std_specs::hash::group_hash_axioms;

/// How a promise is settled: fulfilled with a value, or rejected with an error.
pub struct Settlement {
    pub promise: Value,
    pub outcome: Result<Value, OpError>,
}

/// A pending promise that was just made after the objects of `before`.
pub open spec fn made_promise(before: Interp, after: Interp, p: Value) -> bool {
    let id = before.heap.objects@.len() as u64;
    let o = after.heap.at(id);
    &&& p == Value::Obj(id)
    &&& after.heap.objects@.len() == before.heap.objects@.len() + 1
    &&& after.heap.objects@.take(id as int) == before.heap.objects@
    &&& plain_object(o, Some(before.promise_proto), Callable::Promise(id as usize), false)
    &&& o.props@ == Seq::<(Seq<char>, Property)>::empty()
    &&& after.promises.slots@.contains_key(id)
    &&& after.promises.slots@ == before.promises.slots@.insert(id, after.promises.slots@[id])
    &&& pending_slot(after.promises.slots@[id])
    &&& after == Interp {
        heap: after.heap,
        promises: Promises { slots: after.promises.slots, ..before.promises },
        ..before
    }
}

/// A pending promise whose settling is the host's. Dropped unsettled, it stays pending.
pub struct Deferred {
    promise: Value,
}

impl Deferred {
    pub closed spec fn spec_promise(self) -> Value {
        self.promise
    }

    /// A new pending promise.
    pub fn new(ctx: &mut Interp) -> (r: Deferred)
        requires
            old(ctx).wf(),
            old(ctx).room(1),
        ensures
            final(ctx).wf(),
            made_promise(*old(ctx), *final(ctx), r.spec_promise()),
    {
        let mut o = Object::new(Some(ctx.promise_proto));
        let n: usize = ctx.heap.objects.len();
        o.call = Callable::Promise(n);
        let id = ctx.heap.add_object(o);
        ctx.promises.make_promise(id);
        assert(ctx.heap.objects@.take(id as int) =~= old(ctx).heap.objects@);
        Deferred { promise: Value::Obj(id) }
    }

    /// The promise.
    pub fn promise(&self) -> (r: Value)
        ensures
            r == self.spec_promise(),
    {
        self.promise.duplicate()
    }

    /// Fulfils with a value; an error in its conversion rejects.
    pub fn resolve<T: IntoJs>(self, v: T) -> (r: Settlement)
        ensures
            r.promise == self.spec_promise(),
            made(r.outcome, v.makes()),
    {
        Settlement { promise: self.promise, outcome: v.into_js() }
    }

    /// Rejects with an error.
    pub fn reject<E: IntoOpError>(self, e: E) -> (r: Settlement)
        ensures
            r.promise == self.spec_promise(),
            r.outcome matches Err(x) && x@ == e.failure(),
    {
        Settlement { promise: self.promise, outcome: Err(e.into_op_error()) }
    }

    /// The promise's resolving functions.
    pub fn resolving_functions(&self, ctx: &mut Interp) -> (r: (Value, Value))
        requires
            old(ctx).wf(),
            old(ctx).room(2),
        ensures
            final(ctx).wf(),
            ({
                let n = old(ctx).heap.objects@.len() as int;
                let cell = old(ctx).promises.cells@.len();
                &&& r == (Value::Obj(n as u64), Value::Obj((n + 1) as u64))
                &&& final(ctx).heap.objects@.len() == n + 2
                &&& final(ctx).heap.objects@.take(n) == old(ctx).heap.objects@
                &&& is_resolver(
                    final(ctx).heap.objects@[n],
                    old(ctx).function_proto,
                    cell as usize,
                    true,
                )
                &&& is_resolver(
                    final(ctx).heap.objects@[n + 1],
                    old(ctx).function_proto,
                    cell as usize,
                    false,
                )
                &&& final(ctx).promises.cells@ == old(ctx).promises.cells@.push(
                    ResolverCell { promise: self.spec_promise(), already: false },
                )
                &&& *final(ctx) == Interp {
                    heap: final(ctx).heap,
                    promises: Promises {
                        cells: final(ctx).promises.cells,
                        ..old(ctx).promises
                    },
                    ..*old(ctx)
                }
            }),
    {
        let function_proto = ctx.function_proto;
        let (res, rej) = ctx.promises.make_resolver_pair(
            &mut ctx.heap,
            function_proto,
            &self.promise,
        );
        assert(ctx.heap.objects@.take(old(ctx).heap.objects@.len() as int)
            =~= old(ctx).heap.objects@);
        (Value::Obj(res), Value::Obj(rej))
    }
}

/// What a promise result is.
pub enum PromiseRepr<T> {
    Ready(Result<T, OpError>),
    Pending(Value),
}

/// A promise result: settled now, or tied to a [`Deferred`] that the host settles later.
pub struct Promise<T>(PromiseRepr<T>);

impl<T> View for Promise<T> {
    type V = PromiseRepr<T>;

    closed spec fn view(&self) -> PromiseRepr<T> {
        self.0
    }
}

impl<T> Promise<T> {
    /// Fulfilled with a value.
    pub fn resolved(v: T) -> (r: Promise<T>)
        ensures
            r@ == PromiseRepr::Ready(Ok::<T, OpError>(v)),
    {
        Promise(PromiseRepr::Ready(Ok(v)))
    }

    /// Rejected with an error.
    pub fn rejected<E: IntoOpError>(e: E) -> (r: Promise<T>)
        ensures
            r@ matches PromiseRepr::Ready(Err(x)) && x@ == e.failure(),
    {
        Promise(PromiseRepr::Ready(Err(e.into_op_error())))
    }

    /// Settled with a result.
    pub fn ready<E: IntoOpError>(x: Result<T, E>) -> (r: Promise<T>)
        ensures
            match x {
                Ok(v) => r@ == PromiseRepr::Ready(Ok::<T, OpError>(v)),
                Err(e) => r@ matches PromiseRepr::Ready(Err(y)) && y@ == e.failure(),
            },
    {
        match x {
            Ok(v) => Promise::resolved(v),
            Err(e) => Promise::rejected(e),
        }
    }

    /// The promise that the host settles later.
    pub fn pending(d: &Deferred) -> (r: Promise<T>)
        ensures
            r@ == PromiseRepr::<T>::Pending(d.spec_promise()),
    {
        Promise(PromiseRepr::Pending(d.promise()))
    }
}

impl<T: IntoJs> Promise<T> {
    /// The promise as a value, and how a result that is there settles it.
    pub fn into_js(self, ctx: &mut Interp) -> (r: (Value, Option<Settlement>))
        requires
            old(ctx).wf(),
            old(ctx).room(1),
        ensures
            final(ctx).wf(),
            match self@ {
                PromiseRepr::Pending(p) => r.0 == p && r.1 is None && *final(ctx) == *old(ctx),
                PromiseRepr::Ready(x) => {
                    &&& made_promise(*old(ctx), *final(ctx), r.0)
                    &&& r.1 matches Some(s)
                    &&& s.promise == r.0
                    &&& match x {
                        Ok(v) => made(s.outcome, v.makes()),
                        Err(e) => s.outcome == Err::<Value, OpError>(e),
                    }
                },
            },
    {
        match self.0 {
            PromiseRepr::Pending(p) => (p, None),
            PromiseRepr::Ready(x) => {
                let d = Deferred::new(ctx);
                let p = d.promise();
                let s = match x {
                    Ok(v) => d.resolve(v),
                    Err(e) => Settlement { promise: d.promise(), outcome: Err(e) },
                };
                (p, Some(s))
            },
        }
    }
}

impl Interp {
    /// A new pending promise and its settle handle.
    pub fn new_deferred(&mut self) -> (r: Deferred)
        requires
            old(self).wf(),
            old(self).room(1),
        ensures
            final(self).wf(),
            made_promise(*old(self), *final(self), r.spec_promise()),
    {
        Deferred::new(self)
    }
}

/// Turns the outcome of an op that returns a promise, argument errors included, into a settled
/// promise.
pub fn async_ret(ctx: &mut Interp, r: Result<Value, Value>) -> (p: (Value, Settle))
    requires
        old(ctx).wf(),
        old(ctx).room(1),
    ensures
        final(ctx).wf(),
        made_promise(*old(ctx), *final(ctx), p.0),
        p.1 == (Settle {
            promise: p.0,
            fulfil: r is Ok,
            value: match r {
                Ok(v) => v,
                Err(e) => e,
            },
        }),
{
    let d = Deferred::new(ctx);
    let p = d.promise();
    let s = match r {
        Ok(v) => Settle { promise: d.promise(), fulfil: true, value: v },
        Err(e) => Settle { promise: d.promise(), fulfil: false, value: e },
    };
    (p, s)
}

/// A host type that is exposed as a class.
pub trait Class: Sized {
    /// Its constructor and members.
    fn class_desc() -> ClassDesc;
}

/// The members of a class, from which its descriptor comes.
pub trait ClassMethods {
    fn desc() -> ClassDesc;
}

/// What a class constructor may return.
pub trait CtorReturn<T>: Sized {
    spec fn outcome(self) -> Result<T, OpErrorView>;

    fn into_ctor_result(self) -> (r: Result<T, OpError>)
        ensures
            match (r, self.outcome()) {
                (Ok(v), Ok(w)) => v == w,
                (Err(e), Err(f)) => e@ == f,
                _ => false,
            },
    ;
}

impl<T: Class> CtorReturn<T> for T {
    open spec fn outcome(self) -> Result<T, OpErrorView> {
        Ok(self)
    }

    fn into_ctor_result(self) -> (r: Result<T, OpError>) {
        Ok(self)
    }
}

impl<T: Class, E: IntoOpError> CtorReturn<T> for Result<T, E> {
    open spec fn outcome(self) -> Result<T, OpErrorView> {
        match self {
            Ok(v) => Ok(v),
            Err(e) => Err(e.failure()),
        }
    }

    fn into_ctor_result(self) -> (r: Result<T, OpError>) {
        match self {
            Ok(v) => Ok(v),
            Err(e) => Err(e.into_op_error()),
        }
    }
}

/// The receiver as a parameter of an op.
pub struct This<T>(pub T);

/// Typed host state as a parameter of an op.
pub struct State<T>(pub T);

/// Bytes that become an `ArrayBuffer`.
pub struct JsArrayBuffer(pub Vec<u8>);

} // verus!
