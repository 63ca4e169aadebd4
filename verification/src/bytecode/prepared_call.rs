//! Prepared calls: a callee that is called many times is resolved once.
//!
//! Only what cannot change between calls is hoisted: the callee's identity and kind. What can
//! change (the recursion limit, a second realm, argument reflection being switched on) is looked
//! at again for every call, and anything unusual takes the ordinary call.

use crate::bytecode::jit::direct::{
    begin_direct, direct_begun, direct_ready, ready, seed_slots, seeded, Callee, DirectFrame,
};
use crate::bytecode::jit::records::{
    first_pending, full_stack, marked_from, pending_of, rec_as_frame, CallRec, CallStack,
};
use crate::bytecode::jit::tier::ChunkJit;
use crate::interpreter::call_cx::{plain_frame, same_outside_call, CallCx};
use crate::interpreter::call_state::{plain_flags, restored, saves, CallFlags, SavedFlags};
use crate::interpreter::frames::{
    kind_of_receiver, recv_kind, FnFrame, NativeCtx, NO_SITE, SITE_NATIVE,
};
use crate::value::Value;
use vstd::prelude::*;

verus! {

/// Buffers kept for reuse.
pub const POOL_CAP: usize = 64;

/// What a callee is, as far as preparing a call of it asks.
pub enum CalleeKind {
    /// A native function; `eval_realm` when it is a realm's `eval`, which has its own dispatch.
    Native { id: u64, eval_realm: bool },
    User(UserFn),
    /// No function, or one of another kind.
    Other,
}

/// A user function.
pub struct UserFn {
    /// The compiled body, when there is one.
    pub code: Option<Callee>,
    pub is_generator: bool,
    pub is_async: bool,
    /// It is a class constructor.
    pub is_class: bool,
    /// It closes over a `with` object.
    pub under_with: bool,
    /// The body needs an activation environment.
    pub has_activation: bool,
    /// The body has an `arguments` object.
    pub has_arguments: bool,
    pub has_rest: bool,
    /// Its calls record the arguments while reflection is on.
    pub reflect_args: bool,
}

/// What of the engine's state decides how a call goes.
pub struct Engine {
    /// Code is tree-walked only.
    pub interp_tier: bool,
    pub multi_realm: bool,
    /// Argument reflection is on.
    pub reflect_on: bool,
}

/// How a prepared callee is called.
pub enum PreparedKind {
    /// Every call is the ordinary one.
    Generic,
    Native(u64),
    Compiled(Compiled),
}

/// A prepared compiled callee, with its buffers.
pub struct Compiled {
    pub callee: Callee,
    pub reflect_args: bool,
    pub slots: Vec<Value>,
    pub stack: Vec<Value>,
    /// The slot buffer holds memory.
    pub buffered: bool,
}

/// A callee resolved for repeated calls with a fixed `this`.
pub struct PreparedCall {
    pub callee: Value,
    pub this: Value,
    pub kind: PreparedKind,
}

/// Whether a compiled body can be called without the ordinary call's detours.
pub open spec fn plain_user(u: UserFn) -> bool {
    &&& u.code is Some
    &&& !u.is_generator
    &&& !u.is_async
    &&& !u.is_class
    &&& !u.under_with
    &&& !u.has_activation
    &&& !u.has_arguments
    &&& !u.has_rest
}

/// Whether a callee is prepared at all.
pub open spec fn preparable(is_object: bool, proxy: bool, e: Engine) -> bool {
    is_object && !e.interp_tier && !proxy
}

impl UserFn {
    fn is_plain(&self) -> (r: bool)
        ensures
            r == plain_user(*self),
    {
        self.code.is_some() && !self.is_generator && !self.is_async && !self.is_class
            && !self.under_with && !self.has_activation && !self.has_arguments && !self.has_rest
    }
}

/// What preparing a callee comes to.
pub open spec fn resolved(
    is_object: bool,
    proxy: bool,
    e: Engine,
    kind: CalleeKind,
    r: PreparedKind,
) -> bool {
    if !preparable(is_object, proxy, e) {
        r == PreparedKind::Generic
    } else {
        match kind {
            CalleeKind::Native { id, eval_realm } => r == if eval_realm {
                PreparedKind::Generic
            } else {
                PreparedKind::Native(id)
            },
            CalleeKind::User(u) => if plain_user(u) {
                r matches PreparedKind::Compiled(c) && Some(c.callee) == u.code && c.reflect_args
                    == u.reflect_args
            } else {
                r == PreparedKind::Generic
            },
            CalleeKind::Other => r == PreparedKind::Generic,
        }
    }
}

/// The buffers that a callee is prepared with: the last of the pool, else fresh ones.
pub open spec fn pooled(
    kind: PreparedKind,
    pool: Seq<(Vec<Value>, Vec<Value>)>,
    after: Seq<(Vec<Value>, Vec<Value>)>,
) -> bool {
    match kind {
        PreparedKind::Compiled(c) => if pool.len() > 0 {
            &&& after == pool.drop_last()
            &&& (c.slots, c.stack) == pool.last()
            &&& c.buffered
        } else {
            &&& after == pool
            &&& c.slots@.len() == 0
            &&& c.stack@.len() == 0
            &&& !c.buffered
        },
        _ => after == pool,
    }
}

/// Resolves a callee: a native function but a realm's `eval`, or a synchronous compiled function
/// without an activation environment, `arguments` object or rest parameter. A proxy, and any
/// callee on the tree-walking tier, takes the ordinary call. The buffers come from the pool.
fn resolve(
    is_object: bool,
    proxy: bool,
    e: &Engine,
    kind: CalleeKind,
    pool: &mut Vec<(Vec<Value>, Vec<Value>)>,
) -> (r: PreparedKind)
    ensures
        resolved(is_object, proxy, *e, kind, r),
        pooled(r, old(pool)@, final(pool)@),
{
    if !is_object || e.interp_tier || proxy {
        return PreparedKind::Generic;
    }
    match kind {
        CalleeKind::Native { id, eval_realm } => if eval_realm {
            PreparedKind::Generic
        } else {
            PreparedKind::Native(id)
        },
        CalleeKind::User(u) => {
            if !u.is_plain() {
                return PreparedKind::Generic;
            }
            match u.code {
                Some(callee) => {
                    let mut buffered = true;
                    let (slots, stack) = match pool.pop() {
                        Some(b) => b,
                        None => {
                            buffered = false;
                            (Vec::new(), Vec::new())
                        },
                    };
                    PreparedKind::Compiled(
                        Compiled {
                            callee,
                            reflect_args: u.reflect_args,
                            slots,
                            stack,
                            buffered,
                        },
                    )
                },
                None => PreparedKind::Generic,
            }
        },
        CalleeKind::Other => PreparedKind::Generic,
    }
}

/// How one call goes.
#[derive(Clone, Copy, Debug, PartialEq, Eq, Structural)]
pub enum Route {
    Compiled,
    Native(u64),
    /// The ordinary call.
    Ordinary,
}

impl PreparedCall {
    /// Resolves `callee`. Anything that cannot be prepared takes the ordinary call, which throws
    /// the ordinary error for a callee that is no function.
    pub fn new(
        callee: Value,
        this: Value,
        proxy: bool,
        e: &Engine,
        kind: CalleeKind,
        pool: &mut Vec<(Vec<Value>, Vec<Value>)>,
    ) -> (r: PreparedCall)
        ensures
            r.callee == callee,
            r.this == this,
            resolved(callee is Obj, proxy, *e, kind, r.kind),
            pooled(r.kind, old(pool)@, final(pool)@),
    {
        let is_object = match callee {
            Value::Obj(_) => true,
            _ => false,
        };
        let kind = resolve(is_object, proxy, e, kind, pool);
        PreparedCall { callee, this, kind }
    }

    /// How a call goes now.
    pub open spec fn spec_route(self, cx: CallCx, e: Engine) -> Route {
        match self.kind {
            PreparedKind::Compiled(c) => if cx.depth < cx.max_depth && !e.multi_realm && !(
            c.reflect_args && e.reflect_on) {
                Route::Compiled
            } else {
                Route::Ordinary
            },
            PreparedKind::Native(id) => if cx.depth < cx.max_depth && !e.multi_realm {
                Route::Native(id)
            } else {
                Route::Ordinary
            },
            PreparedKind::Generic => Route::Ordinary,
        }
    }

    /// How a call goes now: the recursion limit, a second realm, or argument reflection sends it
    /// down the ordinary path.
    pub fn route(&self, cx: &CallCx, e: &Engine) -> (r: Route)
        ensures
            r == self.spec_route(*cx, *e),
    {
        match &self.kind {
            PreparedKind::Compiled(c) => if cx.depth < cx.max_depth && !e.multi_realm && !(
            c.reflect_args && e.reflect_on) {
                Route::Compiled
            } else {
                Route::Ordinary
            },
            PreparedKind::Native(id) => if cx.depth < cx.max_depth && !e.multi_realm {
                Route::Native(*id)
            } else {
                Route::Ordinary
            },
            PreparedKind::Generic => Route::Ordinary,
        }
    }

    /// Calls once with another `this`: gives it in and hands the prepared one out, to be given
    /// in again after the call.
    pub fn replace_this(&mut self, this: Value) -> (r: Value)
        ensures
            *final(self) == (PreparedCall { this, ..*old(self) }),
            r == old(self).this,
    {
        let r = self.this.duplicate();
        self.this = this;
        r
    }

    /// Hands the buffers back to the pool, if they hold memory and the pool has room.
    pub fn finish(self, pool: &mut Vec<(Vec<Value>, Vec<Value>)>)
        ensures
            final(pool)@ == match self.kind {
                PreparedKind::Compiled(c) => if c.buffered && old(pool)@.len() < POOL_CAP {
                    old(pool)@.push((c.slots, c.stack))
                } else {
                    old(pool)@
                },
                _ => old(pool)@,
            },
    {
        if let PreparedKind::Compiled(c) = self.kind {
            if c.buffered && pool.len() < POOL_CAP {
                pool.push((c.slots, c.stack));
            }
        }
    }
}

/// Moves the arguments that a callee with `cap` parameters keeps out of `args`, each left
/// `undefined`.
pub fn take_args(args: &mut Vec<Value>, cap: usize) -> (r: Vec<Value>)
    ensures
        r@ == old(args)@.take(
            if cap <= old(args)@.len() {
                cap as int
            } else {
                old(args)@.len() as int
            },
        ),
        final(args)@.len() == old(args)@.len(),
        forall|i: int|
            0 <= i < old(args)@.len() ==> #[trigger] final(args)@[i] == if i < cap {
                Value::Undefined
            } else {
                old(args)@[i]
            },
{
    let mut out: Vec<Value> = Vec::new();
    let ghost args0 = args@;
    let mut i: usize = 0;
    assert(args0.take(0) =~= Seq::<Value>::empty());
    while i < args.len() && i < cap
        invariant
            i <= args@.len(),
            i <= cap,
            args@.len() == args0.len(),
            out@ == args0.take(i as int),
            forall|j: int|
                0 <= j < args0.len() ==> #[trigger] args@[j] == if j < i {
                    Value::Undefined
                } else {
                    args0[j]
                },
        decreases args@.len() - i,
    {
        out.push(args[i].duplicate());
        args.set(i, Value::Undefined);
        i = i + 1;
        assert(out@ =~= args0.take(i as int));
    }
    out
}

/// The arguments `(value, index, object)` of the array iteration methods; the object is left out
/// when the callee declares fewer than three parameters.
pub fn iteration_args(a: Value, b: Value, obj: &Value, cap: usize) -> (r: Vec<Value>)
    ensures
        r@ == if cap > 2 {
            seq![a, b, *obj]
        } else {
            seq![a, b].take(
                if cap < 2 {
                    cap as int
                } else {
                    2
                },
            )
        },
{
    let mut out: Vec<Value> = Vec::new();
    if cap > 0 {
        out.push(a);
    }
    if cap > 1 {
        out.push(b);
    }
    if cap > 2 {
        out.push(obj.duplicate());
    }
    proof {
        if cap > 2 {
            assert(out@ =~= seq![a, b, *obj]);
        } else {
            assert(out@ =~= seq![a, b].take(
                if cap < 2 {
                    cap as int
                } else {
                    2
                },
            ));
        }
    }
    out
}

/// How a call ends that does not return.
pub enum Abrupt {
    Throw(Value),
    /// By something that is no exception.
    Other,
}

/// What an iteration callback came to, with a thrown value as the error; `undefined` stands for
/// any other end.
pub fn iteration_result(r: Result<Value, Abrupt>) -> (v: Result<Value, Value>)
    ensures
        v == match r {
            Ok(v) => Ok(v),
            Err(Abrupt::Throw(e)) => Err(e),
            Err(Abrupt::Other) => Err(Value::Undefined),
        },
{
    match r {
        Ok(v) => Ok(v),
        Err(Abrupt::Throw(e)) => Err(e),
        Err(Abrupt::Other) => Err(Value::Undefined),
    }
}

/// The state of a call one level deeper.
pub open spec fn deeper(cx: CallCx) -> CallCx {
    CallCx { depth: (cx.depth + 1) as u32, ..cx }
}

impl CallCx {
    /// The entry of every call: one level deeper, unless the collector's poll throws.
    pub fn enter_call(&mut self, poll: Result<(), Value>) -> (r: Result<(), Value>)
        requires
            old(self).depth < u32::MAX,
        ensures
            r == poll,
            *final(self) == if poll is Ok {
                deeper(*old(self))
            } else {
                *old(self)
            },
    {
        match poll {
            Ok(u) => {
                self.depth = self.depth + 1;
                Ok(u)
            },
            Err(e) => Err(e),
        }
    }
}

/// What a prepared call that the driver runs hands to it, beside the slots, and puts back.
pub struct PreparedFrame {
    pub this_val: Value,
    pub saved: SavedFlags,
}

/// What a call that the driver runs begins with: its frame `f`, the slots in the buffer, and the
/// state `to` out of `from`.
pub open spec fn driven_begun(
    from: CallCx,
    to: CallCx,
    before: Compiled,
    after: Compiled,
    bound_this: Value,
    args: Seq<Value>,
    f: PreparedFrame,
) -> bool {
    let c = before.callee;
    &&& after.slots@ == seeded(c, args)
    &&& after.buffered == (before.buffered || c.n_slots > 0)
    &&& after.callee == c
    &&& after.reflect_args == before.reflect_args
    &&& after.stack == before.stack
    &&& f.this_val == if c.uses_this {
        bound_this
    } else {
        Value::Undefined
    }
    &&& saves(f.saved, from.flags, c.arrow)
    &&& to.flags == plain_flags(from.flags, c.strict, c.arrow)
    &&& to.calls.fn_frames@ == full_stack(from.calls).push(
        plain_frame(from, c.fn_ptr, c.strict),
    )
    &&& to.calls.recs@ == marked_from(from.calls.recs@, first_pending(from.calls.recs@))
    &&& to.cur_site == NO_SITE
    &&& same_outside_call(to, from)
}

/// Begins a prepared call that the driver runs: the flags of a plain call, a pushed frame, and
/// the slots in the callee's buffer.
pub fn begin_prepared(cx: &mut CallCx, c: &mut Compiled, bound_this: Value, args: Vec<Value>) -> (r:
    PreparedFrame)
    requires
        old(c).callee.wf(),
        old(c).callee.n_slots <= u32::MAX,
    ensures
        driven_begun(*old(cx), *final(cx), *old(c), *final(c), bound_this, args@, r),
{
    let saved = cx.flags.enter_plain(c.callee.strict, c.callee.arrow);
    cx.push_frame(c.callee.fn_ptr, c.callee.strict);
    let this_val = if c.callee.uses_this {
        bound_this
    } else {
        Value::Undefined
    };
    c.slots = seed_slots(&c.callee, args);
    if c.callee.n_slots > 0 {
        c.buffered = true;
    }
    PreparedFrame { this_val, saved }
}

/// Ends a prepared call that the driver ran: the buffers are empty again, and the frame, the call
/// site and the flags are put back.
pub fn end_prepared(cx: &mut CallCx, c: &mut Compiled, frame: PreparedFrame)
    ensures
        final(c).slots@.len() == 0,
        final(c).stack@.len() == 0,
        final(c).callee == old(c).callee,
        final(c).reflect_args == old(c).reflect_args,
        final(c).buffered == old(c).buffered,
        final(cx).flags == restored(old(cx).flags, frame.saved),
        if old(cx).calls.fn_frames@.len() > 0 {
            &&& final(cx).calls.fn_frames@ == old(cx).calls.fn_frames@.drop_last()
            &&& final(cx).cur_site == old(cx).calls.fn_frames@.last().caller_site
        } else {
            &&& final(cx).calls.fn_frames@ == old(cx).calls.fn_frames@
            &&& final(cx).cur_site == old(cx).cur_site
        },
        final(cx).calls.recs@ == old(cx).calls.recs@,
        same_outside_call(*final(cx), *old(cx)),
{
    c.slots.clear();
    c.stack.clear();
    cx.flags.leave(frame.saved);
    cx.pop_frame();
}

/// How a call of a compiled function begins.
pub enum Begun {
    /// The collector's poll threw.
    Threw(Value),
    /// The function's code runs the frame.
    Direct(DirectFrame),
    /// The driver runs the slots in the buffer.
    Driven(PreparedFrame),
}

/// Begins a call of a prepared compiled function: one level deeper, unless the collector's poll
/// threw; then as a direct call when the function's code can run now, else as a call that the
/// driver runs. `end_direct` or `end_prepared`, and `finish_call`, end it.
pub fn call_compiled_prepared(
    cx: &mut CallCx,
    jit: &ChunkJit,
    c: &mut Compiled,
    bound_this: Value,
    args: Vec<Value>,
    poll: Result<(), Value>,
) -> (r: Begun)
    requires
        old(c).callee.wf(),
        old(c).callee.n_slots <= u32::MAX,
        old(cx).depth < u32::MAX,
    ensures
        match poll {
            Err(e) => r == Begun::Threw(e) && *final(cx) == *old(cx) && *final(c) == *old(c),
            Ok(_) => if ready(*jit, old(cx).shadow) {
                &&& *final(c) == *old(c)
                &&& r matches Begun::Direct(f) && direct_begun(
                    deeper(*old(cx)),
                    *final(cx),
                    *jit,
                    old(c).callee,
                    bound_this,
                    args@,
                    f,
                )
            } else {
                r matches Begun::Driven(f) && driven_begun(
                    deeper(*old(cx)),
                    *final(cx),
                    *old(c),
                    *final(c),
                    bound_this,
                    args@,
                    f,
                )
            },
        },
{
    match cx.enter_call(poll) {
        Err(e) => Begun::Threw(e),
        Ok(_) => {
            if direct_ready(jit, &cx.shadow) {
                Begun::Direct(begin_direct(cx, jit, &c.callee, bound_this, args))
            } else {
                Begun::Driven(begin_prepared(cx, c, bound_this, args))
            }
        },
    }
}

/// What a native call puts back.
pub struct SavedNative {
    pub site: u32,
    pub constructing: bool,
    pub new_target: Value,
}

/// What a native call begins with: what it puts back, and the state `to` out of `from`.
pub open spec fn native_begun(
    from: CallCx,
    to: CallCx,
    id: u64,
    this: Value,
    saved: SavedNative,
) -> bool {
    &&& saved.site == from.cur_site
    &&& saved.constructing == from.flags.constructing
    &&& saved.new_target == from.flags.new_target
    &&& to.natives@ == from.natives@.push(
        NativeCtx {
            site: from.cur_site,
            construct: false,
            hidden: false,
            id,
            recv_kind: kind_of_receiver(this),
            this: match this {
                Value::Obj(o) => Some(o),
                _ => None,
            },
        },
    )
    &&& to == CallCx {
        flags: CallFlags {
            constructing: false,
            new_target: Value::Undefined,
            ..from.flags
        },
        natives: to.natives,
        cur_site: from.cur_site | SITE_NATIVE,
        ..from
    }
}

/// Begins a prepared native call: the native is the innermost running one, its call site carries
/// the native tag, and it is neither constructing nor has a `new.target`.
pub fn begin_native(cx: &mut CallCx, id: u64, this: &Value) -> (r: SavedNative)
    ensures
        native_begun(*old(cx), *final(cx), id, *this, r),
{
    let site: u32 = cx.cur_site;
    let constructing = cx.flags.constructing;
    let new_target = cx.flags.new_target.duplicate();
    cx.flags.constructing = false;
    cx.flags.new_target = Value::Undefined;
    cx.natives.push(
        NativeCtx {
            site,
            construct: false,
            hidden: false,
            id,
            recv_kind: recv_kind(this),
            this: crate::interpreter::frames::held_ptr(this),
        },
    );
    cx.cur_site = site | SITE_NATIVE;
    SavedNative { site, constructing, new_target }
}

/// Begins a call of a prepared native: one level deeper, unless the collector's poll threw.
/// `end_native` and `finish_call` end it.
pub fn call_native_prepared(
    cx: &mut CallCx,
    id: u64,
    this: &Value,
    poll: Result<(), Value>,
) -> (r: Result<SavedNative, Value>)
    requires
        old(cx).depth < u32::MAX,
    ensures
        match poll {
            Err(e) => r == Err::<SavedNative, Value>(e) && *final(cx) == *old(cx),
            Ok(_) => r matches Ok(saved) && native_begun(
                deeper(*old(cx)),
                *final(cx),
                id,
                *this,
                saved,
            ),
        },
{
    match cx.enter_call(poll) {
        Err(e) => Err(e),
        Ok(_) => Ok(begin_native(cx, id, this)),
    }
}

/// Ends a prepared native call.
pub fn end_native(cx: &mut CallCx, saved: SavedNative)
    requires
        old(cx).natives@.len() > 0,
    ensures
        final(cx).natives@ == old(cx).natives@.drop_last(),
        *final(cx) == (CallCx {
            flags: CallFlags {
                constructing: saved.constructing,
                new_target: saved.new_target,
                ..old(cx).flags
            },
            natives: final(cx).natives,
            cur_site: saved.site,
            ..*old(cx)
        }),
{
    cx.cur_site = saved.site;
    let _ = cx.natives.pop();
    cx.flags.constructing = saved.constructing;
    cx.flags.new_target = saved.new_target;
}

/// A proper tail call that a callee left behind.
pub struct TailCall {
    pub callee: Value,
    pub this: Value,
    pub args: Vec<Value>,
}

/// What the end of a call does.
pub enum Finish {
    /// Make the tail call; its call site is `site` until it returns.
    Tail { call: TailCall, site: u32 },
    Return(Result<Value, Value>),
}

/// The end of a call: a pending tail call of a call that did not throw is made, hidden from
/// `fn.caller`, after the collector's poll; else the recursion depth is given back. `poll` is
/// what the collector's poll gave; it is only looked at before a tail call.
pub fn finish_call(
    cx: &mut CallCx,
    r: Result<Value, Value>,
    pending: &mut Option<TailCall>,
    poll: Result<(), Value>,
) -> (f: Finish)
    requires
        old(cx).depth > 0,
    ensures
        if r is Ok && *old(pending) is Some {
            &&& *final(pending) is None
            &&& match poll {
                Err(e) => f == Finish::Return(Err(e)) && *final(cx) == CallCx {
                    depth: (old(cx).depth - 1) as u32,
                    ..*old(cx)
                },
                Ok(_) => f == Finish::Tail {
                    call: old(pending)->0,
                    site: old(cx).cur_site,
                } && *final(cx) == CallCx {
                    cur_site: old(cx).cur_site | SITE_NATIVE,
                    ..*old(cx)
                },
            }
        } else {
            &&& *final(pending) == *old(pending)
            &&& f == Finish::Return(r)
            &&& *final(cx) == CallCx { depth: (old(cx).depth - 1) as u32, ..*old(cx) }
        },
{
    match r {
        Err(e) => {
            cx.depth = cx.depth - 1;
            Finish::Return(Err(e))
        },
        Ok(v) => {
            match pending.take() {
                Some(call) => {
                    match poll {
                        Err(e) => {
                            cx.depth = cx.depth - 1;
                            Finish::Return(Err(e))
                        },
                        Ok(_) => {
                            let site: u32 = cx.cur_site;
                            cx.cur_site = site | SITE_NATIVE;
                            Finish::Tail { call, site }
                        },
                    }
                },
                None => {
                    cx.depth = cx.depth - 1;
                    Finish::Return(Ok(v))
                },
            }
        },
    }
}

/// The tail call returned: its caller's site is back.
pub fn tail_returned(cx: &mut CallCx, site: u32)
    ensures
        *final(cx) == (CallCx { cur_site: site, ..*old(cx) }),
{
    cx.cur_site = site;
}

/// What a single call comes to.
pub enum Once {
    /// Nothing was done: the ordinary call is made with the argument.
    Ordinary(Value),
    /// The collector's poll threw.
    Threw(Value),
    /// The function's code runs the frame.
    Direct(DirectFrame),
}

/// Whether a single call can be a direct call of the callee's function code.
pub open spec fn once_direct(
    cx: CallCx,
    jit: ChunkJit,
    callee: Value,
    proxy: bool,
    e: Engine,
    kind: CalleeKind,
) -> bool {
    &&& preparable(callee is Obj, proxy, e)
    &&& cx.depth < cx.max_depth
    &&& !e.multi_realm
    &&& kind matches CalleeKind::User(u) && plain_user(u) && !(u.reflect_args && e.reflect_on)
    &&& ready(jit, cx.shadow)
}

/// A single call `callee(arg)` with `this` undefined (a reaction job's handler), as a direct call
/// of the callee's function code when that can run now. `bound_this` is `undefined` as the
/// callee's strictness binds it.
pub fn call_once_direct(
    cx: &mut CallCx,
    jit: &ChunkJit,
    callee: &Value,
    proxy: bool,
    e: &Engine,
    kind: &CalleeKind,
    bound_this: Value,
    arg: Value,
    poll: Result<(), Value>,
) -> (r: Once)
    requires
        *kind matches CalleeKind::User(u) ==> (u.code matches Some(c) ==> c.wf() && c.n_slots
            <= u32::MAX),
    ensures
        if !once_direct(*old(cx), *jit, *callee, proxy, *e, *kind) {
            r == Once::Ordinary(arg) && *final(cx) == *old(cx)
        } else {
            match poll {
                Err(t) => r == Once::Threw(t) && *final(cx) == *old(cx),
                Ok(_) => r matches Once::Direct(f) && direct_begun(
                    deeper(*old(cx)),
                    *final(cx),
                    *jit,
                    (*kind)->User_0.code->0,
                    bound_this,
                    seq![arg],
                    f,
                ),
            }
        },
{
    let is_object = match callee {
        Value::Obj(_) => true,
        _ => false,
    };
    if !is_object || e.interp_tier || cx.depth >= cx.max_depth || e.multi_realm || proxy {
        return Once::Ordinary(arg);
    }
    match kind {
        CalleeKind::User(u) => {
            if !u.is_plain() || (u.reflect_args && e.reflect_on) || !direct_ready(jit, &cx.shadow) {
                return Once::Ordinary(arg);
            }
            match &u.code {
                None => Once::Ordinary(arg),
                Some(c) => {
                    match cx.enter_call(poll) {
                        Err(t) => Once::Threw(t),
                        Ok(_) => {
                            let mut args: Vec<Value> = Vec::new();
                            args.push(arg);
                            assert(args@ =~= seq![arg]);
                            Once::Direct(begin_direct(cx, jit, c, bound_this, args))
                        },
                    }
                },
            }
        },
        _ => Once::Ordinary(arg),
    }
}

/// A direct call and a call that the driver runs look the same from inside: the call stack, seen
/// whole, has the same frames either way.
pub proof fn lemma_both_entries_show_the_same_stack(
    before: CallStack,
    rec: CallRec,
    direct: CallStack,
    framed: CallStack,
)
    requires
        !rec.synced,
        direct.fn_frames@ == before.fn_frames@,
        direct.recs@ == before.recs@.push(rec),
        framed.fn_frames@ == full_stack(before).push(rec_as_frame(rec)),
        framed.recs@ == marked_from(before.recs@, first_pending(before.recs@)),
    ensures
        full_stack(direct) == full_stack(framed),
{
    let inside = before.recs@.push(rec);
    assert(inside.drop_last() =~= before.recs@);
    lemma_pending_bound(before.recs@);
    lemma_pending_bound(framed.recs@);
    assert(pending_of(inside) =~= pending_of(before.recs@).push(rec_as_frame(rec)));
    if framed.recs@.len() > 0 {
        assert(framed.recs@.last().synced);
    }
    assert(pending_of(framed.recs@) =~= Seq::<FnFrame>::empty());
    assert(full_stack(direct) =~= full_stack(framed));
}

/// A call that the driver runs leaves the flags, the call stack and the call site as it found
/// them: `from` before it, `mid` inside it and at its end, `to` after it.
pub proof fn lemma_driven_call_is_balanced(
    from: CallCx,
    mid: CallCx,
    to: CallCx,
    before: Compiled,
    after: Compiled,
    bound_this: Value,
    args: Seq<Value>,
    f: PreparedFrame,
)
    requires
        driven_begun(from, mid, before, after, bound_this, args, f),
        to.flags == restored(mid.flags, f.saved),
        to.calls.fn_frames@ == mid.calls.fn_frames@.drop_last(),
        to.calls.recs@ == mid.calls.recs@,
        to.cur_site == mid.calls.fn_frames@.last().caller_site,
    ensures
        to.flags == from.flags,
        full_stack(to.calls) == full_stack(from.calls),
        to.cur_site == from.cur_site,
{
    let recs = from.calls.recs@;
    lemma_pending_bound(recs);
    lemma_pending_bound(to.calls.recs@);
    if to.calls.recs@.len() > 0 {
        assert(to.calls.recs@.last().synced);
    }
    assert(pending_of(to.calls.recs@) =~= Seq::<FnFrame>::empty());
    assert(to.calls.fn_frames@ =~= full_stack(from.calls));
    assert(full_stack(to.calls) =~= full_stack(from.calls));
}

proof fn lemma_pending_bound(recs: Seq<CallRec>)
    ensures
        first_pending(recs) <= recs.len(),
        first_pending(recs) == recs.len() && recs.len() > 0 ==> recs.last().synced,
    decreases recs.len(),
{
    if recs.len() > 0 && !recs.last().synced {
        lemma_pending_bound(recs.drop_last());
    }
}

} // verus!
