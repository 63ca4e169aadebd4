//! What calls do: which of them are prepared, what the callee finds, and what is put back; and
//! what legacy reflection reads of running calls.

use crate::bytecode::jit::direct::{direct_begun, ready, seeded, Callee, DirectFrame};
use crate::bytecode::jit::records::{
    first_pending, full_stack, pending_of, rec_as_frame, without_coro, CallRec, CallStack,
};
use crate::bytecode::jit::tier::ChunkJit;
use crate::bytecode::prepared_call::{
    deeper, driven_begun, native_begun, once_direct, plain_user, pooled, preparable, resolved, CalleeKind, Compiled, Engine,
    PreparedCall, PreparedFrame, PreparedKind, Route, SavedNative, UserFn,
};
use crate::bytecode::reflect::{
    arguments_read, caller_of, caller_read, getter_only, is_captured, last_call, live, mentions,
    param_name, quote, reads_at, recorded_scope, simple_params, word_at, FnTraits, Param,
    SlotArrays,
};
use crate::interpreter::call_cx::CallCx;
use crate::interpreter::call_state::{canon_word, plain_flags, CallFlags};
use crate::interpreter::frames::{
    kind_of_receiver, tagged_native, FnFrame, ReflectStash, NO_SITE, SITE_NATIVE,
};
use crate::interpreter::scope::{name_index, Scopes};
use crate::object::PropKind;
use crate::value::Value;
use vstd::prelude::*;

verus! {

// ---- what the callee finds ------------------------------------------------------------------

/// A parameter that is given is in its slot; every other slot is `undefined`.
pub proof fn lemma_arguments_fill_their_slots(c: Callee, args: Seq<Value>, i: int)
    requires
        0 <= i < c.n_slots,
    ensures
        seeded(c, args).len() == c.n_slots,
        i < args.len() && i < c.n_params && !c.var_force_resets@.contains(i as u32) ==> seeded(
            c,
            args,
        )[i] == args[i],
        i >= args.len() || i >= c.n_params || c.var_force_resets@.contains(i as u32) ==> seeded(
            c,
            args,
        )[i] == Value::Undefined,
{
}

/// The flags that a plain call runs with: its own strictness, no `new.target` and no surrounding
/// initializer or generator, which only an arrow function sees through.
pub proof fn lemma_plain_calls_start_afresh(f: CallFlags, strict: bool)
    ensures
        ({
            let own = plain_flags(f, strict, false);
            let arrow = plain_flags(f, strict, true);
            &&& own.strict == strict && arrow.strict == strict
            &&& own.tco_ok == strict && arrow.tco_ok == strict
            &&& !own.constructing && !arrow.constructing
            &&& own.new_target == Value::Undefined
            &&& !own.in_field_init_code
            &&& !own.in_async_gen_body
            &&& arrow.new_target == f.new_target
            &&& arrow.in_field_init_code == f.in_field_init_code
            &&& arrow.in_async_gen_body == f.in_async_gen_body
        }),
{
}

/// The flags of a plain call have a word of their own, one for strict and one for sloppy code;
/// any other flags have none.
pub proof fn lemma_canonical_flags(f: CallFlags)
    ensures
        canon_word(f) == 0 || canon_word(f) == 1 || canon_word(f) == 2,
        canon_word(f) != 0 <==> f.strict == f.tco_ok && !f.constructing && f.new_target
            == Value::Undefined && !f.in_field_init_code && !f.in_async_gen_body,
        canon_word(f) == 2 ==> f.strict,
        canon_word(f) == 1 ==> !f.strict,
{
}

/// A driven call shows one frame more, of its callee, called from where the caller was; the callee
/// finds its arguments and its receiver.
pub proof fn lemma_driven_calls_push_their_frame(
    from: CallCx,
    to: CallCx,
    before: Compiled,
    after: Compiled,
    bound_this: Value,
    args: Seq<Value>,
    f: PreparedFrame,
)
    requires
        driven_begun(from, to, before, after, bound_this, args, f),
    ensures
        to.calls.fn_frames@.len() == full_stack(from.calls).len() + 1,
        to.calls.fn_frames@.drop_last() == full_stack(from.calls),
        ({
            let top = to.calls.fn_frames@.last();
            &&& top.fn_ptr == before.callee.fn_ptr
            &&& top.caller_site == from.cur_site
            &&& top.strict == before.callee.strict
            &&& top.coro == from.cur_coro
            &&& !top.construct
        }),
        to.cur_site == NO_SITE,
        to.flags.strict == before.callee.strict,
        after.slots@.len() == before.callee.n_slots,
        before.callee.uses_this ==> f.this_val == bound_this,
        !before.callee.uses_this ==> f.this_val == Value::Undefined,
        to.depth == from.depth,
        to.natives == from.natives,
        pending_of(to.calls.recs@).len() == 0,
        full_stack(to.calls).drop_last() == full_stack(from.calls),
        to.calls.recs@.len() == from.calls.recs@.len(),
        forall|i: int|
            0 <= i < from.calls.recs@.len() ==> rec_as_frame(#[trigger] to.calls.recs@[i])
                == rec_as_frame(from.calls.recs@[i]),
{
    assert(to.calls.fn_frames@.drop_last() =~= full_stack(from.calls));
    let recs = from.calls.recs@;
    lemma_pending_records_are_within(recs);
    if recs.len() > 0 && !recs.last().synced {
        lemma_pending_records_are_within(recs.drop_last());
    }
    assert(first_pending(to.calls.recs@) == to.calls.recs@.len());
    assert(full_stack(to.calls) =~= to.calls.fn_frames@);
}

proof fn lemma_pending_records_are_within(recs: Seq<CallRec>)
    ensures
        first_pending(recs) <= recs.len(),
    decreases recs.len(),
{
    if recs.len() > 0 && !recs.last().synced {
        lemma_pending_records_are_within(recs.drop_last());
    }
}

/// A direct call is recorded, not framed: the stack it shows is the caller's with the callee on
/// top, and the callee runs at the code's entry in its share of the shadow stack.
pub proof fn lemma_direct_calls_record_their_frame(
    from: CallCx,
    to: CallCx,
    jit: ChunkJit,
    c: Callee,
    bound_this: Value,
    args: Seq<Value>,
    f: DirectFrame,
)
    requires
        direct_begun(from, to, jit, c, bound_this, args, f),
        ready(jit, from.shadow),
    ensures
        full_stack(to.calls).len() == full_stack(from.calls).len() + 1,
        full_stack(to.calls).drop_last() == full_stack(from.calls),
        ({
            let top = full_stack(to.calls).last();
            &&& top.fn_ptr == c.fn_ptr
            &&& top.caller_site == from.cur_site
            &&& top.strict == c.strict
            &&& top.coro == from.cur_coro
            &&& !top.construct
        }),
        f.entry == jit.direct.entry,
        f.entry != 0,
        f.slots@.len() == c.n_slots,
        c.uses_this ==> f.this_val == bound_this,
        !c.uses_this ==> f.this_val == Value::Undefined,
        f.top0 == from.shadow.top,
        from.shadow.top <= to.shadow.top <= to.shadow.end,
        to.shadow.top - from.shadow.top == jit.direct.size,
        to.cur_site == NO_SITE,
{
    let a = from.calls.recs@;
    let r = to.calls.recs@.last();
    assert(a.push(r).drop_last() =~= a);
    lemma_first_pending(a);
    assert(first_pending(a.push(r)) == first_pending(a));
    assert(full_stack(to.calls) =~= full_stack(from.calls).push(rec_as_frame(r)));
    assert(full_stack(to.calls).drop_last() =~= full_stack(from.calls));
}

proof fn lemma_first_pending(recs: Seq<CallRec>)
    ensures
        first_pending(recs) <= recs.len(),
        forall|i: int| first_pending(recs) <= i < recs.len() ==> !(#[trigger] recs[i]).synced,
        first_pending(recs) > 0 ==> recs[first_pending(recs) - 1].synced,
    decreases recs.len(),
{
    if recs.len() > 0 && !recs.last().synced {
        let d = recs.drop_last();
        lemma_first_pending(d);
        assert forall|i: int| first_pending(recs) <= i < recs.len() implies !(
        #[trigger] recs[i]).synced by {
            if i < d.len() {
                assert(d[i] == recs[i]);
            }
        }
    }
}

/// The stack that is shown ends in the records that have no frame yet, in order, each as the call
/// that it is.
pub proof fn lemma_records_show_as_frames(s: CallStack, i: int)
    requires
        0 <= i < pending_of(s.recs@).len(),
    ensures
        full_stack(s).len() == s.fn_frames@.len() + pending_of(s.recs@).len(),
        full_stack(s).take(s.fn_frames@.len() as int) == s.fn_frames@,
        ({
            let k = s.recs@.len() - pending_of(s.recs@).len() + i;
            let r = s.recs@[k];
            let f = full_stack(s)[s.fn_frames@.len() + i];
            &&& !r.synced
            &&& f.fn_ptr == r.fn_ptr
            &&& f.caller_site == r.site
            &&& f.coro == r.coro
            &&& f.strict == r.strict
            &&& f.construct == r.construct
        }),
{
    lemma_first_pending(s.recs@);
    assert(full_stack(s).take(s.fn_frames@.len() as int) =~= s.fn_frames@);
}

/// Evicting a coroutine drops its records and keeps the others.
pub proof fn lemma_eviction_drops_the_coroutine(recs: Seq<CallRec>, coro: u32, r: CallRec)
    ensures
        without_coro(recs, coro).contains(r) <==> recs.contains(r) && r.coro != coro,
{
    let keep = |x: CallRec| x.coro != coro;
    recs.filter_lemma(keep);
    let out = recs.filter(keep);
    if recs.contains(r) && r.coro != coro {
        let i = choose|i: int| 0 <= i < recs.len() && recs[i] == r;
        assert(keep(recs[i]));
        assert(out.contains(recs[i]));
    }
    if out.contains(r) {
        let i = choose|i: int| 0 <= i < out.len() && out[i] == r;
        assert(keep(out[i]));
        recs.lemma_filter_contains_rev(keep, r);
    }
}

// ---- which calls are prepared ---------------------------------------------------------------

/// A user function is prepared only where its body is compiled and needs nothing around it; else,
/// and for a proxy, on the tree walker and for what is no object, the call is the ordinary one.
pub proof fn lemma_only_plain_functions_are_prepared(
    is_object: bool,
    proxy: bool,
    e: Engine,
    u: UserFn,
    r: PreparedKind,
)
    requires
        resolved(is_object, proxy, e, CalleeKind::User(u), r),
    ensures
        r is Compiled <==> is_object && !proxy && !e.interp_tier && u.code is Some
            && !u.is_generator && !u.is_async && !u.is_class && !u.under_with && !u.has_activation
            && !u.has_arguments && !u.has_rest,
        r is Compiled || r is Generic,
        r matches PreparedKind::Compiled(c) ==> u.code == Some(c.callee) && c.reflect_args
            == u.reflect_args,
{
}

/// A native is prepared by its address, unless it is a realm's `eval`.
pub proof fn lemma_natives_are_prepared_by_address(
    is_object: bool,
    proxy: bool,
    e: Engine,
    id: u64,
    eval_realm: bool,
    r: PreparedKind,
    s: PreparedKind,
)
    requires
        resolved(is_object, proxy, e, CalleeKind::Native { id, eval_realm }, r),
        resolved(is_object, proxy, e, CalleeKind::Other, s),
    ensures
        is_object && !proxy && !e.interp_tier && !eval_realm ==> r == PreparedKind::Native(id),
        !(is_object && !proxy && !e.interp_tier && !eval_realm) ==> r == PreparedKind::Generic,
        s == PreparedKind::Generic,
{
}

/// A prepared call takes its fast way only below the depth limit and in a single realm, and a
/// compiled one only while its arguments need not be recorded.
pub proof fn lemma_prepared_calls_fall_back(p: PreparedCall, cx: CallCx, e: Engine)
    ensures
        cx.depth >= cx.max_depth || e.multi_realm ==> p.spec_route(cx, e) == Route::Ordinary,
        cx.depth < cx.max_depth && !e.multi_realm ==> match p.kind {
            PreparedKind::Compiled(c) => p.spec_route(cx, e) == if c.reflect_args && e.reflect_on {
                Route::Ordinary
            } else {
                Route::Compiled
            },
            PreparedKind::Native(id) => p.spec_route(cx, e) == Route::Native(id),
            PreparedKind::Generic => p.spec_route(cx, e) == Route::Ordinary,
        },
{
}

/// A single direct call is made under the same conditions as a prepared compiled one, where the
/// code is there and its frame fits.
pub proof fn lemma_single_calls_are_direct_when_prepared_ones_are(
    cx: CallCx,
    jit: ChunkJit,
    callee: Value,
    proxy: bool,
    e: Engine,
    u: UserFn,
    p: PreparedCall,
)
    requires
        resolved(callee is Obj, proxy, e, CalleeKind::User(u), p.kind),
    ensures
        once_direct(cx, jit, callee, proxy, e, CalleeKind::User(u)) <==> p.spec_route(cx, e)
            == Route::Compiled && jit.direct.entry != 0 && cx.shadow.top + jit.direct.size
            <= cx.shadow.end,
        forall|k: CalleeKind|
            !(k is User) ==> !(#[trigger] once_direct(cx, jit, callee, proxy, e, k)),
{
}

/// Prepared buffers come from the pool, the last one put in first.
pub proof fn lemma_buffers_come_from_the_pool(
    c: Compiled,
    pool: Seq<(Vec<Value>, Vec<Value>)>,
    after: Seq<(Vec<Value>, Vec<Value>)>,
)
    requires
        pooled(PreparedKind::Compiled(c), pool, after),
    ensures
        c.buffered <==> pool.len() > 0,
        pool.len() > 0 ==> after.push((c.slots, c.stack)) == pool,
        pool.len() == 0 ==> after == pool && c.slots@.len() == 0 && c.stack@.len() == 0,
{
    if pool.len() > 0 {
        assert(after.push((c.slots, c.stack)) =~= pool);
    }
}

/// A native call shows its native with its receiver, made at the caller's site, and its end puts
/// everything back.
pub proof fn lemma_native_calls_are_balanced(
    from: CallCx,
    mid: CallCx,
    to: CallCx,
    id: u64,
    this: Value,
    saved: SavedNative,
)
    requires
        native_begun(from, mid, id, this, saved),
        to.natives@ == mid.natives@.drop_last(),
        to == (CallCx {
            flags: CallFlags {
                constructing: saved.constructing,
                new_target: saved.new_target,
                ..mid.flags
            },
            natives: to.natives,
            cur_site: saved.site,
            ..mid
        }),
    ensures
        to.natives@ == from.natives@,
        to.flags == from.flags,
        to.cur_site == from.cur_site,
        to.calls == from.calls,
        to.depth == from.depth,
        ({
            let c = mid.natives@.last();
            &&& mid.natives@.len() == from.natives@.len() + 1
            &&& c.id == id
            &&& c.site == from.cur_site
            &&& !c.construct && !c.hidden
            &&& c.recv_kind == kind_of_receiver(this)
            &&& this matches Value::Obj(o) ==> c.this == Some(o)
            &&& !(this is Obj) ==> c.this is None
        }),
        !mid.flags.constructing,
        mid.flags.new_target == Value::Undefined,
        mid.cur_site == from.cur_site | SITE_NATIVE,
{
    assert(to.natives@ =~= from.natives@);
}

// ---- legacy reflection ----------------------------------------------------------------------

/// The functions that have `arguments` and `caller`: sloppy ordinary functions.
pub proof fn lemma_legacy_functions(f: FnTraits)
    ensures
        f.is_strict || f.is_arrow || f.is_method || f.is_generator || f.is_async ==> !f.legacy(),
        !(f.is_strict || f.is_arrow || f.is_method || f.is_generator || f.is_async) ==> f.legacy(),
{
}

/// The innermost call of a function.
pub proof fn lemma_last_call_is_the_innermost(frames: Seq<FnFrame>, p: u64)
    ensures
        match last_call(frames, p) {
            Some(k) => 0 <= k < frames.len() && frames[k].fn_ptr == p && forall|i: int|
                k < i < frames.len() ==> (#[trigger] frames[i]).fn_ptr != p,
            None => forall|i: int| 0 <= i < frames.len() ==> (#[trigger] frames[i]).fn_ptr != p,
        },
    decreases frames.len(),
{
    if frames.len() > 0 && frames.last().fn_ptr != p {
        let d = frames.drop_last();
        lemma_last_call_is_the_innermost(d, p);
        assert(frames.last() == frames[frames.len() - 1]);
        assert forall|i: int| 0 <= i < d.len() implies #[trigger] d[i] == frames[i] by {}
        match last_call(d, p) {
            Some(k) => {
                assert(d[k] == frames[k]);
                assert forall|i: int| k < i < frames.len() implies (#[trigger] frames[i]).fn_ptr
                    != p by {
                    if i < d.len() {
                        assert(d[i] == frames[i]);
                    }
                }
            },
            None => {
                assert forall|i: int| 0 <= i < frames.len() implies (#[trigger] frames[i]).fn_ptr
                    != p by {
                    if i < d.len() {
                        assert(d[i] == frames[i]);
                    }
                }
            },
        }
    }
}

/// The caller of a call is the function below it, unless that is strict or a native is between;
/// top-level code is seen through.
pub proof fn lemma_callers_are_the_function_below(frames: Seq<FnFrame>, k: int, f: u64, code: FnTraits)
    requires
        0 < k < frames.len(),
        frames[k].fn_ptr != 0,
    ensures
        tagged_native(frames[k].caller_site) ==> caller_of(frames, k) is None,
        !tagged_native(frames[k].caller_site) && frames[k - 1].fn_ptr != 0 && frames[k - 1].strict
            ==> caller_of(frames, k) is None,
        !tagged_native(frames[k].caller_site) && frames[k - 1].fn_ptr != 0 && !frames[k - 1].strict
            ==> caller_of(frames, k) == Some(frames[k - 1].fn_ptr),
        !tagged_native(frames[k].caller_site) && frames[k - 1].fn_ptr == 0 ==> caller_of(frames, k)
            == caller_of(frames, k - 1),
        caller_of(frames, 0) is None,
        last_call(frames, f) == Some(k) && code.legacy() && caller_of(frames, k) == Some(
            frames[k - 1].fn_ptr,
        ) ==> caller_read(frames, f, code) == Value::Obj(frames[k - 1].fn_ptr),
        !code.legacy() ==> caller_read(frames, f, code) == Value::Null,
{
}

/// What the arguments of a running call read as: those it was called with, and a parameter that
/// still stands for its argument reads as its binding now.
pub proof fn lemma_arguments_read_as_called_or_as_bound(
    frames: Seq<FnFrame>,
    scopes: Scopes,
    slots: SlotArrays,
    f: u64,
    code: FnTraits,
    k: int,
    s: ReflectStash,
    i: int,
)
    requires
        last_call(frames, f) == Some(k),
        0 <= k < frames.len(),
        code.legacy(),
        frames[k].extra matches Some(x) && x.reflect == Some(s),
        0 <= i < s.args@.len(),
    ensures
        ({
            let read = arguments_read(frames, scopes, slots, f, code);
            &&& read is Some
            &&& (read->0).0.len() == s.args@.len()
            &&& (read->0).1 == s.scope
            &&& !live(code, i) ==> (read->0).0[i] == s.args@[i]
            &&& live(code, i) && s.slots is Some && slots.contains_key(s.slots->0) && i
                < slots[s.slots->0]@.len() ==> (read->0).0[i] == slots[s.slots->0]@[i]
            &&& live(code, i) && s.slots is None && s.scope is None ==> (read->0).0[i] == s.args@[i]
            &&& live(code, i) && s.slots is None && s.scope is Some && scopes.has(s.scope->0) ==> {
                let vs = scopes.at(s.scope->0).vars;
                let at = name_index(vs.names(), param_name(code.params@[i])) as int;
                at < vs.vars@.len() ==> (read->0).0[i] == vs.vars@[at].binding.value
            }
        }),
{
}

/// A parameter stands for its argument where all of them are plain names, no later one has its
/// name, no inner function captures it and nothing names `arguments`.
pub proof fn lemma_live_parameters(f: FnTraits, k: int)
    requires
        0 <= k < f.params@.len(),
    ensures
        live(f, k) ==> forall|i: int|
            0 <= i < f.params@.len() ==> !(#[trigger] f.params@[i]).rest && !f.params@[i].has_default
                && f.params@[i].name is Some,
        live(f, k) ==> forall|i: int|
            k < i < f.params@.len() ==> param_name(#[trigger] f.params@[i]) != param_name(
                f.params@[k],
            ),
        live(f, k) ==> forall|i: int|
            0 <= i < f.captured@.len() ==> (#[trigger] f.captured@[i])@ != param_name(f.params@[k]),
        !f.names_arguments && (forall|i: int|
            0 <= i < f.params@.len() ==> !(#[trigger] f.params@[i]).rest && !f.params@[i].has_default
                && f.params@[i].name is Some) && (forall|i: int|
            k < i < f.params@.len() ==> #[trigger] param_name(f.params@[i]) != param_name(
                f.params@[k],
            )) && (forall|i: int|
            0 <= i < f.captured@.len() ==> (#[trigger] f.captured@[i])@ != param_name(f.params@[k]))
            ==> live(f, k),
        live(f, k) && f.names_arguments ==> exists|i: int|
            0 <= i < f.params@.len() && #[trigger] param_name(f.params@[i]) == "arguments"@,
{
    if live(f, k) {
        assert forall|i: int| k < i < f.params@.len() implies param_name(#[trigger] f.params@[i])
            != param_name(f.params@[k]) by {
            if param_name(f.params@[i]) == param_name(f.params@[k]) {
                assert(crate::bytecode::reflect::named_from(
                    f.params@,
                    k + 1,
                    param_name(f.params@[k]),
                ));
            }
        }
    }
}

/// A text that reads a property by a word mentions it, written with a dot or as a quoted key; as
/// part of a longer name the word is not read.
pub proof fn lemma_reads_are_mentioned(s: Seq<char>, word: Seq<char>, at: int)
    requires
        word_at(s, word, at),
        at > 0,
    ensures
        s[at - 1] == '.' && at + word.len() == s.len() ==> mentions(s, word),
        s[at - 1] == '.' && at + word.len() < s.len() && (s[at + word.len()] == '(' || s[at
            + word.len()] == '.' || s[at + word.len()] == ' ' || s[at + word.len()] == ';'
            || s[at + word.len()] == '[') ==> mentions(s, word),
        (s[at - 1] == '\'' || s[at - 1] == '"' || s[at - 1] == '`') && at + word.len() < s.len() && (
        s[at + word.len()] == '\'' || s[at + word.len()] == '"' || s[at + word.len()] == '`')
            ==> mentions(s, word),
        s[at - 1] == '.' && at + word.len() < s.len() && ('a' <= s[at + word.len()] <= 'z' || s[at
            + word.len()] == '_' || s[at + word.len()] == '$') ==> !reads_at(s, word, at),
{
    let before = s.take(at);
    let after = s.skip(at + word.len());
    assert(before.last() == s[at - 1]);
    if after.len() > 0 {
        assert(after[0] == s[at + word.len()]);
    }
    if s[at - 1] == '.' || s[at - 1] == '\'' || s[at - 1] == '"' || s[at - 1] == '`' {
        assert(crate::interpreter::callee_text::trim_end(before) == before);
    }
}

/// A legacy property is a getter that cannot be written, enumerated or configured.
pub proof fn lemma_legacy_properties_are_getters(f: u64)
    ensures
        getter_only(f).kind == (PropKind::Accessor { get: Some(Value::Obj(f)), set: None }),
        !getter_only(f).writable && !getter_only(f).enumerable && !getter_only(f).configurable,
{
}

/// A compiled function is called without detours when nothing about it needs one: no generator,
/// async body or class, no `with` around it, no activation, `arguments` or rest parameter.
pub proof fn lemma_plain_functions_need_no_detour(u: UserFn)
    ensures
        u.code is None ==> !plain_user(u),
        u.is_generator || u.is_async || u.is_class ==> !plain_user(u),
        u.under_with || u.has_activation || u.has_arguments || u.has_rest ==> !plain_user(u),
        u.code is Some && !u.is_generator && !u.is_async && !u.is_class && !u.under_with
            && !u.has_activation && !u.has_arguments && !u.has_rest ==> plain_user(u),
{
}

/// A callee is prepared when it is an object that is no proxy, and code is compiled at all.
pub proof fn lemma_what_is_prepared(is_object: bool, proxy: bool, e: Engine)
    ensures
        preparable(is_object, proxy, e) <==> is_object && !proxy && !e.interp_tier,
{
}

/// A call is one level deeper, and nothing else.
pub proof fn lemma_calls_nest(cx: CallCx)
    requires
        cx.depth < u32::MAX,
    ensures
        deeper(cx).depth == cx.depth + 1,
        deeper(cx) == (CallCx { depth: deeper(cx).depth, ..cx }),
{
}

/// Parameters are simple when each is a name alone.
pub proof fn lemma_simple_parameters(ps: Seq<Param>, i: int)
    ensures
        simple_params(ps) && 0 <= i < ps.len() ==> !ps[i].rest && !ps[i].has_default && ps[i].name
            is Some,
        !simple_params(ps) ==> exists|j: int|
            0 <= j < ps.len() && ((#[trigger] ps[j]).rest || ps[j].has_default || ps[j].name
                is None),
        simple_params(Seq::empty()),
{
}

/// A name is captured when it is listed, and the three quotes are quotes.
pub proof fn lemma_captured_names_are_listed(names: Seq<String>, i: int, c: char)
    ensures
        0 <= i < names.len() ==> is_captured(names, names[i]@),
        names.len() == 0 ==> forall|n: Seq<char>| !#[trigger] is_captured(names, n),
        quote(c) <==> c == '"' || c == '\'' || c == '`',
{
}

/// The scope that an activation recorded is the one of its reflection.
pub proof fn lemma_recorded_scopes(fr: FnFrame)
    ensures
        fr.extra is None ==> recorded_scope(fr) is None,
        fr.extra matches Some(x) ==> recorded_scope(fr) == (match x.reflect {
            Some(s) => s.scope,
            None => None,
        }),
{
}

} // verus!
