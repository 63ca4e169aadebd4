//! Direct calls of function code: the frame on the shadow stack, and a call record in place of
//! a pushed frame.

use crate::bytecode::jit::enter::{kind_of_exit, EXIT_RETURN, SAFEPOINT_BUDGET};
use crate::bytecode::jit::records::{
    first_pending, full_stack, marked_from, pending_of, rec_as_frame, CallRec, CallStack,
};
use crate::bytecode::jit::tier::ChunkJit;
use crate::interpreter::call_cx::{CallCx, Shadow};
use crate::interpreter::call_state::{canon_word, plain_flags, restored, saves, SavedFlags};
use crate::interpreter::frames::{FnFrame, NO_SITE};
use crate::value::Value;
use vstd::prelude::*;

verus! {

/// What of a compiled function a call needs.
pub struct Callee {
    pub fn_ptr: u64,
    pub strict: bool,
    pub arrow: bool,
    pub uses_this: bool,
    pub n_params: usize,
    pub n_slots: usize,
    /// The `var` slots that a call resets to `undefined`.
    pub var_force_resets: Vec<u32>,
}

impl Callee {
    /// Every reset slot is a slot.
    pub open spec fn wf(self) -> bool {
        forall|i: int|
            0 <= i < self.var_force_resets@.len() ==> (#[trigger] self.var_force_resets@[i])
                < self.n_slots
    }

    /// The parameters that slots are kept for.
    pub open spec fn kept_params(self) -> nat {
        if self.n_params <= self.n_slots {
            self.n_params as nat
        } else {
            self.n_slots as nat
        }
    }
}

/// The parameter values of a directly entered frame: at most `cap` are kept.
pub struct Seed {
    pub vals: Vec<Value>,
    pub cap: usize,
}

impl Seed {
    /// Keeps `v` if there is room, else drops it.
    pub fn push(&mut self, v: Value)
        ensures
            final(self).cap == old(self).cap,
            final(self).vals@ == if old(self).vals@.len() < old(self).cap {
                old(self).vals@.push(v)
            } else {
                old(self).vals@
            },
    {
        if self.vals.len() < self.cap {
            self.vals.push(v);
        }
    }

    /// Whether another parameter would be kept.
    pub fn wants(&self) -> (r: bool)
        ensures
            r == (self.vals@.len() < self.cap),
    {
        self.vals.len() < self.cap
    }
}

/// The slots a call starts with: the arguments that parameters are kept for, then `undefined`,
/// with the reset slots `undefined` in any case.
pub open spec fn seeded(c: Callee, args: Seq<Value>) -> Seq<Value> {
    Seq::new(
        c.n_slots as nat,
        |i: int|
            if i < args.len() && i < c.kept_params() && !c.var_force_resets@.contains(i as u32) {
                args[i]
            } else {
                Value::Undefined
            },
    )
}

/// Seeds the slots of a call.
pub fn seed_slots(c: &Callee, args: Vec<Value>) -> (r: Vec<Value>)
    requires
        c.wf(),
        c.n_slots <= u32::MAX,
    ensures
        r@ == seeded(*c, args@),
{
    let mut slots = args;
    let ghost args0 = slots@;
    let cap: usize = if c.n_params <= c.n_slots {
        c.n_params
    } else {
        c.n_slots
    };
    if slots.len() > cap {
        slots.truncate(cap);
    }
    while slots.len() < c.n_slots
        invariant
            slots@.len() <= c.n_slots,
            cap == c.kept_params(),
            forall|i: int|
                0 <= i < slots@.len() ==> #[trigger] slots@[i] == if i < args0.len() && i < cap {
                    args0[i]
                } else {
                    Value::Undefined
                },
            args0.len() < cap ==> slots@.len() >= args0.len(),
            args0.len() >= cap ==> slots@.len() >= cap,
        decreases c.n_slots - slots@.len(),
    {
        slots.push(Value::Undefined);
    }
    let ghost before = slots@;
    let mut k: usize = 0;
    while k < c.var_force_resets.len()
        invariant
            k <= c.var_force_resets@.len(),
            c.wf(),
            c.n_slots <= u32::MAX,
            slots@.len() == c.n_slots,
            before.len() == c.n_slots,
            forall|i: int|
                0 <= i < slots@.len() ==> #[trigger] slots@[i] == if c.var_force_resets@.take(
                    k as int,
                ).contains(i as u32) {
                    Value::Undefined
                } else {
                    before[i]
                },
        decreases c.var_force_resets@.len() - k,
    {
        let s: u32 = c.var_force_resets[k];
        let ghost prev = slots@;
        slots.set(s as usize, Value::Undefined);
        proof {
            let t0 = c.var_force_resets@.take(k as int);
            let t1 = c.var_force_resets@.take(k + 1);
            assert(t1 =~= t0.push(s));
            assert forall|i: int| 0 <= i < slots@.len() implies #[trigger] slots@[i]
                == if t1.contains(i as u32) {
                Value::Undefined
            } else {
                before[i]
            } by {
                assert(t1[k as int] == s);
                if i == s {
                    assert(t1.contains(i as u32));
                } else {
                    assert(slots@[i] == prev[i]);
                    if t1.contains(i as u32) {
                        let j = choose|j: int| 0 <= j < t1.len() && t1[j] == i as u32;
                        assert(t0[j] == i as u32);
                    }
                    if t0.contains(i as u32) {
                        let j = choose|j: int| 0 <= j < t0.len() && t0[j] == i as u32;
                        assert(t1[j] == i as u32);
                    }
                }
            }
        }
        k = k + 1;
    }
    assert(c.var_force_resets@.take(k as int) =~= c.var_force_resets@);
    assert(slots@ =~= seeded(*c, args0));
    slots
}

/// The function has code, and the shadow stack has room for its frame.
pub open spec fn ready(jit: ChunkJit, shadow: Shadow) -> bool {
    jit.direct.entry != 0 && shadow.top + jit.direct.size <= shadow.end
}

/// Whether a direct call can run now.
pub fn direct_ready(jit: &ChunkJit, shadow: &Shadow) -> (r: bool)
    ensures
        r == ready(*jit, *shadow),
{
    jit.direct.entry != 0 && shadow.top <= shadow.end && jit.direct.size <= shadow.end
        - shadow.top
}

/// The frame of a direct call, and what the call puts back.
pub struct DirectFrame {
    pub slots: Vec<Value>,
    pub this_val: Value,
    /// The canonical word of the flags inside the call.
    pub canon: u64,
    /// Loop turns left before the next safepoint.
    pub budget: i64,
    /// The code's entry.
    pub entry: u64,
    pub saved: SavedFlags,
    pub top0: usize,
}

/// The record that a direct call links.
pub open spec fn direct_rec(cx: CallCx, c: Callee) -> CallRec {
    CallRec {
        strict: c.strict,
        construct: false,
        synced: false,
        site: cx.cur_site,
        coro: cx.cur_coro,
        fn_ptr: c.fn_ptr,
    }
}

/// What a direct call begins with: its frame `f`, and the state `to` out of `from`.
pub open spec fn direct_begun(
    from: CallCx,
    to: CallCx,
    jit: ChunkJit,
    c: Callee,
    bound_this: Value,
    args: Seq<Value>,
    f: DirectFrame,
) -> bool {
    &&& f.slots@ == seeded(c, args)
    &&& f.this_val == if c.uses_this {
        bound_this
    } else {
        Value::Undefined
    }
    &&& f.canon == canon_word(plain_flags(from.flags, c.strict, c.arrow))
    &&& f.budget == SAFEPOINT_BUDGET
    &&& f.entry == jit.direct.entry
    &&& f.top0 == from.shadow.top
    &&& saves(f.saved, from.flags, c.arrow)
    &&& to.flags == plain_flags(from.flags, c.strict, c.arrow)
    &&& to.calls.fn_frames@ == from.calls.fn_frames@
    &&& to.calls.recs@ == from.calls.recs@.push(direct_rec(from, c))
    &&& to.cur_site == NO_SITE
    &&& to.natives == from.natives
    &&& to.cur_coro == from.cur_coro
    &&& to.depth == from.depth
    &&& to.max_depth == from.max_depth
    &&& to.shadow == Shadow {
        top: (from.shadow.top + jit.direct.size) as usize,
        end: from.shadow.end,
    }
}

/// Begins a direct call, made as a direct call site makes it: the frame on the shadow stack, the
/// flags of a plain call, and a record in place of a pushed frame. `bound_this` is the receiver
/// as the callee's strictness binds it; a callee that does not use `this` gets `undefined`.
pub fn begin_direct(
    cx: &mut CallCx,
    jit: &ChunkJit,
    c: &Callee,
    bound_this: Value,
    args: Vec<Value>,
) -> (r: DirectFrame)
    requires
        c.wf(),
        c.n_slots <= u32::MAX,
        ready(*jit, old(cx).shadow),
    ensures
        direct_begun(*old(cx), *final(cx), *jit, *c, bound_this, args@, r),
{
    let top0: usize = cx.shadow.top;
    cx.shadow.top = top0 + jit.direct.size;
    let saved = cx.flags.enter_plain(c.strict, c.arrow);
    let this_val = if c.uses_this {
        bound_this
    } else {
        Value::Undefined
    };
    let slots = seed_slots(c, args);
    let canon: u64 = cx.flags.canon_flags();
    let rec = CallRec {
        strict: c.strict,
        construct: false,
        synced: false,
        site: cx.cur_site,
        coro: cx.cur_coro,
        fn_ptr: c.fn_ptr,
    };
    cx.cur_site = NO_SITE;
    cx.calls.recs.push(rec);
    DirectFrame {
        slots,
        this_val,
        canon,
        budget: SAFEPOINT_BUDGET,
        entry: jit.direct.entry,
        saved,
        top0,
    }
}

/// What the exit word of a direct call comes to, with the first operand that the code left: a
/// return gives the operand; any other exit is finished by the interpreter on the same slots.
pub fn direct_exit(word: u64, top: Value) -> (r: Option<Value>)
    ensures
        r == if kind_of_exit(word) == EXIT_RETURN {
            Some(top)
        } else {
            None
        },
{
    if word & 0xff == EXIT_RETURN {
        Some(top)
    } else {
        None
    }
}

/// Ends a direct call: its record is unlinked (with the frame it was copied to), and the call
/// site, the shadow stack and the flags are put back.
pub fn end_direct(cx: &mut CallCx, frame: DirectFrame)
    requires
        old(cx).calls.recs@.len() > 0,
    ensures
        final(cx).calls.recs@ == old(cx).calls.recs@.drop_last(),
        final(cx).calls.fn_frames@ == if old(cx).calls.recs@.last().synced
            && old(cx).calls.fn_frames@.len() > 0 {
            old(cx).calls.fn_frames@.drop_last()
        } else {
            old(cx).calls.fn_frames@
        },
        final(cx).cur_site == old(cx).calls.recs@.last().site,
        final(cx).shadow == (Shadow { top: frame.top0, end: old(cx).shadow.end }),
        final(cx).flags == restored(old(cx).flags, frame.saved),
        final(cx).natives == old(cx).natives,
        final(cx).cur_coro == old(cx).cur_coro,
        final(cx).depth == old(cx).depth,
        final(cx).max_depth == old(cx).max_depth,
{
    let rec = cx.calls.recs.pop();
    if let Some(r) = rec {
        if r.synced {
            let _ = cx.calls.fn_frames.pop();
        }
        cx.cur_site = r.site;
    }
    cx.shadow.top = frame.top0;
    cx.flags.leave(frame.saved);
}

/// A direct call leaves the call stack as it found it, also when the records were copied into
/// frames meanwhile.
pub proof fn lemma_direct_call_is_balanced(before: CallStack, rec: CallRec, after: CallStack)
    requires
        !rec.synced,
        ({
            let inside = before.recs@.push(rec);
            ||| after.recs@ == inside && after.fn_frames@ == before.fn_frames@
            ||| after.recs@ == marked_from(inside, first_pending(inside)) && after.fn_frames@
                == before.fn_frames@ + pending_of(inside)
        }),
    ensures
        ({
            let end_recs = after.recs@.drop_last();
            let end_frames = if after.recs@.last().synced {
                after.fn_frames@.drop_last()
            } else {
                after.fn_frames@
            };
            end_frames + pending_of(end_recs) == full_stack(before)
        }),
{
    let inside = before.recs@.push(rec);
    assert(inside.drop_last() =~= before.recs@);
    assert(first_pending(inside) == first_pending(before.recs@));
    lemma_first_pending_bound(before.recs@);
    assert(marked_from(inside, first_pending(inside)).last().synced);
    if after.recs@ == inside {
        assert(inside.last() == rec);
        assert(after.recs@.drop_last() =~= before.recs@);
    } else {
        let k = first_pending(before.recs@);
        assert(pending_of(inside) =~= pending_of(before.recs@).push(rec_as_frame(rec)));
        assert(after.recs@.last().synced);
        assert(after.fn_frames@.drop_last() =~= before.fn_frames@ + pending_of(before.recs@));
        let end_recs = after.recs@.drop_last();
        assert(end_recs =~= marked_from(before.recs@, k));
        if end_recs.len() > 0 {
            if k == before.recs@.len() {
                assert(before.recs@.last().synced);
            }
            assert(end_recs.last().synced);
        }
        assert(first_pending(end_recs) == end_recs.len());
        assert(pending_of(end_recs) =~= Seq::<FnFrame>::empty());
        assert(full_stack(before) + Seq::<FnFrame>::empty() =~= full_stack(before));
    }
}

proof fn lemma_first_pending_bound(recs: Seq<CallRec>)
    ensures
        first_pending(recs) <= recs.len(),
        first_pending(recs) == recs.len() && recs.len() > 0 ==> recs.last().synced,
    decreases recs.len(),
{
    if recs.len() > 0 && !recs.last().synced {
        lemma_first_pending_bound(recs.drop_last());
    }
}

} // verus!
