//! Entering native code and taking its exit.
//!
//! Native code is left by returning an exit word, `(pc << 8) | kind`, with the operands it
//! materialized; the interpreter then goes on at the exit's pc.

use crate::bytecode::jit::function::{
    deopt_effect, entry_failed_effect, site_stopped, stopped, ExitNotes,
};
use crate::bytecode::jit::tier::{
    failed_loops, retired_loops, runs_loop, same_but_loops, ChunkJit, Native,
};
use crate::bytecode::op::Op;
use crate::interpreter::call_state::{canon_word, CallFlags};
use crate::value::Value;
use vstd::prelude::*;

verus! {

/// The loop turns that native code runs before its next safepoint.
pub const SAFEPOINT_BUDGET: i64 = 4096;

/// Go on interpreting at the exit pc.
pub const EXIT_RESUME: u64 = 0;

/// Throw the exception at the exit pc.
pub const EXIT_THROW: u64 = 1;

/// Return the one materialized operand.
pub const EXIT_RETURN: u64 = 2;

/// An entry guard failed; nothing ran.
pub const EXIT_ENTRY_FAIL: u64 = 3;

/// The exit word of a pc and a kind.
pub open spec fn exit_word(pc: u64, kind: u64) -> u64 {
    (pc << 8) | kind
}

/// The kind of an exit word.
pub open spec fn kind_of_exit(word: u64) -> u64 {
    word & 0xff
}

/// The pc of an exit word.
pub open spec fn pc_of_exit(word: u64) -> u64 {
    word >> 8
}

/// The exit word of a pc and a kind.
pub fn exit(pc: u64, kind: u64) -> (r: u64)
    ensures
        r == exit_word(pc, kind),
{
    (pc << 8) | kind
}

/// An exit word gives back the pc and the kind it was made of.
pub proof fn lemma_exit_word_reads_back(pc: u64, kind: u64)
    requires
        kind < 0x100,
        pc < 0x100_0000_0000_0000,
    ensures
        kind_of_exit(exit_word(pc, kind)) == kind,
        pc_of_exit(exit_word(pc, kind)) == pc,
{
    assert(((pc << 8) | kind) & 0xff == kind) by (bit_vector)
        requires
            kind < 0x100,
    ;
    assert(((pc << 8) | kind) >> 8 == pc) by (bit_vector)
        requires
            kind < 0x100,
            pc < 0x100_0000_0000_0000,
    ;
}

/// How native code was entered.
pub struct Entered {
    /// The loop `(header, backedge)`, or none for function code.
    pub region: Option<(u32, u32)>,
    /// 0, or 1 plus the index of the resume point.
    pub resume: u64,
    /// The operands that a resume entry moved into the code's area.
    pub moved: usize,
}

/// What native code left behind.
pub struct Exit {
    pub word: u64,
    /// The operands it materialized.
    pub depth: u64,
    /// 0, or 1 plus the index of the region's handler set.
    pub hset: u64,
    pub exception: Value,
    pub area: Vec<Value>,
}

/// What the interpreter does after an exit.
pub enum Step {
    /// Go on at the pc.
    Interpret,
    /// The function returned.
    Done(Value),
    Throw(Value),
    /// Go on at the pc with the handlers of the set installed.
    Handlers(usize),
}

/// The operand area that native code is entered with: `undefined` but for the operands that a
/// resume entry takes over.
pub open spec fn area_of(max_stack: usize, resume: u64, stack: Seq<Value>) -> Seq<Value> {
    let n = if max_stack == 0 {
        1nat
    } else {
        max_stack as nat
    };
    Seq::new(
        n,
        |i: int|
            if resume != 0 && i < stack.len() {
                stack[i]
            } else {
                Value::Undefined
            },
    )
}

/// The frame that native code is entered with.
pub struct JitFrame {
    /// The operand area.
    pub area: Vec<Value>,
    /// Loop turns left before the next safepoint.
    pub budget: i64,
    /// The canonical word of the running activation's flags.
    pub canon: u64,
    /// Which entry of function code to take: 0, or 1 plus the index of the resume point.
    pub resume: u64,
    /// The operands that a resume entry moved into the area.
    pub moved: usize,
}

/// Prepares an entry of native code: its frame, with the operands of a resume entry moved into
/// the operand area. None when they do not fit, and then nothing moved. Any other entry starts
/// without operands.
pub fn enter(flags: &CallFlags, native: &Native, resume: u64, stack: &mut Vec<Value>) -> (r: Option<
    JitFrame,
>)
    ensures
        match r {
            Some(f) => {
                &&& f.area@ == area_of(native.max_stack, resume, old(stack)@)
                &&& f.budget == SAFEPOINT_BUDGET
                &&& f.canon == canon_word(*flags)
                &&& f.resume == resume
                &&& f.moved == if resume != 0 {
                    old(stack)@.len()
                } else {
                    0
                }
                &&& f.moved <= f.area@.len()
                &&& final(stack)@.len() == 0
            },
            None => resume != 0 && old(stack)@.len() > area_of(
                native.max_stack,
                resume,
                old(stack)@,
            ).len() && final(stack)@ == old(stack)@,
        },
{
    let n: usize = if native.max_stack == 0 {
        1
    } else {
        native.max_stack
    };
    let moved: usize = if resume != 0 {
        stack.len()
    } else {
        0
    };
    if moved > n {
        return None;
    }
    let ghost s0 = stack@;
    let mut area: Vec<Value> = Vec::new();
    if resume != 0 {
        area.append(stack);
        assert(area@ =~= s0);
    } else {
        stack.truncate(0);
    }
    while area.len() < n
        invariant
            moved <= area@.len() <= n,
            moved == if resume != 0 {
                s0.len()
            } else {
                0
            },
            forall|i: int|
                0 <= i < area@.len() ==> #[trigger] area@[i] == if i < moved {
                    s0[i]
                } else {
                    Value::Undefined
                },
        decreases n - area@.len(),
    {
        area.push(Value::Undefined);
    }
    assert(area@ =~= area_of(native.max_stack, resume, s0));
    Some(JitFrame { area, budget: SAFEPOINT_BUDGET, canon: flags.canon_flags(), resume, moved })
}

/// The operands that count: no more than the area holds.
pub open spec fn live_depth(x: Exit) -> nat {
    if x.depth <= x.area@.len() {
        x.depth as nat
    } else {
        x.area@.len()
    }
}

/// Whether an exit goes on interpreting: it is neither a return, nor a throw, nor a failed entry.
pub open spec fn resumes(x: Exit) -> bool {
    let kind = kind_of_exit(x.word);
    kind != EXIT_THROW && kind != EXIT_RETURN && kind != EXIT_ENTRY_FAIL
}

/// What the interpreter does after the exit.
pub open spec fn step_of(x: Exit, native: Native) -> Step {
    let kind = kind_of_exit(x.word);
    if kind == EXIT_ENTRY_FAIL {
        Step::Interpret
    } else if kind == EXIT_RETURN {
        Step::Done(
            if live_depth(x) >= 1 {
                x.area@[0]
            } else {
                Value::Undefined
            },
        )
    } else if kind == EXIT_THROW {
        Step::Throw(x.exception)
    } else if 1 <= x.hset <= native.hsets@.len() {
        Step::Handlers((x.hset - 1) as usize)
    } else {
        Step::Interpret
    }
}

/// The operand stack that the interpreter goes on with.
pub open spec fn stack_of(x: Exit, e: Entered) -> Seq<Value> {
    let kind = kind_of_exit(x.word);
    if kind == EXIT_ENTRY_FAIL {
        if e.resume != 0 {
            x.area@.take(e.moved as int)
        } else {
            Seq::empty()
        }
    } else if kind == EXIT_RETURN {
        Seq::empty()
    } else {
        x.area@.take(live_depth(x) as int)
    }
}

/// What the exit does to the tier state.
pub open spec fn jit_effect(
    j: ChunkJit,
    k: ChunkJit,
    ops: Seq<Op>,
    slots: Seq<Value>,
    e: Entered,
    native: Native,
    x: Exit,
    notes: ExitNotes,
    used: Seq<u32>,
) -> bool {
    let kind = kind_of_exit(x.word);
    let pc = pc_of_exit(x.word);
    if kind == EXIT_ENTRY_FAIL && e.resume == 0 {
        match e.region {
            Some((h, b)) => same_but_loops(k, j) && k.has_code == j.has_code && k.loops@
                == failed_loops(j.loops@, h, b),
            None => entry_failed_effect(j, k, slots, native.kinds@),
        }
    } else if resumes(x) {
        match e.region {
            None => deopt_effect(j, k, ops, pc as u32, native, notes, used),
            Some((h, b)) => {
                &&& same_but_loops(k, j)
                &&& k.has_code == j.has_code
                &&& k.loops@ == if kind == EXIT_RESUME && site_stopped(
                    native,
                    pc as usize,
                    notes,
                ) {
                    retired_loops(j.loops@, h, b)
                } else {
                    j.loops@
                }
            },
        }
    } else {
        k == j
    }
}

/// Takes the exit of native code. A failed resume entry gives the operands back; another failed
/// entry is counted, for the loop or for the function; a return hands out the one operand; any
/// other exit moves the materialized operands onto the interpreter's stack and sets its pc. A
/// loop whose guarded site stopped holding loses its code; function code is told of the exit.
/// Code that ran may find its loop without code: a call that it made can have retired it. Where
/// the entry failed nothing ran, and the loop is as it was entered.
pub fn take_exit(
    jit: &mut ChunkJit,
    ops: &Vec<Op>,
    slots: &[Value],
    stack: &mut Vec<Value>,
    pc: &mut usize,
    e: &Entered,
    native: &Native,
    x: Exit,
    notes: &ExitNotes,
    used: &Vec<u32>,
) -> (r: Step)
    requires
        old(jit).wf(),
        old(stack)@.len() == 0,
        e.moved <= x.area@.len(),
        pc_of_exit(x.word) <= u32::MAX,
        native.kinds@.len() <= u32::MAX,
        kind_of_exit(x.word) == EXIT_ENTRY_FAIL && e.resume == 0 ==> (e.region matches Some(
            (h, b),
        ) ==> runs_loop(old(jit).loops@, h, b)),
    ensures
        final(jit).wf(),
        r == step_of(x, *native),
        final(stack)@ == stack_of(x, *e),
        *final(pc) == if resumes(x) || kind_of_exit(x.word) == EXIT_THROW {
            pc_of_exit(x.word) as usize
        } else {
            *old(pc)
        },
        jit_effect(*old(jit), *final(jit), ops@, slots@, *e, *native, x, *notes, used@),
{
    let kind: u64 = x.word & 0xff;
    let exit_pc: u64 = x.word >> 8;
    let mut area = x.area;
    let ghost area0 = area@;
    let depth: usize = if x.depth <= area.len() as u64 {
        x.depth as usize
    } else {
        area.len()
    };
    if kind == EXIT_ENTRY_FAIL {
        if e.resume != 0 {
            area.truncate(e.moved);
            stack.append(&mut area);
            assert(stack@ =~= area0.take(e.moved as int));
            return Step::Interpret;
        }
        match e.region {
            Some((h, b)) => jit.loop_entry_failed(h, b),
            None => jit.fn_entry_failed(slots, native),
        }
        assert(stack@ =~= Seq::<Value>::empty());
        return Step::Interpret;
    }
    if kind == EXIT_RETURN {
        assert(stack@ =~= Seq::<Value>::empty());
        if depth >= 1 {
            let v = area.swap_remove(0);
            return Step::Done(v);
        }
        return Step::Done(Value::Undefined);
    }
    area.truncate(depth);
    stack.append(&mut area);
    assert(stack@ =~= area0.take(depth as int));
    *pc = exit_pc as usize;
    if kind == EXIT_THROW {
        return Step::Throw(x.exception);
    }
    match e.region {
        None => jit.fn_deopt(ops, exit_pc as u32, native, notes, used),
        Some((h, b)) => {
            if kind == EXIT_RESUME && stopped(native, exit_pc as usize, notes) {
                jit.retire_loop(h, b);
            }
        },
    }
    if x.hset >= 1 && x.hset <= native.hsets.len() as u64 {
        Step::Handlers((x.hset - 1) as usize)
    } else {
        Step::Interpret
    }
}

/// A `try` handler.
#[derive(Clone, Copy, Debug, PartialEq, Eq, Structural)]
pub struct Handler {
    pub catch_pc: usize,
    pub stack_depth: usize,
}

/// The handlers of a region's set, outermost first.
pub fn region_handlers(set: &Vec<(usize, usize)>) -> (r: Vec<Handler>)
    ensures
        r@.len() == set@.len(),
        forall|i: int|
            0 <= i < set@.len() ==> #[trigger] r@[i] == (Handler {
                catch_pc: set@[i].0,
                stack_depth: set@[i].1,
            }),
{
    let mut out: Vec<Handler> = Vec::new();
    let mut i: usize = 0;
    while i < set.len()
        invariant
            i <= set@.len(),
            out@.len() == i,
            forall|j: int|
                0 <= j < i ==> #[trigger] out@[j] == (Handler {
                    catch_pc: set@[j].0,
                    stack_depth: set@[j].1,
                }),
        decreases set@.len() - i,
    {
        let (catch_pc, stack_depth) = set[i];
        out.push(Handler { catch_pc, stack_depth });
        i = i + 1;
    }
    out
}

/// What one single-stepped op came to.
pub enum Stepped {
    /// The op ran; the function goes on.
    Ran,
    /// The function completed.
    Completed(Value),
    Threw(Value),
    /// The op ended the run by something that no handler catches.
    Stopped,
}

/// What the stepping does next.
pub enum Stepping {
    /// Step another op.
    Again,
    /// Every handler of the region is gone: the interpreter's own loop goes on.
    Over,
    Done(Value),
    Throw(Value),
    /// What ended the run goes on to the caller.
    Stop,
}

/// One turn of stepping ops under a region's handlers. A throw unwinds to the innermost handler
/// (the operands above its depth go, the exception is pushed, the pc is its catch pc) and
/// propagates when the op left none.
pub fn finish_handlers(
    hs: &mut Vec<Handler>,
    stack: &mut Vec<Value>,
    pc: &mut usize,
    stepped: Stepped,
) -> (r: Stepping)
    ensures
        match stepped {
            Stepped::Completed(v) => r == Stepping::Done(v) && final(hs)@ == old(hs)@
                && final(stack)@ == old(stack)@ && *final(pc) == *old(pc),
            Stepped::Stopped => r == Stepping::Stop && final(hs)@ == old(hs)@ && final(stack)@
                == old(stack)@ && *final(pc) == *old(pc),
            Stepped::Ran => {
                &&& r == if old(hs)@.len() == 0 {
                    Stepping::Over
                } else {
                    Stepping::Again
                }
                &&& final(hs)@ == old(hs)@
                &&& final(stack)@ == old(stack)@
                &&& *final(pc) == *old(pc)
            },
            Stepped::Threw(e) => if old(hs)@.len() == 0 {
                r == Stepping::Throw(e) && final(hs)@ == old(hs)@ && final(stack)@ == old(stack)@
                    && *final(pc) == *old(pc)
            } else {
                let h = old(hs)@.last();
                &&& final(hs)@ == old(hs)@.drop_last()
                &&& final(stack)@ == (if h.stack_depth <= old(stack)@.len() {
                    old(stack)@.take(h.stack_depth as int)
                } else {
                    old(stack)@
                }).push(e)
                &&& *final(pc) == h.catch_pc
                &&& r == if old(hs)@.len() == 1 {
                    Stepping::Over
                } else {
                    Stepping::Again
                }
            },
        },
{
    match stepped {
        Stepped::Completed(v) => Stepping::Done(v),
        Stepped::Stopped => Stepping::Stop,
        Stepped::Ran => if hs.len() == 0 {
            Stepping::Over
        } else {
            Stepping::Again
        },
        Stepped::Threw(e) => {
            match hs.pop() {
                None => Stepping::Throw(e),
                Some(h) => {
                    if h.stack_depth <= stack.len() {
                        stack.truncate(h.stack_depth);
                    }
                    stack.push(e);
                    *pc = h.catch_pc;
                    if hs.len() == 0 {
                        Stepping::Over
                    } else {
                        Stepping::Again
                    }
                },
            }
        },
    }
}

/// A resume entry that fails is as if it had not been tried: the operands are back, and neither
/// the pc nor the tier state moved.
pub proof fn lemma_failed_resume_entry(
    j: ChunkJit,
    k: ChunkJit,
    ops: Seq<Op>,
    slots: Seq<Value>,
    e: Entered,
    native: Native,
    x: Exit,
    notes: ExitNotes,
    used: Seq<u32>,
    stack: Seq<Value>,
)
    requires
        e.resume != 0,
        e.moved == stack.len(),
        e.moved <= x.area@.len(),
        x.area@ == area_of(native.max_stack, e.resume, stack),
        kind_of_exit(x.word) == EXIT_ENTRY_FAIL,
        jit_effect(j, k, ops, slots, e, native, x, notes, used),
    ensures
        stack_of(x, e) == stack,
        step_of(x, native) == Step::Interpret,
        k == j,
{
    assert(x.area@.take(e.moved as int) =~= stack);
}

} // verus!
