//! What the optimizing tier does: when code is compiled, run and dropped, what its exits mean, and
//! what reading memory through it comes to.

use crate::bytecode::jit::compiles::{address_of, outcome_text, CompileTotals};
use crate::bytecode::jit::enter::{
    area_of, exit_word, jit_effect, kind_of_exit, lemma_exit_word_reads_back, pc_of_exit, resumes,
    stack_of, step_of, Entered, Exit, Step,
};
use crate::bytecode::jit::function::{
    counted, deopt_effect, deopt_index, entry_failed_effect, frame_size, grown, retired_state,
    site_stopped, widened_by_entry, widened_by_use, ExitNotes,
};
use crate::bytecode::jit::layout::{element, object_of, overwritable, Entry, Exotic, Mem, ObjMem};
use crate::bytecode::jit::new_plan::{
    arg_word, callee_matches, proto_of, stores_of, Operand, PlanSrc,
};
use crate::bytecode::jit::prop_access::{
    cached_word, chain_holder, holds_accessor, holds_word, packed_of, read_word, way_slot, ways_of,
    IcState, PropRead,
};
use crate::bytecode::jit::tier::{
    failed_loops, is_loop, lemma_loop_index, listed, loop_index, on_tick, retired_loops, ChunkJit,
    FnTier, Kind, LoopState, Native, Plan,
};
use crate::bytecode::jit::words::{
    counted_word, packed, top_of, unpacked, RawValue, TAG_BOOL, TAG_NUM, TAG_OBJ, TOP_EMPTY,
};
use crate::bytecode::op::Op;
use crate::text::dec_digits;
use crate::value::Value;
use vstd::prelude::*;

verus! {

// ---- loops ----------------------------------------------------------------------------------

/// A slot is compiled for the kind of value that it holds: Numbers and booleans unboxed.
pub proof fn lemma_kinds_of_values(v: Value)
    ensures
        v is Num ==> Kind::spec_of(v) == Kind::Num,
        v is Bool ==> Kind::spec_of(v) == Kind::Bool,
        !(v is Num) && !(v is Bool) ==> Kind::spec_of(v) == Kind::Boxed,
{
}

/// A failed entry counts for its loop alone, and the sixteenth drops the loop's code; another loop
/// stays as it is.
pub proof fn lemma_failed_entries_count_for_their_loop(
    loops: Seq<LoopState>,
    h: u32,
    b: u32,
    i: int,
)
    requires
        0 <= i < loops.len(),
        forall|k: int| 0 <= k < loops.len() ==> (#[trigger] loops[k]).wf(),
    ensures
        failed_loops(loops, h, b).len() == loops.len(),
        ({
            let l = loops[i];
            let f = failed_loops(loops, h, b)[i];
            &&& f.header == l.header && f.backedge == l.backedge && f.compiles == l.compiles
            &&& !(l.header == h && l.backedge == b) ==> f == l
            &&& l.header == h && l.backedge == b && (forall|k: int|
                0 <= k < i ==> !((#[trigger] loops[k]).header == h && loops[k].backedge == b)) ==> {
                &&& f.entry_fails == l.entry_fails + 1
                &&& l.entry_fails + 1 < 16 ==> f.code == l.code
                &&& l.entry_fails + 1 >= 16 ==> f.code is None
            }
        }),
{
    lemma_loop_index(loops, h, b);
    let k = loop_index(loops, h, b) as int;
    if is_loop(loops[i], h, b) {
        assert(k <= i);
        if k < i {
            assert(is_loop(loops[k], h, b));
        }
    }
}

/// Retiring a loop drops its code and nothing else.
pub proof fn lemma_retired_loops_lose_their_code(loops: Seq<LoopState>, h: u32, b: u32, i: int)
    requires
        0 <= i < loops.len(),
    ensures
        retired_loops(loops, h, b).len() == loops.len(),
        ({
            let l = loops[i];
            let f = retired_loops(loops, h, b)[i];
            &&& !(l.header == h && l.backedge == b) ==> f == l
            &&& l.header == h && l.backedge == b && (forall|k: int|
                0 <= k < i ==> !((#[trigger] loops[k]).header == h && loops[k].backedge == b))
                ==> f.code is None && f.entry_fails == l.entry_fails && f.compiles == l.compiles
        }),
{
    lemma_loop_index(loops, h, b);
    let k = loop_index(loops, h, b) as int;
    if is_loop(loops[i], h, b) {
        assert(k <= i);
        if k < i {
            assert(is_loop(loops[k], h, b));
        }
    }
}

/// A loop is listed once; a new one is listed last, without code.
pub proof fn lemma_loops_are_listed(loops: Seq<LoopState>, h: u32, b: u32)
    ensures
        ({
            let l = listed(loops, h, b);
            let k = loop_index(loops, h, b) as int;
            &&& 0 <= k < l.len()
            &&& l[k].header == h && l[k].backedge == b
            &&& l.take(loops.len() as int) == loops
            &&& l.len() > loops.len() ==> l.len() == loops.len() + 1 && l[k].code is None
                && l[k].compiles == 0 && l[k].entry_fails == 0
        }),
{
    lemma_loop_index(loops, h, b);
    assert(listed(loops, h, b).take(loops.len() as int) =~= loops);
}

/// Every 1024th backward jump is a tick.
pub proof fn lemma_ticks(t: u32)
    ensures
        on_tick(t) <==> t % 1024 == 0,
{
    assert(t & 1023 == t % 1024) by (bit_vector);
}

// ---- function code --------------------------------------------------------------------------

/// Function code that is there runs, and a function that was given up is interpreted. Else it is
/// compiled at its start, when nothing is on the stack and it was called often enough for its
/// size or was asked for; three times at most.
pub proof fn lemma_when_functions_are_compiled(
    j: ChunkJit,
    n_ops: usize,
    pc: usize,
    empty: bool,
    enabled: bool,
    eager: bool,
)
    ensures
        ({
            let (plan, k) = j.entered(n_ops, pc, empty, enabled, eager);
            let asked = j.fstate == FnTier::Pending || eager || j.calls / 16 >= n_ops;
            &&& j.fstate == FnTier::Code ==> plan == Plan::Run && k == j
            &&& j.fstate == FnTier::Dead ==> plan == Plan::Interpret && k == j
            &&& j.fstate == FnTier::Cold || j.fstate == FnTier::Pending ==> {
                &&& plan == Plan::Compile <==> enabled && pc == 0 && empty && asked
                    && j.func.compiles < 3
                &&& plan != Plan::Run
                &&& plan == Plan::Compile ==> k.func.compiles == j.func.compiles + 1 && k.fstate
                    == j.fstate
                &&& enabled && pc == 0 && empty && asked && j.func.compiles >= 3 ==> k.fstate
                    == FnTier::Dead
                &&& !(enabled && pc == 0 && empty && asked) ==> k == j
            }
        }),
{
}

/// Code that is retired is kept for calls that are still in it, but entered no more: the function
/// is compiled again, or given up after its third time.
pub proof fn lemma_retired_functions_are_compiled_again(j: ChunkJit, k: ChunkJit)
    requires
        retired_state(j, k),
    ensures
        k.func.code is None,
        k.direct.entry == 0,
        j.func.code matches Some(n) ==> k.func.retired@ == j.func.retired@.push(n),
        j.func.code is None ==> k.func.retired@ == j.func.retired@,
        k.func.compiles == j.func.compiles,
        k.func.entry_fails == 0,
        k.func.deopts@.len() == 0,
        j.func.compiles < 3 ==> k.fstate == FnTier::Pending,
        j.func.compiles >= 3 ==> k.fstate == FnTier::Dead,
        k.loops == j.loops,
        k.site_fb == j.site_fb,
{
}

/// A failed entry is counted; the sixteenth retires the code and gives up on the kinds of the
/// slots that hold something else now.
pub proof fn lemma_failed_function_entries(
    j: ChunkJit,
    k: ChunkJit,
    slots: Seq<Value>,
    kinds: Seq<Kind>,
    s: int,
)
    requires
        entry_failed_effect(j, k, slots, kinds),
    ensures
        j.func.entry_fails + 1 < 16 ==> k.func.entry_fails == j.func.entry_fails + 1 && k.func.code
            == j.func.code && k.fstate == j.fstate && k.func.widen == j.func.widen,
        j.func.entry_fails + 1 >= 16 ==> k.func.code is None,
        j.func.entry_fails + 1 >= 16 && 0 <= s < kinds.len() ==> {
            &&& s < k.func.widen@.len()
            &&& k.func.widen@[s] <==> (s < j.func.widen@.len() && j.func.widen@[s]) || (kinds[s]
                != Kind::Boxed && s < slots.len() && Kind::spec_of(slots[s]) != kinds[s])
        },
{
}

/// An exit at an `await` is no failure. One at a site that stopped holding retires the code that
/// is current. Any other is counted at its pc, and the thirty-second there gives up on the slots
/// that it uses, if it was compiled for their kinds.
pub proof fn lemma_exits_of_function_code(
    j: ChunkJit,
    k: ChunkJit,
    ops: Seq<Op>,
    pc: u32,
    native: Native,
    notes: ExitNotes,
    used: Seq<u32>,
)
    requires
        deopt_effect(j, k, ops, pc, native, notes, used),
    ensures
        pc < ops.len() && ops[pc as int] == Op::Await ==> k == j,
        !(pc < ops.len() && ops[pc as int] == Op::Await) && (native.guarded@.contains(pc as usize)
            || notes.ta_exit || (notes.num_exit && native.num_exits@.contains(pc as usize))) && (
        j.func.code matches Some(c) && c.id == native.id) ==> k.func.code is None && k.func.widen@
            == j.func.widen@,
        !(pc < ops.len() && ops[pc as int] == Op::Await) && !native.guarded@.contains(pc as usize)
            && !notes.ta_exit && !notes.num_exit ==> match counted(j.func.deopts@, pc) {
            Some((d, c)) => {
                &&& c != 32 ==> k.func.deopts@ == d && k.func.code == j.func.code && k.fstate
                    == j.fstate && k.func.widen == j.func.widen
                &&& c == 32 && (exists|s: int|
                    0 <= s < native.kinds@.len() && #[trigger] native.kinds@[s] != Kind::Boxed
                        && used.contains(s as u32) && !(s < j.func.widen@.len()
                        && j.func.widen@[s])) ==> k.func.code is None
            },
            None => k.func.deopts@ == j.func.deopts@ && k.func.code == j.func.code,
        },
{
    if exists|s: int|
        0 <= s < native.kinds@.len() && #[trigger] native.kinds@[s] != Kind::Boxed
            && used.contains(s as u32) && !(s < j.func.widen@.len() && j.func.widen@[s]) {
        let s = choose|s: int|
            0 <= s < native.kinds@.len() && #[trigger] native.kinds@[s] != Kind::Boxed
                && used.contains(s as u32) && !(s < j.func.widen@.len() && j.func.widen@[s]);
        let w = widened_by_use(j.func.widen@, native.kinds@, used);
        let g = grown(j.func.widen@, native.kinds@.len());
        assert(w[s] && !g[s]);
        assert(w != g);
    }
}

/// Which slots are given up on after exits: those that were before, and those that the exit uses
/// and that were compiled for a kind.
pub proof fn lemma_widened_slots(widen: Seq<bool>, kinds: Seq<Kind>, used: Seq<u32>, s: int)
    requires
        0 <= s < kinds.len(),
    ensures
        s < widened_by_use(widen, kinds, used).len(),
        widened_by_use(widen, kinds, used)[s] <==> (s < widen.len() && widen[s]) || (kinds[s]
            != Kind::Boxed && used.contains(s as u32)),
{
}

proof fn lemma_deopt_index(deopts: Seq<(u32, u32)>, pc: u32)
    ensures
        deopt_index(deopts, pc) <= deopts.len(),
        deopt_index(deopts, pc) < deopts.len() ==> deopts[deopt_index(deopts, pc) as int].0 == pc,
        forall|i: int| 0 <= i < deopt_index(deopts, pc) ==> (#[trigger] deopts[i]).0 != pc,
    decreases deopts.len(),
{
    if deopts.len() > 0 && deopts[0].0 != pc {
        let d = deopts.drop_first();
        lemma_deopt_index(d, pc);
        assert forall|i: int| 0 <= i < deopt_index(deopts, pc) implies (#[trigger] deopts[i]).0
            != pc by {
            if i > 0 {
                assert(d[i - 1] == deopts[i]);
            }
        }
    }
}

/// The exits at a pc are counted one by one, up to the largest count; those at other pcs are not
/// touched. At most 64 pcs are counted.
pub proof fn lemma_exits_are_counted_by_pc(deopts: Seq<(u32, u32)>, pc: u32, n: u32, i: int)
    requires
        0 <= i < deopts.len(),
        forall|a: int, b: int| 0 <= a < b < deopts.len() ==> deopts[a].0 != deopts[b].0,
    ensures
        deopts[i] == (pc, n) ==> (counted(deopts, pc) matches Some((d, c)) && c == (if n < u32::MAX {
            n + 1
        } else {
            u32::MAX as int
        }) && d[i] == (pc, c) && d.len() == deopts.len()),
        deopts[i].0 != pc ==> (counted(deopts, pc) matches Some((d, _)) ==> d[i] == deopts[i]),
        (forall|k: int| 0 <= k < deopts.len() ==> (#[trigger] deopts[k]).0 != pc) ==> if deopts.len()
            < 64 {
            counted(deopts, pc) == Some((deopts.push((pc, 1u32)), 1u32))
        } else {
            counted(deopts, pc) is None
        },
{
    lemma_deopt_index(deopts, pc);
}

/// A frame has room for its record, its header, its slots and its operands, of which there is at
/// least one.
pub proof fn lemma_frames_have_room(n: usize, m: usize)
    requires
        n < usize::MAX,
        m < usize::MAX,
    ensures
        frame_size((n + 1) as usize, m) == frame_size(n, m) + 16,
        m > 0 ==> frame_size(n, (m + 1) as usize) == frame_size(n, m) + 16,
        frame_size(n, 0) == frame_size(n, 1),
        frame_size(0, 1) == 48 + 160 + 16,
{
}

// ---- entering and leaving -------------------------------------------------------------------

/// Code that is entered finds as many operand places as it needs; a resumed one finds the
/// operands that were there, in order.
pub proof fn lemma_entered_code_finds_its_operands(
    max_stack: usize,
    resume: u64,
    stack: Seq<Value>,
    i: int,
)
    requires
        0 <= i < area_of(max_stack, resume, stack).len(),
    ensures
        area_of(max_stack, resume, stack).len() == (if max_stack > 0 {
            max_stack as nat
        } else {
            1
        }),
        resume != 0 && i < stack.len() ==> area_of(max_stack, resume, stack)[i] == stack[i],
        resume == 0 || i >= stack.len() ==> area_of(max_stack, resume, stack)[i]
            == Value::Undefined,
{
}

/// What an exit means: a return gives its operand, a throw its exception, a failed entry is
/// interpreted, and any other goes on at its pc with the operands it left, under the handlers that
/// it names.
pub proof fn lemma_what_exits_mean(x: Exit, e: Entered, native: Native, pc: u64, kind: u64)
    requires
        kind < 0x100,
        pc < 0x100_0000_0000_0000,
        x.word == (pc << 8) | kind,
        x.depth <= x.area@.len(),
    ensures
        kind == 2 ==> stack_of(x, e).len() == 0 && step_of(x, native) == Step::Done(
            if x.depth > 0 {
                x.area@[0]
            } else {
                Value::Undefined
            },
        ) && !resumes(x),
        kind == 1 ==> step_of(x, native) == Step::Throw(x.exception) && !resumes(x),
        kind == 3 ==> step_of(x, native) == Step::Interpret && !resumes(x) && stack_of(x, e)
            == if e.resume != 0 {
            x.area@.take(e.moved as int)
        } else {
            Seq::<Value>::empty()
        },
        kind != 1 && kind != 2 && kind != 3 ==> {
            &&& resumes(x)
            &&& pc_of_exit(x.word) == pc
            &&& stack_of(x, e) == x.area@.take(x.depth as int)
            &&& x.hset == 0 || x.hset > native.hsets@.len() ==> step_of(x, native)
                == Step::Interpret
            &&& 0 < x.hset <= native.hsets@.len() ==> step_of(x, native) == Step::Handlers(
                (x.hset - 1) as usize,
            )
        },
{
    lemma_exit_word_reads_back(pc, kind);
    assert(x.word == exit_word(pc, kind));
}

/// What an exit does to the tier: a failed entry counts for what was entered, a loop is retired
/// where a guarded site stopped holding, and a return or a throw changes nothing.
pub proof fn lemma_what_exits_do(
    j: ChunkJit,
    k: ChunkJit,
    ops: Seq<Op>,
    slots: Seq<Value>,
    e: Entered,
    native: Native,
    x: Exit,
    notes: ExitNotes,
    used: Seq<u32>,
)
    requires
        jit_effect(j, k, ops, slots, e, native, x, notes, used),
    ensures
        kind_of_exit(x.word) == 1 || kind_of_exit(x.word) == 2 ==> k == j,
        kind_of_exit(x.word) == 3 && e.resume != 0 ==> k == j,
        kind_of_exit(x.word) == 3 && e.resume == 0 ==> match e.region {
            Some((h, b)) => k.loops@ == failed_loops(j.loops@, h, b) && k.func == j.func
                && k.fstate == j.fstate,
            None => entry_failed_effect(j, k, slots, native.kinds@),
        },
        kind_of_exit(x.word) == 0 && site_stopped(native, pc_of_exit(x.word) as usize, notes)
            ==> match e.region {
            Some((h, b)) => k.loops@ == retired_loops(j.loops@, h, b) && k.func == j.func,
            None => true,
        },
        kind_of_exit(x.word) == 0 && e.region is Some && !site_stopped(
            native,
            pc_of_exit(x.word) as usize,
            notes,
        ) ==> k.loops@ == j.loops@ && k.func == j.func,
        kind_of_exit(x.word) == 0 && e.region is None ==> deopt_effect(
            j,
            k,
            ops,
            pc_of_exit(x.word) as u32,
            native,
            notes,
            used,
        ),
{
}

/// A site stopped holding where it is guarded, where it speculated on a Number that was none, and
/// where a typed array was not what it was.
pub proof fn lemma_sites_that_stopped(n: Native, pc: usize, notes: ExitNotes)
    ensures
        n.guarded@.contains(pc) ==> site_stopped(n, pc, notes),
        n.num_exits@.contains(pc) && notes.num_exit ==> site_stopped(n, pc, notes),
        notes.ta_exit ==> site_stopped(n, pc, notes),
        !n.guarded@.contains(pc) && !notes.ta_exit && !(n.num_exits@.contains(pc) && notes.num_exit)
            ==> !site_stopped(n, pc, notes),
{
}

// ---- compiling ------------------------------------------------------------------------------

/// An import is a helper, or an address of the unit's own table.
pub proof fn lemma_imports_are_found(externs: Seq<u64>, id: u32, helper: Option<u64>)
    ensures
        id < 0x1_0000 ==> address_of(externs, id, helper) == helper,
        id >= 0x1_0000 && id - 0x1_0000 < externs.len() ==> address_of(externs, id, helper) == Some(
            externs[id - 0x1_0000],
        ),
        id >= 0x1_0000 && id - 0x1_0000 >= externs.len() ==> address_of(externs, id, helper)
            is None,
{
}

/// An attempt is counted as one that gave code or one that did not, with its time.
pub proof fn lemma_attempts_are_counted(t: CompileTotals, us: u64, failed: bool)
    requires
        t.ok < u32::MAX,
        t.bailed < u32::MAX,
        t.us + us <= u64::MAX,
    ensures
        t.with(us, failed).us == t.us + us,
        failed ==> t.with(us, failed).bailed == t.bailed + 1 && t.with(us, failed).ok == t.ok,
        !failed ==> t.with(us, failed).ok == t.ok + 1 && t.with(us, failed).bailed == t.bailed,
{
}

/// The report of an attempt says what it was, how long it took, how it went and the totals; of a
/// failure it keeps the first sixty characters.
pub proof fn lemma_attempts_are_reported(t: CompileTotals, kind: Seq<char>, us: u64, e: Seq<char>)
    ensures
        t.report(kind, us, None) == "[jit-stats] "@ + kind + " "@ + dec_digits(us as nat) + " us "@
            + "ok"@ + " | total "@ + dec_digits(t.us as nat) + " us, "@ + dec_digits(t.ok as nat)
            + " ok, "@ + dec_digits(t.bailed as nat) + " bailed"@,
        e.len() <= 60 ==> outcome_text(Some(e)) == "bail: "@ + e,
        e.len() > 60 ==> outcome_text(Some(e)) == "bail: "@ + e.subrange(0, 60),
        t.report(kind, us, Some(e)) == "[jit-stats] "@ + kind + " "@ + dec_digits(us as nat)
            + " us "@ + outcome_text(Some(e)) + " | total "@ + dec_digits(t.us as nat) + " us, "@
            + dec_digits(t.ok as nat) + " ok, "@ + dec_digits(t.bailed as nat) + " bailed"@,
{
    if e.len() > 60 {
        assert(e.take(60) =~= e.subrange(0, 60));
    }
}

// ---- planned constructions ------------------------------------------------------------------

proof fn lemma_stores(slots: Seq<PlanSrc>, argc: usize, n: nat, k: int, a: u16)
    requires
        n <= slots.len(),
        n <= u32::MAX,
    ensures
        stores_of(slots, argc, n).contains((k as u32, a)) && 0 <= k < n <==> 0 <= k < n && slots[k]
            == PlanSrc::Arg(a) && a < argc,
        forall|i: int|
            0 <= i < stores_of(slots, argc, n).len() ==> (#[trigger] stores_of(slots, argc, n)[i]).0
                < n,
    decreases n,
{
    if n > 0 {
        let m = (n - 1) as nat;
        lemma_stores(slots, argc, m, k, a);
        let s = stores_of(slots, argc, m);
        let t = stores_of(slots, argc, n);
        if 0 <= k < n {
            if s.contains((k as u32, a)) {
                let i = choose|i: int| 0 <= i < s.len() && s[i] == (k as u32, a);
                assert(t[i] == (k as u32, a));
            }
            if t.contains((k as u32, a)) && k < m {
                let i = choose|i: int| 0 <= i < t.len() && t[i] == (k as u32, a);
                if i < s.len() {
                    assert(s[i] == (k as u32, a));
                }
            }
            if k == m && slots[k] == PlanSrc::Arg(a) && a < argc {
                assert(t.last() == (k as u32, a));
                assert(t[t.len() - 1] == (k as u32, a));
            }
            if k == m && t.contains((k as u32, a)) {
                let i = choose|i: int| 0 <= i < t.len() && t[i] == (k as u32, a);
                if i < s.len() {
                    assert(s[i].0 < m);
                }
            }
        }
    }
}

/// A planned `new` stores an argument into an entry exactly where the plan says that the entry is
/// that argument, and it is passed.
pub proof fn lemma_planned_stores_are_the_plans(slots: Seq<PlanSrc>, argc: usize, k: int, a: u16)
    requires
        0 <= k < slots.len(),
        slots.len() <= u32::MAX,
    ensures
        stores_of(slots, argc, slots.len()).contains((k as u32, a)) <==> slots[k] == PlanSrc::Arg(a)
            && a < argc,
{
    lemma_stores(slots, argc, slots.len(), k, a);
}

/// The callee of a planned `new` is the object it was planned for; only one that the operand owns
/// is used up.
pub proof fn lemma_planned_callees(v: RawValue, n: u64, b: bool, word: u64)
    ensures
        callee_matches(Operand::Pinned, word) == Some(false),
        callee_matches(Operand::Ref(v), word) is Some <==> v.tag == TAG_OBJ && v.payload == word,
        callee_matches(Operand::Boxed(v), word) is Some <==> v.tag == TAG_OBJ && v.payload == word,
        callee_matches(Operand::Ref(v), word) != Some(true),
        callee_matches(Operand::Boxed(v), word) != Some(false),
        callee_matches(Operand::Num(n), word) is None,
        callee_matches(Operand::Bool(b), word) is None,
{
}

/// An argument that is stored reads back as the value it was.
pub proof fn lemma_stored_arguments_read_back(v: RawValue, n: u64, b: bool)
    requires
        v.wf(),
        !crate::num::nan(n),
        v.tag == TAG_NUM ==> !crate::num::nan(v.payload),
    ensures
        unpacked(arg_word(Operand::Boxed(v))) == v,
        unpacked(arg_word(Operand::Ref(v))) == v,
        unpacked(arg_word(Operand::Num(n))) == (RawValue { tag: TAG_NUM, payload: n, flag: false }),
        unpacked(arg_word(Operand::Bool(b))) == (RawValue { tag: TAG_BOOL, payload: 0, flag: b }),
{
    crate::bytecode::jit::words::lemma_boxing_round_trip(v);
    let x = RawValue { tag: TAG_NUM, payload: n, flag: false };
    let y = RawValue { tag: TAG_BOOL, payload: 0, flag: b };
    crate::bytecode::jit::words::lemma_boxing_round_trip(x);
    crate::bytecode::jit::words::lemma_boxing_round_trip(y);
    assert(packed(x) == arg_word(Operand::Num(n)));
    assert(packed(y) == arg_word(Operand::Bool(b)));
}

/// The prototype of a new instance is the constructor's own `prototype`, or the default one where
/// that is no object.
pub proof fn lemma_planned_prototypes(own: Option<Value>, object_proto: u64)
    ensures
        own is None ==> proto_of(own, object_proto) is None,
        own matches Some(Value::Obj(p)) ==> proto_of(own, object_proto) == Some(p),
        own is Some && !(own->0 is Obj) ==> proto_of(own, object_proto) == Some(object_proto),
{
}

// ---- reading memory -------------------------------------------------------------------------

proof fn lemma_ways(cells: Seq<IcState>, n: nat, shape: u32, k: int)
    requires
        n <= cells.len(),
    ensures
        0 <= k < n && cells[k].depth == 0 && cells[k].recv_shape == shape && (forall|i: int|
            0 <= i < k ==> !((#[trigger] cells[i]).depth == 0 && cells[i].recv_shape == shape))
            ==> way_slot(ways_of(cells, n), shape) == Some(cells[k].slot),
        (forall|i: int|
            0 <= i < n ==> !((#[trigger] cells[i]).depth == 0 && cells[i].recv_shape == shape))
            ==> way_slot(ways_of(cells, n), shape) is None,
        way_slot(ways_of(cells, n), shape) is Some <==> crate::bytecode::jit::prop_access::has_shape(
            ways_of(cells, n),
            shape,
        ),
    decreases n,
{
    if n > 0 {
        let m = (n - 1) as nat;
        lemma_ways(cells, m, shape, k);
        let w = ways_of(cells, m);
        let st = cells[n - 1];
        lemma_way_slot_push(w, (st.recv_shape, st.slot), shape);
        lemma_has_shape_push(w, (st.recv_shape, st.slot), shape);
        lemma_has_shape(w, shape);
        lemma_has_shape(ways_of(cells, n), shape);
    }
}

proof fn lemma_has_shape(w: Seq<(u32, u32)>, shape: u32)
    ensures
        way_slot(w, shape) is Some <==> crate::bytecode::jit::prop_access::has_shape(w, shape),
    decreases w.len(),
{
    if w.len() > 0 && w[0].0 != shape {
        let d = w.drop_first();
        lemma_has_shape(d, shape);
        if crate::bytecode::jit::prop_access::has_shape(w, shape) {
            let i = choose|i: int| 0 <= i < w.len() && (#[trigger] w[i]).0 == shape;
            assert(d[i - 1].0 == shape);
        }
        if crate::bytecode::jit::prop_access::has_shape(d, shape) {
            let i = choose|i: int| 0 <= i < d.len() && (#[trigger] d[i]).0 == shape;
            assert(w[i + 1].0 == shape);
        }
    }
}

proof fn lemma_has_shape_push(w: Seq<(u32, u32)>, x: (u32, u32), shape: u32)
    ensures
        crate::bytecode::jit::prop_access::has_shape(w.push(x), shape)
            <==> crate::bytecode::jit::prop_access::has_shape(w, shape) || x.0 == shape,
{
    let p = w.push(x);
    if crate::bytecode::jit::prop_access::has_shape(w, shape) {
        let i = choose|i: int| 0 <= i < w.len() && (#[trigger] w[i]).0 == shape;
        assert(p[i].0 == shape);
    }
    if x.0 == shape {
        assert(p[w.len() as int].0 == shape);
    }
    if crate::bytecode::jit::prop_access::has_shape(p, shape) {
        let i = choose|i: int| 0 <= i < p.len() && (#[trigger] p[i]).0 == shape;
        if i < w.len() {
            assert(w[i].0 == shape);
        }
    }
}

proof fn lemma_way_slot_push(w: Seq<(u32, u32)>, x: (u32, u32), shape: u32)
    ensures
        way_slot(w.push(x), shape) == if way_slot(w, shape) is Some {
            way_slot(w, shape)
        } else if x.0 == shape {
            Some(x.1)
        } else {
            None
        },
    decreases w.len(),
{
    reveal_with_fuel(way_slot, 3);
    if w.len() == 0 {
        assert(w.push(x).drop_first() =~= Seq::<(u32, u32)>::empty());
    } else {
        assert(w.push(x).drop_first() =~= w.drop_first().push(x));
        lemma_way_slot_push(w.drop_first(), x, shape);
    }
}

/// A cached read of an ordinary object finds the entry that the cache recorded first for its
/// shape as an own property, and never an accessor or a shape that was not recorded.
pub proof fn lemma_cached_reads_are_of_the_recorded_entry(
    mem: Mem,
    v: RawValue,
    cells: Seq<IcState>,
    k: int,
)
    requires
        v.tag == TAG_OBJ,
        v.payload < mem.objects@.len(),
        0 <= k < cells.len(),
        cells[k].depth == 0,
        cells[k].recv_shape == mem.objects@[v.payload as int].shape,
        forall|i: int|
            0 <= i < k ==> !((#[trigger] cells[i]).depth == 0 && cells[i].recv_shape
                == cells[k].recv_shape),
    ensures
        ({
            let o = mem.objects@[v.payload as int];
            let s = cells[k].slot as int;
            cached_word(mem, v, ways_of(cells, cells.len())) == if o.borrow >= 0 && o.ic_plain
                && o.exotic == Exotic::Ordinary && s < o.entries@.len() && !o.entries@[s].accessor {
                Some(o.entries@[s].word)
            } else {
                None
            }
        }),
{
    lemma_ways(cells, cells.len(), cells[k].recv_shape, k);
}

/// A read gives the value of the word: copied, or with a count where it has one and that is taken;
/// an uninitialized one is left to the interpreter.
pub proof fn lemma_words_read_as_their_value(w: u64, takes: bool)
    ensures
        counted_word(w) && takes ==> read_word(w, takes) == PropRead::Counted(w),
        counted_word(w) && !takes ==> read_word(w, takes) == PropRead::Miss,
        top_of(w) == TOP_EMPTY ==> read_word(w, takes) == PropRead::Miss,
        read_word(w, takes) matches PropRead::Copied(tag, payload) ==> {
            &&& !counted_word(w)
            &&& tag == unpacked(w).tag
            &&& tag != TAG_BOOL ==> payload == unpacked(w).payload
            &&& tag == TAG_BOOL ==> payload == if unpacked(w).flag {
                1u64
            } else {
                0
            }
        },
{
}

/// A chain of shapes is followed from an object along its prototypes, and holds only while every
/// one of them is ordinary, readable and of its shape.
pub proof fn lemma_chains_are_followed_along_prototypes(mem: Mem, at: u64, shapes: Seq<u32>)
    requires
        shapes.len() > 0,
        at < mem.objects@.len(),
    ensures
        ({
            let o = mem.objects@[at as int];
            let fine = o.borrow >= 0 && o.ic_plain && o.exotic == Exotic::Ordinary && o.shape
                == shapes[0];
            &&& !fine ==> chain_holder(mem, at, shapes) is None
            &&& fine && shapes.len() == 1 ==> chain_holder(mem, at, shapes) == Some(at)
            &&& fine && shapes.len() > 1 && o.proto is Some ==> chain_holder(mem, at, shapes)
                == chain_holder(mem, o.proto->0, shapes.subrange(1, shapes.len() as int))
            &&& fine && shapes.len() > 1 && o.proto is None ==> chain_holder(mem, at, shapes)
                is None
        }),
{
    assert(shapes.drop_first() =~= shapes.subrange(1, shapes.len() as int));
}

/// A holder holds a method where its entry is that word, and an accessor where its getter or its
/// setter is that function.
pub proof fn lemma_holders_hold(mem: Mem, holder: u64, slot: u32, want: u64, set: bool)
    requires
        holder < mem.objects@.len(),
    ensures
        ({
            let es = mem.objects@[holder as int].entries@;
            &&& slot >= es.len() ==> !holds_word(mem, holder, slot, want) && !holds_accessor(
                mem,
                holder,
                slot,
                want,
                set,
            )
            &&& slot < es.len() ==> {
                let e = es[slot as int];
                &&& e.accessor ==> !holds_word(mem, holder, slot, want)
                &&& !e.accessor ==> !holds_accessor(mem, holder, slot, want, set)
                &&& !e.accessor ==> (holds_word(mem, holder, slot, want) <==> e.word == want)
                &&& e.accessor ==> (holds_accessor(mem, holder, slot, want, true) <==> (
                e.set matches Some(f) && f.tag == TAG_OBJ && f.payload == want))
                &&& e.accessor ==> (holds_accessor(mem, holder, slot, want, false) <==> (
                e.get matches Some(f) && f.tag == TAG_OBJ && f.payload == want))
            }
        }),
{
}

/// An object is read while it is not borrowed for writing, and written while it is not borrowed.
pub proof fn lemma_borrowed_objects_are_left_alone(mem: Mem, v: RawValue)
    ensures
        v.tag != TAG_OBJ || v.payload >= mem.objects@.len() ==> object_of(mem, v, true) is None
            && object_of(mem, v, false) is None,
        v.tag == TAG_OBJ && v.payload < mem.objects@.len() ==> {
            let o = mem.objects@[v.payload as int];
            &&& object_of(mem, v, false) is Some <==> o.borrow >= 0
            &&& object_of(mem, v, true) is Some <==> o.borrow == 0
            &&& object_of(mem, v, false) matches Some(x) ==> x == o
            &&& object_of(mem, v, true) matches Some(x) ==> x == o
        },
{
}

/// Packed elements are in order; else an element is the entry that the index map names.
pub proof fn lemma_elements_are_where_they_are_kept(o: ObjMem, i: int)
    requires
        0 <= i <= usize::MAX,
        o.dense is Some,
    ensures
        ({
            let d = o.dense->0;
            &&& d.packed is Some && i < d.packed->0@.len() ==> element(o, i) == Some(
                d.packed->0@[i],
            )
            &&& d.packed is None && i < d.inline@.len() ==> element(o, i) == Some(d.inline@[i])
            &&& d.packed is None && d.inline@.len() == 0 && i < d.elems@.len() && d.elems@[i]
                < o.entries@.len() ==> element(o, i) == Some(o.entries@[d.elems@[i] as int])
            &&& d.packed is Some && i >= d.packed->0@.len() ==> element(o, i) is None
        }),
{
}

/// Only a writable data entry without a count, that is initialized, is overwritten in place.
pub proof fn lemma_overwritable_entries(e: Entry)
    ensures
        e.accessor || !e.writable || counted_word(e.word) || top_of(e.word) == TOP_EMPTY
            ==> !overwritable(e),
        !e.accessor && e.writable && !counted_word(e.word) && top_of(e.word) != TOP_EMPTY
            ==> overwritable(e),
{
}

/// The packed entries of an array, where there are enough of them.
pub proof fn lemma_packed_entries(o: ObjMem, n: usize)
    ensures
        packed_of(o, n) matches Some(p) ==> p.len() >= n && o.ic_plain && o.exotic == Exotic::Array,
        o.ic_plain && o.exotic == Exotic::Array && (o.dense matches Some(d) && d.packed is Some
            && d.packed->0@.len() >= n) ==> packed_of(o, n) == Some(o.dense->0.packed->0@),
        o.ic_plain && o.exotic == Exotic::Array && (o.dense matches Some(d) && d.packed is None
            && d.inline@.len() >= n) ==> packed_of(o, n) == Some(o.dense->0.inline@),
{
}

/// Slots beyond those that the code was compiled for are widened by nothing but what they were.
pub proof fn lemma_other_slots_stay_as_widened(
    widen: Seq<bool>,
    kinds: Seq<Kind>,
    slots: Seq<Value>,
    used: Seq<u32>,
    s: int,
)
    requires
        kinds.len() <= s < widen.len(),
    ensures
        s < widened_by_use(widen, kinds, used).len(),
        widened_by_use(widen, kinds, used)[s] == widen[s],
        s < widened_by_entry(widen, kinds, slots).len(),
        widened_by_entry(widen, kinds, slots)[s] == widen[s],
{
}

} // verus!
