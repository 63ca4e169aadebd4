//! The optimizing tier: entering native code, taking its exits, and probing memory.

use lumen::bytecode::jit::compiles::{import_address, link_address, CompileTotals, EXT_BASE, SELF_ID};
use lumen::bytecode::jit::enter::{take_exit, Entered, Exit, Step};
use lumen::bytecode::jit::function::ExitNotes;
use lumen::bytecode::jit::layout::{
    array_view, elem_get_num, elem_get_word, view_elem_num, DenseBuffers, Entry, Exotic, Mem,
    ObjMem, ViewKind,
};
use lumen::bytecode::jit::new_plan::{new_plan_ready, PlanGuards};
use lumen::bytecode::jit::prop_access::{
    accessor_probe, entry_word, gc_probe, getter_probe, method_probe, packed_words, probed_entries,
    prop_get, shaped_entries, side_table_object, PropIc, PropRead,
};
use lumen::bytecode::jit::records::{CallRec, CallStack};
use lumen::bytecode::jit::tier::{ChunkJit, FnTier, Kind, Native, Plan, MAX_COMPILES};
use lumen::bytecode::jit::words::{
    bool_word, num_word, value_packed, word_counted, RawValue, TAG_NUM, TAG_OBJ, TAG_UNDEFINED,
};
use lumen::bytecode::op::Op;
use lumen::value::Value;

fn bits(x: f64) -> u64 {
    x.to_bits()
}

fn object(i: u64) -> RawValue {
    RawValue { tag: TAG_OBJ, payload: i, flag: false }
}

fn native(id: u64) -> Native {
    Native {
        id,
        entry: 0x1000 + id,
        max_stack: 2,
        hsets: vec![vec![(40, 0)]],
        kinds: vec![Kind::Num, Kind::Boxed],
        guarded: vec![7],
        resumes: vec![(3, 0), (5, 1)],
        num_exits: vec![9],
    }
}

fn notes() -> ExitNotes {
    ExitNotes { ta_exit: false, num_exit: false }
}

fn left(word: u64, depth: u64, hset: u64) -> Exit {
    Exit { word, depth, hset, exception: Value::Null, area: vec![Value::Bool(true), Value::Null] }
}

const FUNCTION: Entered = Entered { region: None, resume: 0, moved: 0 };

#[test]
fn functions_are_compiled_after_enough_calls() {
    let mut j = ChunkJit::new();
    assert!(!j.entry_due(false));
    assert_eq!(j.calls, 1);
    assert!(j.entry_due(true));
    assert_eq!(j.on_entry(1, 0, true, true, false), Plan::Interpret);
    j.calls = 16;
    assert_eq!(j.on_entry(1, 1, true, true, false), Plan::Interpret);
    assert_eq!(j.on_entry(1, 0, true, false, false), Plan::Interpret);
    assert_eq!(j.on_entry(1, 0, true, true, false), Plan::Compile);
    assert_eq!(j.fn_built(4, Some(native(1))), Plan::Run);
    assert_eq!((j.fstate, j.direct.code), (FnTier::Code, 1));
    assert!(j.entry_due(false));
    assert_eq!(j.calls, 16);
    assert_eq!(j.native_code(4, 4).map(|n| n.id), Some(1));
    assert!(j.native_code(5, 4).is_none());
    assert_eq!(j.find_native(0x1001).map(|n| n.id), Some(1));
    j.retire_fn();
    assert_eq!((j.fstate, j.direct.code), (FnTier::Pending, 0));
    assert_eq!(j.find_native(0x1001).map(|n| n.id), Some(1));
    assert!(j.find_native(0x1002).is_none());
    assert_eq!(j.on_entry(1, 0, true, true, false), Plan::Compile);
    assert_eq!(j.fn_built(4, None), Plan::Interpret);
    assert_eq!(j.fstate, FnTier::Dead);
    assert!(!j.entry_due(true));
}

#[test]
fn a_function_runs_out_of_compiles() {
    let mut j = ChunkJit::new();
    for id in 0..MAX_COMPILES as u64 {
        assert_eq!(j.on_entry(0, 0, true, true, true), Plan::Compile);
        assert_eq!(j.fn_built(1, Some(native(id + 1))), Plan::Run);
        j.retire_fn();
    }
    assert_eq!(j.fstate, FnTier::Dead);
    assert_eq!(j.func.retired.len(), MAX_COMPILES as usize);
    assert_eq!(j.on_entry(0, 0, true, true, true), Plan::Interpret);
}

#[test]
fn async_bodies_resume_in_their_code() {
    let mut j = ChunkJit::new();
    let ops = vec![Op::Pop, Op::Await, Op::Pop];
    assert!(!j.resume_due(&ops, 2));
    assert_eq!(j.on_resume(3, 0), None);
    assert_eq!(j.on_entry(0, 0, true, true, true), Plan::Compile);
    j.fn_built(1, Some(native(1)));
    assert!(j.resume_due(&ops, 2));
    assert!(!j.resume_due(&ops, 1));
    assert!(!j.resume_due(&ops, 0));
    assert_eq!(j.on_resume(3, 0), Some(1));
    assert_eq!(j.on_resume(5, 1), Some(2));
    assert_eq!(j.on_resume(5, 0), None);
}

#[test]
fn backward_jumps_are_looked_at_now_and_again() {
    let mut j = ChunkJit::new();
    let mut due = 0;
    for _ in 0..2048 {
        if j.backedge_due(false) {
            due += 1;
        }
    }
    assert_eq!(due, 2);
    assert!(j.backedge_due(true));
}

#[test]
fn exits_say_what_the_interpreter_does() {
    let ops = vec![Op::Pop];
    let used: Vec<u32> = Vec::new();
    let mut j = ChunkJit::new();
    j.on_entry(0, 0, true, true, true);
    j.fn_built(1, Some(native(1)));
    let n = native(1);
    let mut stack: Vec<Value> = Vec::new();
    let mut pc: usize = 1;
    // A return hands out the operand and leaves the pc.
    let s = take_exit(&mut j, &ops, &[], &mut stack, &mut pc, &FUNCTION, &n, left(0x602, 1, 0), &notes(), &used);
    assert!(matches!(s, Step::Done(Value::Bool(true))));
    assert_eq!((pc, stack.len()), (1, 0));
    // Another exit goes on at its pc with its operands.
    let s = take_exit(&mut j, &ops, &[], &mut stack, &mut pc, &FUNCTION, &n, left(0x600, 2, 0), &notes(), &used);
    assert!(matches!(s, Step::Interpret));
    assert_eq!((pc, stack.len()), (6, 2));
    assert_eq!(j.func.deopts, vec![(6, 1)]);
    stack.clear();
    let s = take_exit(&mut j, &ops, &[], &mut stack, &mut pc, &FUNCTION, &n, left(0x600, 0, 1), &notes(), &used);
    assert!(matches!(s, Step::Handlers(0)));
    // A throw is passed on.
    let s = take_exit(&mut j, &ops, &[], &mut stack, &mut pc, &FUNCTION, &n, left(0x801, 0, 0), &notes(), &used);
    assert!(matches!(s, Step::Throw(Value::Null)));
    assert_eq!(pc, 8);
    // A failed resume entry gives the operands back; nothing is counted.
    let resume = Entered { region: None, resume: 2, moved: 1 };
    let s = take_exit(&mut j, &ops, &[], &mut stack, &mut pc, &resume, &n, left(0x003, 2, 0), &notes(), &used);
    assert!(matches!(s, Step::Interpret));
    assert_eq!((stack.len(), j.func.entry_fails), (1, 0));
    stack.clear();
    // Another failed entry is counted.
    take_exit(&mut j, &ops, &[], &mut stack, &mut pc, &FUNCTION, &n, left(0x003, 0, 0), &notes(), &used);
    assert_eq!(j.func.entry_fails, 1);
    // A guarded site that stopped holding retires the code.
    take_exit(&mut j, &ops, &[], &mut stack, &mut pc, &FUNCTION, &n, left(0x700, 0, 0), &notes(), &used);
    assert_eq!(j.fstate, FnTier::Pending);
    // So it does of a loop.
    j.on_backedge(2, 9, true, true, true);
    j.loop_built(2, 9, Some(native(2)));
    let region = Entered { region: Some((2, 9)), resume: 0, moved: 0 };
    take_exit(&mut j, &ops, &[], &mut stack, &mut pc, &region, &native(2), left(0x700, 0, 0), &notes(), &used);
    assert!(j.loops[0].code.is_none());
    // A call that the loop made may have dropped its code: its exits are taken all the same.
    stack.clear();
    let s = take_exit(&mut j, &ops, &[], &mut stack, &mut pc, &region, &native(2), left(0x602, 1, 0), &notes(), &used);
    assert!(matches!(s, Step::Done(Value::Bool(true))));
    assert!(j.loops[0].code.is_none());
    let s = take_exit(&mut j, &ops, &[], &mut stack, &mut pc, &region, &native(2), left(0x600, 2, 0), &notes(), &used);
    assert!(matches!(s, Step::Interpret));
    assert_eq!((pc, stack.len()), (6, 2));
}

#[test]
fn slots_that_keep_exiting_are_widened() {
    let ops = vec![Op::Pop];
    let mut j = ChunkJit::new();
    j.on_entry(0, 0, true, true, true);
    j.fn_built(2, Some(native(1)));
    let n = native(1);
    for _ in 0..31 {
        j.fn_deopt(&ops, 4, &n, &notes(), &vec![0]);
    }
    assert_eq!(j.fstate, FnTier::Code);
    j.fn_deopt(&ops, 4, &n, &notes(), &vec![0]);
    assert_eq!((j.fstate, j.func.widen.clone()), (FnTier::Pending, vec![true, false]));
    // Entry failures widen the slots whose kind moved.
    let mut j = ChunkJit::new();
    j.on_entry(0, 0, true, true, true);
    j.fn_built(2, Some(native(1)));
    for _ in 0..16 {
        j.fn_entry_failed(&[Value::Null, Value::Null], &n);
    }
    assert_eq!((j.fstate, j.func.widen.clone()), (FnTier::Pending, vec![true, false]));
}

fn entry(x: f64) -> Entry {
    Entry { word: num_word(bits(x)), accessor: false, writable: true, get: None, set: None }
}

fn plain(shape: u32, proto: Option<u64>, entries: Vec<Entry>) -> ObjMem {
    ObjMem {
        borrow: 0,
        exotic: Exotic::Ordinary,
        ic_plain: true,
        proto,
        shape,
        len_slot: None,
        entries,
        owned: true,
        dense: None,
    }
}

fn dense(packed: Option<Vec<Entry>>, elems: Vec<u32>, mirror: Vec<u64>) -> DenseBuffers {
    let mirror_ok = !mirror.is_empty();
    DenseBuffers { packed, inline: Vec::new(), elems, mirror, mirror_ok, mirror_all_i32: false }
}

#[test]
fn probes_follow_the_proved_chain() {
    let method = value_packed(&object(7));
    let getter = Entry { word: 0, accessor: true, writable: false, get: Some(object(9)), set: Some(object(10)) };
    let holder_entries = vec![
        Entry { word: method, accessor: false, writable: true, get: None, set: None },
        getter,
    ];
    let mut m = Mem {
        objects: vec![plain(1, Some(1), Vec::new()), plain(2, None, holder_entries)],
        strs: Vec::new(),
    };
    let shapes = vec![1, 2];
    assert!(method_probe(&m, &object(0), &shapes, 0, method));
    assert!(gc_probe(&m, 0, &shapes, 0, method));
    assert!(!method_probe(&m, &object(0), &shapes, 0, bool_word(true)));
    assert!(!method_probe(&m, &object(0), &vec![1, 3], 0, method));
    assert!(!method_probe(&m, &object(0), &shapes, 1, method));
    assert!(getter_probe(&m, &object(0), &shapes, 1, 9));
    assert!(!getter_probe(&m, &object(0), &shapes, 1, 10));
    assert!(accessor_probe(&m, &object(0), &shapes, 1, 10, true));
    assert!(!getter_probe(&m, &object(0), &shapes, 0, 9));
    let undefined = RawValue { tag: TAG_UNDEFINED, payload: 0, flag: false };
    assert!(!method_probe(&m, &undefined, &shapes, 0, method));
    m.objects[1].exotic = Exotic::Array;
    assert!(!method_probe(&m, &object(0), &shapes, 0, method));
}

#[test]
fn shaped_objects_are_guarded() {
    let mut m = Mem { objects: vec![plain(4, None, vec![entry(1.0), entry(2.0)])], strs: Vec::new() };
    assert_eq!(shaped_entries(&m, &object(0), 4, 1, true), Some(0));
    assert_eq!(shaped_entries(&m, &object(0), 4, 2, true), None);
    assert_eq!(shaped_entries(&m, &object(0), 5, 1, false), None);
    assert_eq!(entry_word(&m.objects[0], 1), Some(num_word(bits(2.0))));
    assert!(probed_entries(&m, 0, 1, true));
    m.objects[0].borrow = 1;
    assert!(!probed_entries(&m, 0, 1, true));
    assert!(probed_entries(&m, 0, 1, false));
    assert_eq!(shaped_entries(&m, &object(0), 4, 1, true), None);
    assert_eq!(shaped_entries(&m, &object(0), 4, 1, false), Some(0));
    assert_eq!(side_table_object(&m, &object(0)), None);
    m.objects[0].ic_plain = false;
    assert_eq!(side_table_object(&m, &object(0)), Some(0));
}

#[test]
fn cached_reads_hand_out_what_the_caller_takes() {
    let text = value_packed(&object(3));
    let entries = vec![
        entry(2.5),
        Entry { word: text, accessor: false, writable: true, get: None, set: None },
    ];
    let m = Mem { objects: vec![plain(4, None, entries)], strs: Vec::new() };
    let num = PropIc { ways: vec![(4, 0)] };
    let obj = PropIc { ways: vec![(9, 0), (4, 1)] };
    assert_eq!(prop_get(&m, &object(0), &num, false), PropRead::Copied(TAG_NUM, bits(2.5)));
    assert_eq!(prop_get(&m, &object(0), &obj, true), PropRead::Counted(text));
    assert_eq!(prop_get(&m, &object(0), &obj, false), PropRead::Miss);
    assert_eq!(prop_get(&m, &object(0), &PropIc { ways: vec![(9, 0)] }, true), PropRead::Miss);
    assert_eq!(word_counted(text), (true, false, 3));
    assert!(!word_counted(num_word(bits(1.0))).0);
}

#[test]
fn views_read_what_the_elements_are() {
    let mut packed = plain(5, None, Vec::new());
    packed.exotic = Exotic::Array;
    packed.dense = Some(dense(Some(vec![entry(1.0), entry(2.0)]), Vec::new(), Vec::new()));
    let mut mirrored = plain(6, None, vec![entry(3.0), entry(4.0)]);
    mirrored.dense = Some(dense(None, vec![1, 0], vec![bits(4.0), bits(3.0)]));
    let m = Mem { objects: vec![packed, mirrored], strs: Vec::new() };
    assert_eq!(array_view(&m, &object(0)), (ViewKind::Packed, 2));
    assert_eq!(array_view(&m, &object(1)), (ViewKind::Mirror, 2));
    assert_eq!(array_view(&m, &object(2)), (ViewKind::Nothing, 0));
    for i in 0..2usize {
        let at = bits(i as f64);
        let seen = view_elem_num(&m.objects[0], ViewKind::Packed, i);
        assert_eq!(seen, elem_get_num(&m, &object(0), at));
        let seen = view_elem_num(&m.objects[1], ViewKind::Mirror, i);
        assert_eq!(seen, elem_get_num(&m, &object(1), at));
    }
    assert_eq!(elem_get_word(&m, &object(0), bits(1.0)), Some(num_word(bits(2.0))));
    assert_eq!(elem_get_word(&m, &object(1), bits(0.0)), Some(num_word(bits(4.0))));
    assert_eq!(elem_get_word(&m, &object(0), bits(2.0)), None);
    let words = vec![num_word(bits(1.0)), num_word(bits(2.0))];
    assert_eq!(packed_words(&m, &object(0), 2), Some(words));
    assert_eq!(packed_words(&m, &object(0), 3), None);
    assert_eq!(packed_words(&m, &object(1), 1), None);
}

#[test]
fn templates_wait_for_the_collector() {
    let mut g = PlanGuards {
        gc_tick: 6,
        poll_mask: 7,
        terminating: false,
        multi_realm: false,
        guards_ok: true,
    };
    let own = Some(Value::Obj(8));
    assert_eq!(new_plan_ready(&g, &own, 2, Some(8)), Some((8, 7)));
    assert_eq!(new_plan_ready(&g, &Some(Value::Null), 2, Some(2)), Some((2, 7)));
    assert_eq!(new_plan_ready(&g, &None, 2, Some(2)), None);
    assert_eq!(new_plan_ready(&g, &own, 2, Some(9)), None);
    g.gc_tick = 7;
    assert_eq!(new_plan_ready(&g, &own, 2, Some(8)), None);
}

#[test]
fn dead_coroutines_leave_no_records() {
    let rec = |coro: u32, fn_ptr: u64| CallRec {
        strict: false,
        construct: false,
        synced: false,
        site: 1,
        coro,
        fn_ptr,
    };
    let mut c = CallStack { fn_frames: Vec::new(), recs: vec![rec(0, 1), rec(4, 2), rec(0, 3)] };
    c.evict_coro_frames(4);
    let left: Vec<u64> = c.recs.iter().map(|r| r.fn_ptr).collect();
    assert_eq!(left, vec![1, 3]);
}

#[test]
fn imports_are_helpers_externals_or_the_unit_itself() {
    let externs = [0x10, 0x20];
    assert_eq!(import_address(&externs, 3, Some(0x99)), Some(0x99));
    assert_eq!(import_address(&externs, EXT_BASE + 1, None), Some(0x20));
    assert_eq!(import_address(&externs, EXT_BASE + 2, Some(0x99)), None);
    assert_eq!(link_address(&[0x5000, 0x6000], &externs, SELF_ID, None), Some(0x5000));
    assert_eq!(link_address(&[], &externs, SELF_ID, Some(1)), None);
    assert_eq!(link_address(&[0x5000], &externs, EXT_BASE, None), Some(0x10));
}

#[test]
fn compile_attempts_are_reported_with_their_totals() {
    let mut t = CompileTotals::new();
    assert_eq!(
        t.attempt("loop", 12, None),
        "[jit-stats] loop 12 us ok | total 12 us, 1 ok, 0 bailed"
    );
    let long = "x".repeat(70);
    let expected = format!("[jit-stats] fn 30 us bail: {} | total 42 us, 1 ok, 1 bailed", "x".repeat(60));
    assert_eq!(t.attempt("fn", 30, Some(&long)), expected);
    assert_eq!((t.ok, t.bailed, t.us), (1, 1, 42));
}
