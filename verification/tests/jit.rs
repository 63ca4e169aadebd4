//! The optimizing tier: boxed words, memory fast paths, tier state and calls.

use lumen::bytecode::jit::direct::{begin_direct, direct_exit, direct_ready, end_direct, seed_slots, Callee, Seed};
use lumen::bytecode::jit::enter::{enter, exit, finish_handlers, region_handlers, Stepped, Stepping};
use lumen::bytecode::jit::function::frame_bytes;
use lumen::bytecode::jit::layout::{
    array_len, elem_get_num, elem_set_num, str_ascii_unit, DenseBuffers, Entry, Exotic, Mem, ObjMem,
    StrMem,
};
use lumen::bytecode::jit::new_plan::{check_callee, plan_new, plan_site, Operand, PlanSrc};
use lumen::bytecode::jit::prop_access::{
    prop_get_num, prop_ic, prop_set_num, IcState,
};
use lumen::bytecode::jit::records::CallStack;
use lumen::bytecode::jit::tier::{ChunkJit, Kind, Native, Plan};
use lumen::bytecode::jit::words::{
    bool_word, num_word, value_packed, value_unpacked, word_num, RawValue, CANON_NAN, TAG_BOOL,
    TAG_NUM, TAG_OBJ, TAG_UNDEFINED,
};
use lumen::bytecode::prepared_call::{
    begin_native, call_compiled_prepared, call_native_prepared, call_once_direct, end_native,
    end_prepared, finish_call, iteration_args, iteration_result, tail_returned, take_args, Abrupt,
    Begun, CalleeKind, Engine, Finish, Once, PreparedCall, PreparedKind, Route, TailCall, UserFn,
};
use lumen::bytecode::reflect::{native_transparent, own_props, stash_tree};
use lumen::interpreter::call_cx::{CallCx, Shadow};
use lumen::interpreter::call_state::CallFlags;
use lumen::interpreter::frames::{NO_SITE, SITE_NATIVE};
use lumen::value::Value;

fn bits(x: f64) -> u64 {
    x.to_bits()
}

fn object(i: u64) -> RawValue {
    RawValue { tag: TAG_OBJ, payload: i, flag: false }
}

#[test]
fn boxed_words_read_back() {
    let vs = [
        RawValue { tag: TAG_NUM, payload: bits(1.5), flag: false },
        RawValue { tag: TAG_UNDEFINED, payload: 0, flag: false },
        RawValue { tag: TAG_BOOL, payload: 0, flag: true },
        RawValue { tag: TAG_OBJ, payload: 0x1234_5678, flag: false },
    ];
    for v in vs {
        assert_eq!(value_unpacked(value_packed(&v)), v);
    }
    assert_eq!(num_word(bits(f64::NAN)), CANON_NAN);
    assert_eq!(word_num(num_word(bits(-2.0))), Some(bits(-2.0)));
    assert_eq!(word_num(bool_word(true)), None);
}

fn entry(x: f64) -> Entry {
    Entry { word: num_word(bits(x)), accessor: false, writable: true, get: None, set: None }
}

/// An array with packed elements and a `length` in slot 0.
fn array(xs: &[f64]) -> ObjMem {
    ObjMem {
        borrow: 0,
        exotic: Exotic::Array,
        ic_plain: true,
        proto: None,
        shape: 5,
        len_slot: Some(0),
        entries: vec![entry(xs.len() as f64)],
        owned: false,
        dense: Some(DenseBuffers {
            packed: Some(xs.iter().map(|x| entry(*x)).collect()),
            inline: Vec::new(),
            elems: Vec::new(),
            mirror: Vec::new(),
            mirror_ok: false,
            mirror_all_i32: false,
        }),
    }
}

#[test]
fn element_writes_read_back() {
    let mut m = Mem { objects: vec![array(&[1.0, 2.0])], strs: Vec::new() };
    let a = object(0);
    assert_eq!(elem_get_num(&m, &a, bits(1.0)), Some(bits(2.0)));
    assert_eq!(elem_get_num(&m, &a, bits(2.0)), None);
    assert_eq!(elem_get_num(&m, &a, bits(0.5)), None);
    assert!(elem_set_num(&mut m, &a, bits(1.0), bits(7.0)));
    assert_eq!(elem_get_num(&m, &a, bits(1.0)), Some(bits(7.0)));
    assert_eq!(elem_get_num(&m, &a, bits(0.0)), Some(bits(1.0)));
    assert!(!elem_set_num(&mut m, &a, bits(9.0), bits(7.0)));
    assert_eq!(array_len(&m, &a), Some(2));
    m.objects[0].borrow = -1;
    assert_eq!(elem_get_num(&m, &a, bits(1.0)), None);
    let s = StrMem { bytes: b"ab".to_vec(), ascii: true };
    assert_eq!(str_ascii_unit(&s, bits(1.0)), Some(b'b'));
    assert_eq!(str_ascii_unit(&s, bits(2.0)), None);
}

#[test]
fn cached_slots_are_the_property() {
    let mut o = array(&[]);
    o.exotic = Exotic::Ordinary;
    o.owned = true;
    o.dense = None;
    o.len_slot = None;
    o.entries = vec![entry(4.0), entry(5.0)];
    let mut m = Mem { objects: vec![o], strs: Vec::new() };
    let other = IcState { depth: 1, recv_shape: 5, slot: 0 };
    let caches = vec![IcState { depth: 0, recv_shape: 5, slot: 1 }, other, other, other];
    assert!(prop_ic(&caches, 1).is_none());
    let ic = prop_ic(&caches, 0).unwrap();
    assert_eq!(prop_get_num(&m, &object(0), &ic), Some(bits(5.0)));
    assert!(prop_set_num(&mut m, &object(0), &ic, bits(6.0)));
    assert_eq!(prop_get_num(&m, &object(0), &ic), Some(bits(6.0)));
    m.objects[0].shape = 6;
    assert_eq!(prop_get_num(&m, &object(0), &ic), None);
}

fn native(id: u64) -> Native {
    Native {
        id,
        entry: 0x1000 + id,
        max_stack: 2,
        hsets: Vec::new(),
        kinds: Vec::new(),
        guarded: Vec::new(),
        resumes: Vec::new(),
        num_exits: Vec::new(),
    }
}

#[test]
fn loops_are_compiled_entered_and_retired() {
    let mut j = ChunkJit::new();
    assert_eq!(j.on_backedge(2, 9, true, false, false), Plan::Interpret);
    assert_eq!(j.on_backedge(2, 9, true, true, true), Plan::Compile);
    assert_eq!(j.loop_built(2, 9, Some(native(1))), Plan::Run);
    assert_eq!(j.on_backedge(2, 9, true, true, true), Plan::Run);
    j.retire_loop(2, 9);
    assert_eq!(j.on_backedge(2, 9, true, true, true), Plan::Compile);
    assert_eq!(j.loop_built(2, 9, None), Plan::Interpret);
}

#[test]
fn feedback_reads_back_per_site_and_kind() {
    let mut j = ChunkJit::new();
    assert_eq!(j.fb_get(4, 1), None);
    j.fb_put(4, 1, 70);
    j.fb_put(4, 2, 80);
    assert_eq!(j.fb_get(4, 1), Some(70));
    assert_eq!(j.fb_get(4, 2), Some(80));
    j.fb_put(4, 1, 71);
    assert_eq!(j.fb_get(4, 1), Some(71));
    assert_eq!(j.fb_get(5, 1), None);
    assert_eq!(Kind::of(&Value::Bool(true)), Kind::Bool);
    assert_eq!(Kind::of(&Value::Null), Kind::Boxed);
}

#[test]
fn exit_words_hold_a_pc_and_a_kind() {
    assert_eq!(exit(3, 2), 0x302);
    assert_eq!(frame_bytes(2, 3) - frame_bytes(2, 2), 16);
    let mut stack = vec![Value::Bool(true)];
    let cx = context();
    let f = enter(&cx.flags, &native(1), 1, &mut stack).unwrap();
    assert_eq!((f.moved, f.resume, f.budget), (1, 1, 1 << 12));
    assert_eq!(f.canon, cx.flags.canon_flags());
    assert!(stack.is_empty());
    assert_eq!(f.area.len(), 2);
    assert!(matches!(f.area[0], Value::Bool(true)));
    assert!(matches!(f.area[1], Value::Undefined));
    let mut deep = vec![Value::Null, Value::Null, Value::Null];
    assert!(enter(&cx.flags, &native(1), 1, &mut deep).is_none());
    assert_eq!(deep.len(), 3);
}

#[test]
fn handlers_catch_or_pass_on() {
    let mut hs = region_handlers(&vec![(40, 0)]);
    let mut stack = vec![Value::Null, Value::Null];
    let mut pc: usize = 3;
    let r = finish_handlers(&mut hs, &mut stack, &mut pc, Stepped::Threw(Value::Bool(true)));
    assert!(matches!(r, Stepping::Again | Stepping::Over));
    assert_eq!(pc, 40);
    assert_eq!(stack.len(), 1);
    let r = finish_handlers(&mut Vec::new(), &mut stack, &mut pc, Stepped::Threw(Value::Null));
    assert!(matches!(r, Stepping::Throw(Value::Null)));
    let mut hs = region_handlers(&vec![(40, 0)]);
    let r = finish_handlers(&mut hs, &mut stack, &mut pc, Stepped::Stopped);
    assert!(matches!(r, Stepping::Stop));
    assert_eq!(hs.len(), 1);
}

fn callee() -> Callee {
    Callee {
        fn_ptr: 12,
        strict: true,
        arrow: false,
        uses_this: true,
        n_params: 2,
        n_slots: 4,
        var_force_resets: vec![3],
    }
}

fn context() -> CallCx {
    CallCx {
        flags: CallFlags {
            strict: false,
            tco_ok: true,
            constructing: true,
            new_target: Value::Obj(3),
            in_field_init_code: true,
            in_async_gen_body: false,
        },
        calls: CallStack { fn_frames: Vec::new(), recs: Vec::new() },
        natives: Vec::new(),
        cur_site: 5,
        cur_coro: 0,
        depth: 0,
        max_depth: 3,
        shadow: Shadow { top: 0, end: 4096 },
    }
}

#[test]
fn slots_are_seeded_from_the_arguments() {
    let slots = seed_slots(&callee(), vec![Value::Null, Value::Null, Value::Bool(true)]);
    assert_eq!(slots.len(), 4);
    assert!(matches!(slots[1], Value::Null));
    assert!(matches!(slots[2], Value::Empty | Value::Undefined));
    let mut s = Seed { vals: Vec::new(), cap: 1 };
    assert!(s.wants());
    s.push(Value::Null);
    assert!(!s.wants());
}

#[test]
fn direct_calls_leave_the_context_as_it_was() {
    let mut j = ChunkJit::new();
    let mut cx = context();
    assert!(!direct_ready(&j, &cx.shadow));
    j.direct.entry = 0x2000;
    j.direct.size = frame_bytes(4, 2);
    j.direct.code = 1;
    assert!(direct_ready(&j, &cx.shadow));
    let frame = begin_direct(&mut cx, &j, &callee(), Value::Null, vec![Value::Null]);
    assert_eq!(cx.calls.recs.len(), 1);
    assert_eq!(cx.calls.pending_frames().len(), 1);
    assert!(cx.flags.strict && !cx.flags.constructing);
    assert!(matches!(direct_exit(0x502, Value::Null), Some(Value::Null)));
    assert!(direct_exit(0x501, Value::Null).is_none());
    end_direct(&mut cx, frame);
    assert!(cx.calls.recs.is_empty());
    assert!(!cx.flags.strict && cx.flags.constructing);
    assert_eq!(cx.shadow.top, 0);
    assert_eq!(cx.cur_site, 5);
}

#[test]
fn constructors_are_planned_from_their_template() {
    let c = object(9);
    let plan = vec![PlanSrc::Const(1), PlanSrc::Arg(0), PlanSrc::Arg(1)];
    let site = plan_site(&c, Some(&plan), 2).unwrap();
    assert_eq!(site.stores, vec![(1, 0), (2, 1)]);
    assert_eq!(check_callee(&Operand::Num(0), site.word), None);
    assert_eq!(check_callee(&Operand::Ref(c), site.word), Some(false));
    assert_eq!(check_callee(&Operand::Boxed(c), site.word), Some(true));
    assert!(plan_site(&c, None, 2).is_none());
    let args = vec![Operand::Num(bits(1.0)), Operand::Bool(true)];
    assert!(plan_new(&site, &Operand::Num(0), true, &args).is_none());
    assert!(plan_new(&site, &Operand::Boxed(c), false, &args).is_none());
    let stores = plan_new(&site, &Operand::Boxed(c), true, &args).unwrap();
    assert!(stores.consumes_callee && stores.drops.is_empty());
    assert_eq!(stores.words, vec![(1, num_word(bits(1.0))), (2, bool_word(true))]);
}

fn user(code: Option<Callee>) -> CalleeKind {
    CalleeKind::User(UserFn {
        code,
        is_generator: false,
        is_async: false,
        is_class: false,
        under_with: false,
        has_activation: false,
        has_arguments: false,
        has_rest: false,
        reflect_args: false,
    })
}

#[test]
fn prepared_calls_take_the_ordinary_route_when_something_changed() {
    let e = Engine { interp_tier: false, multi_realm: false, reflect_on: false };
    let mut pool: Vec<(Vec<Value>, Vec<Value>)> = vec![(Vec::new(), Vec::new())];
    let c = PreparedCall::new(Value::Obj(12), Value::Null, false, &e, user(Some(callee())), &mut pool);
    let mut cx = context();
    assert_eq!(c.route(&cx, &e), Route::Compiled);
    cx.depth = 3;
    assert_eq!(c.route(&cx, &e), Route::Ordinary);
    cx.depth = 0;
    let multi = Engine { interp_tier: false, multi_realm: true, reflect_on: false };
    assert_eq!(c.route(&cx, &multi), Route::Ordinary);
    assert!(pool.is_empty());
    c.finish(&mut pool);
    assert_eq!(pool.len(), 1);
    let n = PreparedCall::new(
        Value::Obj(13),
        Value::Null,
        false,
        &e,
        CalleeKind::Native { id: 44, eval_realm: false },
        &mut pool,
    );
    assert_eq!(n.route(&cx, &e), Route::Native(44));
    let g = PreparedCall::new(Value::Obj(14), Value::Null, false, &e, user(None), &mut pool);
    assert_eq!(g.route(&cx, &e), Route::Ordinary);
    let once = call_once_direct(
        &mut cx,
        &ChunkJit::new(),
        &Value::Null,
        false,
        &e,
        &CalleeKind::Other,
        Value::Undefined,
        Value::Bool(true),
        Ok(()),
    );
    assert!(matches!(once, Once::Ordinary(Value::Bool(true))));
}

#[test]
fn single_calls_run_function_code_directly() {
    let e = Engine { interp_tier: false, multi_realm: false, reflect_on: false };
    let mut j = ChunkJit::new();
    j.direct.entry = 0x2000;
    j.direct.size = frame_bytes(4, 2);
    j.direct.code = 1;
    let kind = user(Some(callee()));
    let mut cx = context();
    let once = |cx: &mut CallCx, poll: Result<(), Value>| {
        call_once_direct(
            cx,
            &j,
            &Value::Obj(12),
            false,
            &e,
            &kind,
            Value::Undefined,
            Value::Bool(true),
            poll,
        )
    };
    assert!(matches!(once(&mut cx, Err(Value::Null)), Once::Threw(Value::Null)));
    assert_eq!((cx.depth, cx.calls.recs.len()), (0, 0));
    match once(&mut cx, Ok(())) {
        Once::Direct(f) => {
            assert_eq!((cx.depth, cx.calls.recs.len()), (1, 1));
            assert!(matches!(f.slots[0], Value::Bool(true)));
            end_direct(&mut cx, f);
        }
        _ => panic!("the code can run"),
    }
    assert!(cx.calls.recs.is_empty());
}

#[test]
fn arguments_are_taken_up_to_what_the_callee_reads() {
    let mut args = vec![Value::Null, Value::Bool(true), Value::Undefined];
    let taken = take_args(&mut args, 2);
    assert_eq!(taken.len(), 2);
    assert!(matches!(taken[1], Value::Bool(true)));
    let it = iteration_args(Value::Null, Value::Bool(false), &Value::Obj(4), 3);
    assert!(matches!(it[2], Value::Obj(4)));
    assert_eq!(iteration_args(Value::Null, Value::Null, &Value::Null, 1).len(), 1);
    assert_eq!(context().cur_site, 5);
    assert_ne!(NO_SITE, 5);
    assert!(matches!(iteration_result(Ok(Value::Null)), Ok(Value::Null)));
    assert!(matches!(iteration_result(Err(Abrupt::Throw(Value::Null))), Err(Value::Null)));
    assert!(matches!(iteration_result(Err(Abrupt::Other)), Err(Value::Undefined)));
}

#[test]
fn driven_calls_leave_the_context_as_it_was() {
    let mut cx = context();
    assert!(cx.enter_call(Err(Value::Null)).is_err());
    assert_eq!(cx.depth, 0);
    assert!(cx.enter_call(Ok(())).is_ok());
    assert_eq!(cx.depth, 1);
    cx.depth = 0;
    let e = Engine { interp_tier: false, multi_realm: false, reflect_on: false };
    let mut pool: Vec<(Vec<Value>, Vec<Value>)> = Vec::new();
    let mut call =
        PreparedCall::new(Value::Obj(12), Value::Obj(4), false, &e, user(Some(callee())), &mut pool);
    let c = match &mut call.kind {
        PreparedKind::Compiled(c) => c,
        _ => panic!("a plain compiled function is prepared"),
    };
    let j = ChunkJit::new();
    let args = vec![Value::Null];
    let begun = call_compiled_prepared(&mut cx, &j, c, Value::Obj(4), args, Err(Value::Null));
    assert!(matches!(begun, Begun::Threw(Value::Null)));
    assert_eq!(cx.depth, 0);
    let args = vec![Value::Null];
    let begun = call_compiled_prepared(&mut cx, &j, c, Value::Obj(4), args, Ok(()));
    let frame = match begun {
        Begun::Driven(f) => f,
        _ => panic!("there is no code to run"),
    };
    assert_eq!(cx.depth, 1);
    assert!(matches!(frame.this_val, Value::Obj(4)));
    assert_eq!(c.slots.len(), 4);
    assert_eq!((cx.calls.fn_frames.len(), cx.cur_site), (1, NO_SITE));
    assert!(cx.flags.strict && !cx.flags.constructing);
    stash_tree(&mut cx, &vec![Value::Bool(true)], 6);
    let stash = cx.calls.fn_frames[0].extra.as_ref().unwrap().reflect.as_ref().unwrap();
    assert_eq!((stash.args.len(), stash.scope), (1, Some(6)));
    end_prepared(&mut cx, c, frame);
    assert!(c.slots.is_empty());
    assert_eq!((cx.calls.fn_frames.len(), cx.cur_site), (0, 5));
    assert!(!cx.flags.strict && cx.flags.constructing);
    call.finish(&mut pool);
    assert_eq!(pool.len(), 1);
}

#[test]
fn native_calls_leave_the_context_as_it_was() {
    let mut cx = context();
    assert!(call_native_prepared(&mut cx, 44, &Value::Obj(9), Err(Value::Null)).is_err());
    assert_eq!((cx.depth, cx.natives.len()), (0, 0));
    let saved = begin_native(&mut cx, 44, &Value::Obj(9));
    assert_eq!(cx.cur_site, 5 | SITE_NATIVE);
    assert_eq!((cx.natives[0].id, cx.natives[0].this), (44, Some(9)));
    assert!(!cx.flags.constructing && matches!(cx.flags.new_target, Value::Undefined));
    native_transparent(&mut cx);
    assert_eq!(cx.cur_site, 5);
    assert!(cx.natives[0].hidden);
    end_native(&mut cx, saved);
    assert!(cx.natives.is_empty() && cx.flags.constructing);
    assert!(matches!(cx.flags.new_target, Value::Obj(3)));
    assert_eq!(cx.cur_site, 5);
}

#[test]
fn a_call_ends_in_its_tail_call() {
    let tail = || TailCall { callee: Value::Obj(1), this: Value::Null, args: Vec::new() };
    let mut cx = context();
    cx.depth = 2;
    let mut pending = Some(tail());
    let f = finish_call(&mut cx, Ok(Value::Undefined), &mut pending, Ok(()));
    assert!(matches!(f, Finish::Tail { site: 5, .. }));
    assert_eq!((cx.cur_site, cx.depth), (5 | SITE_NATIVE, 2));
    tail_returned(&mut cx, 5);
    assert_eq!(cx.cur_site, 5);
    assert!(pending.is_none());
    let f = finish_call(&mut cx, Ok(Value::Null), &mut pending, Err(Value::Undefined));
    assert!(matches!(f, Finish::Return(Ok(Value::Null))));
    assert_eq!(cx.depth, 1);
    // A call that threw leaves the tail call alone; a poll that throws takes its place.
    pending = Some(tail());
    let f = finish_call(&mut cx, Err(Value::Bool(true)), &mut pending, Ok(()));
    assert!(matches!(f, Finish::Return(Err(Value::Bool(true)))));
    assert!(pending.is_some());
    cx.depth = 1;
    let f = finish_call(&mut cx, Ok(Value::Null), &mut pending, Err(Value::Bool(false)));
    assert!(matches!(f, Finish::Return(Err(Value::Bool(false)))));
    assert!(pending.is_none());
}

#[test]
fn legacy_functions_have_two_getters() {
    assert!(own_props(None).is_none());
    let [(first, a), (second, c)] = own_props(Some((7, 8))).unwrap();
    assert_eq!((first, second), ("arguments", "caller"));
    assert!(!a.writable && !a.enumerable && !c.configurable);
    let e = Engine { interp_tier: false, multi_realm: false, reflect_on: false };
    let mut pool: Vec<(Vec<Value>, Vec<Value>)> = Vec::new();
    let mut p = PreparedCall::new(Value::Obj(1), Value::Null, false, &e, CalleeKind::Other, &mut pool);
    assert!(matches!(p.replace_this(Value::Bool(true)), Value::Null));
    assert!(matches!(p.replace_this(Value::Undefined), Value::Bool(true)));
}
