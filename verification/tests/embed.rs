//! The embedding interface: descriptors, conversions, byte views, classes and promises.

use lumen::embed_convert::arg_cx::{ArgCx, ByteView};
use lumen::embed_convert::class::{
    class_into_js, class_mut, class_ref, construct_ret, illegal_constructor, Constructed, Role,
};
use lumen::embed_convert::convert::{
    convert_elems, element_count, BigI64, BigU64, CoerceTo, ConvError, IntoJs, JsFunction, JsNumber, JsObject,
};
use lumen::embed_convert::desc::{
    ClassDesc, MemberDesc, MemberKind, OpDesc, Slot, OP_COERCE, OP_CTX,
};
use lumen::embed_convert::host::{Guard, HostObjects};
use lumen::embed_convert::into_heap::{list_into_js, uint8array_from_vec};
use lumen::embed_convert::op_error::{from_io, from_std, IoKind, OpError, StdFailure};
use lumen::embed_convert::promise::{async_ret, Class, CtorReturn, Promise};
use lumen::embed_convert::views::{resolve_view, DvInfo, TaInfo, ViewErr, ViewTables};
use lumen::engine::Engine;
use lumen::interpreter::interp::Interp;
use lumen::object::{function_object, Callable, Heap, Object};
use lumen::value::{BigInt, Value};
use std::collections::{HashMap, HashSet};

fn num(x: f64) -> Value {
    Value::Num(x.to_bits())
}

fn is_num(v: &Value, x: f64) -> bool {
    matches!(v, Value::Num(b) if f64::from_bits(*b) == x)
}

fn op(name: &str, params: Vec<&str>, flags: u32) -> OpDesc {
    OpDesc {
        name: name.to_string(),
        owner: String::new(),
        arity: params.len() as u32,
        params: params.iter().map(|p| p.to_string()).collect(),
        native: 900,
        fast: None,
        flags,
    }
}

fn sum_desc() -> OpDesc {
    op("sum", vec!["bytes"], 0)
}

fn fill_desc() -> OpDesc {
    op("fill", vec!["dst", "src"], OP_CTX)
}

/// Sums the bytes of a view, as an op that borrows them.
fn sum(t: &mut ViewTables, v: Value) -> Result<u64, OpError> {
    let mut cx = ArgCx::new(Value::Undefined, vec![v.duplicate()], sum_desc(), 0);
    let w = cx.view_bytes(t, &v, Slot::arg(0), false)?;
    let total = cx.read_view(t, w).iter().map(|&b| b as u64).sum();
    cx.finish(t);
    Ok(total)
}

fn message(e: &OpError) -> String {
    e.message().to_string()
}

/// An array buffer with the given bytes.
fn buffer(t: &mut ViewTables, id: u64, bytes: Vec<u8>) {
    t.array_buffers.insert(id, bytes);
    t.buffer_objects.insert(id);
}

fn typed(t: &mut ViewTables, id: u64, buffer: u64, offset: usize, len: usize) -> Value {
    t.typed_arrays.insert(id, TaInfo { buffer, offset, len, elsize: 1, track: false });
    Value::Obj(id)
}

#[test]
fn byte_views_borrow_alias_and_lend() {
    let mut t = ViewTables::new();
    // new Uint8Array([1,2,3])
    buffer(&mut t, 1, vec![1, 2, 3]);
    let v = typed(&mut t, 2, 1, 0, 3);
    assert_eq!(sum(&mut t, v).ok(), Some(6));
    // new Uint8Array([1,2,3,4]).subarray(1,3)
    buffer(&mut t, 3, vec![1, 2, 3, 4]);
    let v = typed(&mut t, 4, 3, 1, 2);
    assert_eq!(sum(&mut t, v).ok(), Some(5));
    // new Uint16Array([257]).buffer
    buffer(&mut t, 5, vec![1, 1]);
    assert_eq!(sum(&mut t, Value::Obj(5)).ok(), Some(2));
    // new DataView(new Uint8Array([9,9,9]).buffer, 1)
    buffer(&mut t, 6, vec![9, 9, 9]);
    t.data_views.insert(7, DvInfo { buffer: 6, offset: 1, len: 2, track: true });
    assert_eq!(sum(&mut t, Value::Obj(7)).ok(), Some(18));
    let r = sum(&mut t, num(5.0)).err().map(|e| message(&e)).unwrap();
    assert!(r.contains("sum: argument 1 (bytes) must be an ArrayBuffer"), "{r}");
    // A transferred buffer is detached.
    let u = typed(&mut t, 8, 99, 0, 4);
    let r = sum(&mut t, u).err().map(|e| message(&e)).unwrap();
    assert!(r.contains("detached"), "{r}");
    // Aliasing: dst overlaps src.
    buffer(&mut t, 10, vec![0; 8]);
    let q = typed(&mut t, 11, 10, 0, 8);
    let tail = typed(&mut t, 12, 10, 2, 6);
    let mut cx =
        ArgCx::new(Value::Undefined, vec![q.duplicate(), tail.duplicate()], fill_desc(), OP_CTX);
    assert!(cx.view_bytes(&mut t, &q, Slot::arg(0), true).is_ok());
    let r = cx.view_bytes(&mut t, &tail, Slot::arg(1), false).err().map(|e| message(&e)).unwrap();
    assert!(r.contains("argument 2 (src) overlaps argument 1 (dst)"), "{r}");
    cx.finish(&mut t);
    // Disjoint halves of one buffer are fine; code that runs meanwhile sees them detached.
    buffer(&mut t, 20, vec![0, 0, 7, 8]);
    let w = typed(&mut t, 21, 20, 0, 4);
    let dst = typed(&mut t, 22, 20, 0, 2);
    let src = typed(&mut t, 23, 20, 2, 2);
    let mut cx =
        ArgCx::new(Value::Undefined, vec![dst.duplicate(), src.duplicate()], fill_desc(), OP_CTX);
    let a = cx.view_bytes(&mut t, &dst, Slot::arg(0), true).ok().unwrap();
    let b = cx.view_bytes(&mut t, &src, Slot::arg(1), false).ok().unwrap();
    cx.with_ctx(&mut t);
    let none: HashMap<u64, Vec<u8>> = HashMap::new();
    let seen = match resolve_view(&t, &none, &w) {
        Ok(r) => r.len,
        Err(_) => 0,
    };
    cx.leave_ctx();
    let bytes = cx.read_view(&t, b);
    if let ByteView::Borrowed(range) = a {
        for (i, y) in bytes.iter().enumerate() {
            cx.write_view(&mut t, range, i, *y);
        }
    }
    cx.finish(&mut t);
    let after = resolve_view(&t, &none, &w).ok().unwrap();
    let held = &t.array_buffers[&20];
    assert_eq!(format!("{seen} {} {} {}", after.len, held[0], held[1]), "0 4 7 8");
    // Vec<u8> results adopt the vector.
    let mut heap = Heap::new();
    let mut t = ViewTables::new();
    let made = uint8array_from_vec(&mut heap, &mut t, None, None, vec![4, 5, 6]);
    let range = resolve_view(&t, &none, &made).ok().unwrap();
    let joined: Vec<String> = t.array_buffers[&range.key][range.off..range.off + range.len]
        .iter()
        .map(|b| b.to_string())
        .collect();
    assert_eq!(joined.join(","), "4,5,6");
}

#[test]
fn views_that_cover_nothing_are_told_apart() {
    let mut t = ViewTables::new();
    let none: HashMap<u64, Vec<u8>> = HashMap::new();
    assert_eq!(resolve_view(&t, &none, &Value::Null), Err(ViewErr::NotView));
    t.buffer_objects.insert(4);
    assert_eq!(resolve_view(&t, &none, &Value::Obj(4)), Err(ViewErr::Detached));
    // A view whose length follows its buffer.
    buffer(&mut t, 5, vec![0; 7]);
    t.typed_arrays.insert(6, TaInfo { buffer: 5, offset: 2, len: 0, elsize: 2, track: true });
    let r = resolve_view(&t, &none, &Value::Obj(6)).unwrap();
    assert_eq!((r.key, r.off, r.len), (5, 2, 4));
}

#[test]
fn slots_are_labelled() {
    let d = fill_desc();
    assert_eq!(d.slot_label(Slot::this()), "receiver (this)");
    assert_eq!(d.slot_label(Slot::arg(1)), "argument 2 (src)");
    assert_eq!(d.slot_label(Slot::arg(4)), "argument 5");
    assert_eq!(d.slot_label(Slot::arg(0).elem(3)), "argument 1 (dst) element 3");
    let mut d = sum_desc();
    d.owner = "Math2".to_string();
    assert_eq!(d.label(), "Math2.sum");
    assert!(Slot::this().is_receiver());
    assert_eq!(Slot::arg(2).arg_index(), 2);
}

fn cx_of(args: Vec<Value>, flags: u32) -> ArgCx {
    ArgCx::new(Value::Undefined, args, op("f", vec!["x"], flags), flags)
}

#[test]
fn numbers_convert_exactly_or_not_at_all() {
    let heap = Heap::new();
    let cx = cx_of(vec![num(-1.0)], 0);
    assert!(matches!(cx.arg::<i32>(&heap, 0), Ok(-1)));
    assert!(matches!(cx.arg::<u32>(&heap, 0), Ok(4294967295)));
    let cx = cx_of(vec![num(2.5)], 0);
    assert!(matches!(cx.arg::<JsNumber>(&heap, 0), Ok(JsNumber(b)) if f64::from_bits(b) == 2.5));
    assert!(matches!(cx.arg::<i64>(&heap, 0), Err(ConvError::Error(_))));
    let cx = cx_of(vec![Value::Str("7".to_string())], 0);
    match cx.arg::<u32>(&heap, 0) {
        Err(ConvError::Error(e)) => {
            assert_eq!(e.text(), "TypeError: f: argument 1 (x) must be a number")
        }
        _ => panic!("a string is no number"),
    }
    // With coercion the language's conversion comes first.
    let cx = cx_of(vec![Value::Str("7".to_string())], OP_COERCE);
    assert!(matches!(cx.arg::<u32>(&heap, 0), Err(ConvError::First(CoerceTo::Number))));
    // A missing argument is undefined.
    let cx = cx_of(Vec::new(), 0);
    assert!(matches!(cx.arg::<Option<u32>>(&heap, 0), Ok(None)));
    assert!(matches!(cx.arg::<Value>(&heap, 0), Ok(Value::Undefined)));
}

#[test]
fn big_integers_keep_their_value() {
    let heap = Heap::new();
    let v = BigI64(-5).into_js().ok().unwrap();
    let cx = cx_of(vec![v], 0);
    assert!(matches!(cx.arg::<BigI64>(&heap, 0), Ok(BigI64(-5))));
    let v = BigU64(u64::MAX).into_js().ok().unwrap();
    assert!(matches!(&v, Value::BigInt(b) if !b.negative && b.hex == "ffffffffffffffff"));
    let cx = cx_of(vec![v], 0);
    assert!(matches!(cx.arg::<BigU64>(&heap, 0), Ok(BigU64(u64::MAX))));
    let huge = Value::BigInt(BigInt { negative: false, hex: "10000000000000000".to_string() });
    let cx = cx_of(vec![huge], 0);
    match cx.arg::<BigU64>(&heap, 0) {
        Err(ConvError::Error(e)) => assert_eq!(e.class(), "RangeError"),
        _ => panic!("it does not fit"),
    }
    assert_eq!(BigInt::from_parts(true, 0).negative, false);
}

#[test]
fn results_beyond_the_safe_integers_are_refused() {
    assert!(is_num(&(9007199254740991i64).into_js().ok().unwrap(), 9007199254740991.0));
    let e = (9007199254740992i64).into_js().err().unwrap();
    assert_eq!(
        e.text(),
        "RangeError: result 9007199254740992 exceeds Number.MAX_SAFE_INTEGER (return BigI64/BigU64)"
    );
    assert!(is_num(&(-3i32).into_js().ok().unwrap(), -3.0));
    assert!(matches!(().into_js(), Ok(Value::Undefined)));
    assert!(matches!('é'.into_js(), Ok(Value::Str(s)) if s == "é"));
    assert!(matches!(None::<bool>.into_js(), Ok(Value::Null)));
    assert!(matches!(Err::<bool, OpError>(OpError::error("no")).into_js(), Err(e) if e.text() == "Error: no"));
}

#[test]
fn lists_become_arrays_and_the_first_failure_is_theirs() {
    let mut i = Interp::new();
    let v = list_into_js(&mut i, vec![true, false]).ok().unwrap();
    let o = match v {
        Value::Obj(o) => o,
        _ => panic!("an array is an object"),
    };
    let elems = &i.heap.get(o).elems;
    assert_eq!(elems.len(), 2);
    assert!(matches!(elems[1].as_ref().unwrap().data_value(), Some(Value::Bool(false))));
    let n = i.heap.objects.len();
    assert!(list_into_js(&mut i, vec![1i64, i64::MAX, 2]).is_err());
    assert_eq!(i.heap.objects.len(), n);
    let heap = Heap::new();
    let cx = cx_of(Vec::new(), 0);
    let items = vec![num(1.0), Value::Null];
    match convert_elems::<u32>(&cx, &heap, &items, Slot::arg(0)) {
        Err(ConvError::Error(e)) => {
            assert_eq!(e.text(), "TypeError: f: argument 1 (x) element 1 must be a number")
        }
        _ => panic!("null is no number"),
    }
}

#[test]
fn errors_carry_class_message_and_code() {
    let e = OpError::range_error("too far").with_code("ERR_FAR");
    assert_eq!((e.class(), e.message()), ("RangeError", "too far"));
    assert_eq!(e.text(), "RangeError: too far");
    assert_eq!(OpError::thrown(Value::Null).text(), "<thrown JS value>");
    assert_eq!(OpError::syntax_error("s").class(), "SyntaxError");
    assert_eq!(illegal_constructor().text(), "TypeError: Illegal constructor");
    let mut heap = Heap::new();
    let made = heap.add_object(Object::new(None));
    let v = from_io(IoKind::NotFound, "no such file").to_value(&mut heap, Value::Obj(made));
    assert!(matches!(v, Value::Obj(o) if o == made));
    let code = heap.get(made).props.get_data("code");
    assert!(matches!(code, Some(Value::Str(s)) if s == "ENOENT"));
}

#[test]
fn functions_and_objects_are_told_apart() {
    let mut heap = Heap::new();
    let p = heap.add_object(Object::new(None));
    let f = heap.add_object(function_object(p, Callable::Native(3), 0, "f"));
    assert!(JsObject::from_value(Value::Null).is_none());
    assert!(JsFunction::from_value(&heap, Value::Obj(p)).is_none());
    let g = JsFunction::from_value(&heap, Value::Obj(f)).unwrap();
    assert!(matches!(g.value(), Value::Obj(x) if *x == f));
    assert!(g.call(Err(Value::Bool(true))).is_err());
    let o = JsObject::from_value(Value::Obj(p)).unwrap();
    assert!(matches!(o.get(Ok(Value::Null)), Ok(Value::Null)));
}

fn point() -> ClassDesc {
    let member = |kind: MemberKind, name: &str, native: u64| {
        let mut d = op(name, Vec::new(), 0);
        d.owner = "Point".to_string();
        d.native = native;
        MemberDesc { kind, op: d }
    };
    ClassDesc {
        type_id: 77,
        name: "Point".to_string(),
        constructor: None,
        members: vec![
            member(MemberKind::Method, "norm", 31),
            member(MemberKind::Getter, "x", 32),
            member(MemberKind::Setter, "x", 33),
            member(MemberKind::StaticMethod, "origin", 34),
        ],
    }
}

#[test]
fn classes_are_made_once() {
    let mut i = Interp::new();
    let d = point();
    let e = i.class_entry(&d);
    assert_eq!(i.class_entry(&d), e);
    let proto = i.heap.get(e.proto);
    assert!(matches!(proto.props.get_data("norm"), Some(Value::Obj(_))));
    assert!(proto.props.get("x").unwrap().accessor());
    assert!(matches!(proto.props.get_data("@@toStringTag"), Some(Value::Str(s)) if s == "Point"));
    assert!(matches!(i.heap.get(e.ctor).props.get_data("origin"), Some(Value::Obj(_))));
    assert!(MemberKind::StaticGetter.is_static());
    assert_eq!(MemberKind::StaticSetter.role(), Role::Setter);
}

#[test]
fn instances_hold_their_values() {
    let mut i = Interp::new();
    let d = point();
    let mut alive: HashSet<u64> = HashSet::new();
    let v = i.new_instance(&d, 5, &alive);
    assert_eq!(i.instance_data(&d, &v), Some(5));
    assert_eq!(i.instance_data(&d, &Value::Null), None);
    let o = match v {
        Value::Obj(o) => o,
        _ => panic!("an instance is an object"),
    };
    alive.insert(o);
    assert_eq!(i.collect_garbage(&alive), 0);
    alive.remove(&o);
    assert_eq!(i.sweep_host_objects(&alive), 1);
    assert_eq!(i.instance_data(&d, &Value::Obj(o)), None);
}

#[test]
fn a_value_is_borrowed_by_many_readers_or_one_writer() {
    let mut h = HostObjects::new();
    let alive: HashSet<u64> = HashSet::new();
    h.attach(3, 77, 9, &alive);
    assert_eq!(h.data(3, 77), Some(9));
    assert_eq!(h.data(3, 78), None);
    assert!(h.borrow_value(3, false));
    assert!(h.borrow_value(3, false));
    assert!(!h.borrow_value(3, true));
    h.release(Guard { obj: 3, exclusive: false });
    h.release(Guard { obj: 3, exclusive: false });
    assert!(h.borrow_value(3, true));
    assert!(!h.borrow_value(3, false));
    h.release(Guard { obj: 3, exclusive: true });
    assert!(h.borrow_value(3, false));
}

#[test]
fn conflicting_class_borrows_are_errors() {
    let mut i = Interp::new();
    let d = point();
    let alive: HashSet<u64> = HashSet::new();
    let v = i.new_instance(&d, 5, &alive);
    let cx = cx_of(vec![v.duplicate()], 0);
    let mut guards: Vec<Guard> = Vec::new();
    assert!(matches!(class_ref(&cx, &mut i, &mut guards, &d, &v, Slot::arg(0)), Ok(5)));
    assert!(class_mut(&cx, &mut i, &mut guards, &d, &v, Slot::arg(0)).is_err());
    assert!(class_ref(&cx, &mut i, &mut guards, &d, &Value::Null, Slot::arg(0)).is_err());
}

#[test]
fn promises_settle_with_their_outcome() {
    let mut i = Interp::new();
    let d = i.new_deferred();
    let p = d.promise();
    assert!(i.promises.is_promise(&p));
    let s = d.resolve(true);
    assert!(matches!(s.outcome, Ok(Value::Bool(true))));
    let (p, s) = Promise::resolved(7i32).into_js(&mut i);
    assert!(i.promises.is_promise(&p));
    assert!(matches!(s.unwrap().outcome, Ok(v) if is_num(&v, 7.0)));
    let d = i.new_deferred();
    let (q, none) = Promise::<bool>::pending(&d).into_js(&mut i);
    assert!(matches!((&q, &d.promise()), (Value::Obj(a), Value::Obj(b)) if a == b));
    assert!(none.is_none());
    let (_, settle) = async_ret(&mut i, Err(Value::Null));
    assert!(!settle.fulfil);
}

#[test]
fn promises_reject_with_any_failure() {
    let mut i = Interp::new();
    let rejected = |i: &mut Interp, p: Promise<bool>| match p.into_js(i).1.unwrap().outcome {
        Err(e) => e.text(),
        Ok(_) => panic!("the promise is rejected"),
    };
    assert_eq!(rejected(&mut i, Promise::rejected("no")), "Error: no");
    assert_eq!(rejected(&mut i, Promise::rejected("no".to_string())), "Error: no");
    assert_eq!(rejected(&mut i, Promise::ready(Err("late"))), "Error: late");
    assert_eq!(rejected(&mut i, Promise::ready(Err(OpError::range_error("far")))), "RangeError: far");
    assert_eq!(rejected(&mut i, Promise::rejected(Value::Null)), "<thrown JS value>");
    let (_, s) = Promise::ready(Ok::<bool, &str>(true)).into_js(&mut i);
    assert!(matches!(s.unwrap().outcome, Ok(Value::Bool(true))));
    let s = i.new_deferred().reject("gone");
    assert!(matches!(s.outcome, Err(e) if e.text() == "Error: gone"));
}

#[test]
fn a_class_without_a_constructor_refuses_new() {
    let alive: HashSet<u64> = HashSet::new();
    for known in [false, true] {
        let mut e = Engine::new(1000, 100_000);
        let d = point();
        if known {
            e.interp.new_instance(&d, 4, &alive);
        }
        e.define_class(&d);
        let global = e.interp.heap.get(e.interp.global).props.get_data("Point");
        let c = match (global, e.interp.class_constructor(&d)) {
            (Some(Value::Obj(a)), Value::Obj(b)) if a == b => a,
            _ => panic!("the global is the constructor"),
        };
        let refused = e.interp.native_run(&Value::Obj(c));
        assert!(matches!(refused, Some(Err(x)) if x.text() == "TypeError: Illegal constructor"));
        let own = match e.interp.heap.get(c).props.get_data("prototype") {
            Some(Value::Obj(p)) => p,
            _ => panic!("a constructor has a prototype"),
        };
        let o = match e.interp.new_instance(&d, 5, &alive) {
            Value::Obj(o) => o,
            _ => panic!("an instance is an object"),
        };
        assert_eq!(e.interp.heap.get(o).proto, Some(own));
        assert!(e.interp.native_run(&Value::Obj(own)).is_none());
        assert!(e.interp.native_run(&Value::Null).is_none());
        let m = match e.interp.heap.get(own).props.get_data("norm") {
            Some(Value::Obj(m)) => m,
            _ => panic!("a method is a function"),
        };
        assert!(matches!(e.interp.native_run(&Value::Obj(m)), Some(Ok(31))));
    }
}

#[test]
fn constructors_need_new() {
    let mut d = op("constructor", Vec::new(), 0);
    d.owner = "Point".to_string();
    let cx = ArgCx::new(Value::Undefined, Vec::new(), d, 0);
    assert!(matches!(cx.new_target(true, &Value::Obj(4)), Ok(Value::Obj(4))));
    let e = cx.new_target(false, &Value::Undefined).err().unwrap();
    assert_eq!(e.text(), "TypeError: Class constructor Point cannot be invoked without 'new'");
}

#[test]
fn copies_are_taken_of_lent_buffers_too() {
    let mut t = ViewTables::new();
    buffer(&mut t, 10, vec![1, 2, 3, 4]);
    let v = typed(&mut t, 11, 10, 1, 2);
    let mut cx = ArgCx::new(Value::Undefined, vec![v.duplicate()], fill_desc(), 0);
    assert_eq!(cx.view_copy(&t, &v, Slot::arg(0)).ok(), Some(vec![2, 3]));
    assert!(cx.view_bytes(&mut t, &v, Slot::arg(0), true).is_ok());
    cx.ret(&mut t, false);
    assert!(t.array_buffers.contains_key(&10));
    cx.ret(&mut t, true);
    assert!(!t.array_buffers.contains_key(&10));
    assert_eq!(cx.view_copy(&t, &v, Slot::arg(0)).ok(), Some(vec![2, 3]));
    assert!(cx.view_copy(&t, &Value::Null, Slot::arg(0)).is_err());
    cx.finish(&mut t);
    assert_eq!(t.array_buffers[&10], vec![1, 2, 3, 4]);
}

#[test]
fn host_state_must_be_installed() {
    let mut cx = cx_of(Vec::new(), 0);
    let e = cx.with_state(false, "app::Db").err().unwrap();
    assert!(e.text().ends_with(": host state `app::Db` is not installed (OpState::put)"), "{}", e.text());
    assert!(cx.with_state(true, "app::Db").is_ok());
    cx.leave_ctx();
}

#[test]
fn constructed_values_go_to_the_receiver_or_a_new_instance() {
    assert!(matches!(construct_ret(&Value::Obj(4), 9, None), Constructed::Receiver));
    let given = Some(Value::Obj(7));
    assert!(matches!(construct_ret(&Value::Undefined, 9, given), Constructed::Fresh(7)));
    let none = Some(Value::Null);
    assert!(matches!(construct_ret(&Value::Undefined, 9, none), Constructed::Fresh(9)));
    let mut i = Interp::new();
    let alive: HashSet<u64> = HashSet::new();
    let v = class_into_js(&mut i, &point(), 3, &alive);
    assert_eq!(i.instance_data(&point(), &v), Some(3));
}

#[test]
fn receivers_convert_like_arguments() {
    let heap = Heap::new();
    let cx = ArgCx::new(Value::Bool(true), Vec::new(), sum_desc(), 0);
    assert!(matches!(cx.this_arg::<bool>(&heap), Ok(true)));
    match cx.this_arg::<JsNumber>(&heap) {
        Err(ConvError::Error(e)) => {
            assert_eq!(e.text(), "TypeError: sum: receiver (this) must be a number");
        }
        _ => panic!("a boolean is no number"),
    }
}

#[test]
fn ops_with_a_fast_entry_are_found_by_their_function() {
    let mut i = Interp::new();
    let f = i.op_function(&sum_desc());
    assert!(i.op_desc_of(&f).is_some());
    assert!(i.fast_op_of(&f).is_none());
    assert!(i.op_desc_of(&Value::Null).is_none());
    assert!(matches!(i.global_object(), Value::Obj(o) if o == i.global));
    let d = i.new_deferred();
    let (res, rej) = d.resolving_functions(&mut i);
    assert!(matches!((&res, &rej), (Value::Obj(a), Value::Obj(b)) if a != b));
}

#[test]
fn failures_become_errors_of_their_class() {
    let cases = [
        (StdFailure::Fmt, "Error"),
        (StdFailure::ParseInt, "SyntaxError"),
        (StdFailure::ParseFloat, "SyntaxError"),
        (StdFailure::TryFromInt, "RangeError"),
        (StdFailure::Utf8, "TypeError"),
        (StdFailure::Other, "Error"),
    ];
    for (f, class) in cases {
        let e = from_std(f, "bad");
        assert_eq!(e.class(), class);
        assert_eq!(e.text(), format!("{class}: bad"));
    }
}

#[test]
fn array_arguments_are_read_first() {
    let mut i = Interp::new();
    let list = list_into_js(&mut i, vec![true, false]).ok().unwrap();
    let cx = cx_of(vec![list], 0);
    assert!(matches!(
        cx.arg::<Vec<bool>>(&i.heap, 0),
        Err(ConvError::First(CoerceTo::Elements))
    ));
    let items = vec![Value::Bool(true), Value::Bool(false)];
    let read = convert_elems::<bool>(&cx, &i.heap, &items, Slot::arg(0));
    assert!(matches!(read, Ok(v) if v == vec![true, false]));
    for v in [Value::Obj(i.global), num(3.0), Value::Undefined] {
        let cx = cx_of(vec![v], 0);
        match cx.arg::<Vec<bool>>(&i.heap, 0) {
            Err(ConvError::Error(e)) => {
                assert_eq!(e.text(), "TypeError: f: argument 1 (x) must be an array")
            }
            _ => panic!("it is no array"),
        }
    }
    assert_eq!(element_count(&num(3.0)), 3);
    assert_eq!(element_count(&num(3.9)), 3);
    assert_eq!(element_count(&num(4294967295.0)), 4294967295);
    assert_eq!(element_count(&num(-1.0)), 0);
    assert_eq!(element_count(&num(f64::NAN)), 0);
    assert_eq!(element_count(&num(f64::INFINITY)), usize::MAX);
    assert_eq!(element_count(&num(1e30)), usize::MAX);
    assert_eq!(element_count(&Value::Null), 0);
}

struct Dot(u32);

impl Class for Dot {
    fn class_desc() -> ClassDesc {
        point()
    }
}

#[test]
fn constructors_return_values_or_results() {
    fn made<R: CtorReturn<Dot>>(r: R) -> Result<u32, String> {
        match r.into_ctor_result() {
            Ok(d) => Ok(d.0),
            Err(e) => Err(e.text()),
        }
    }
    assert_eq!(made(Dot(4)), Ok(4));
    assert_eq!(made(Ok::<Dot, OpError>(Dot(5))), Ok(5));
    let no = Err::<Dot, OpError>(OpError::type_error("no"));
    assert_eq!(made(no), Err("TypeError: no".to_string()));
    assert_eq!(made(Err::<Dot, &str>("bad")), Err("Error: bad".to_string()));
    assert_eq!(made(Err::<Dot, String>("worse".to_string())), Err("Error: worse".to_string()));
    let thrown = made(Err::<Dot, Value>(num(3.0)));
    assert_eq!(thrown, Err("<thrown JS value>".to_string()));
    let r = Err::<bool, Value>(num(3.0)).into_js().err().unwrap();
    let mut heap = Heap::new();
    assert!(is_num(&r.to_value(&mut heap, Value::Null), 3.0));
    let r = Err::<bool, &str>("no luck").into_js().err().unwrap();
    assert_eq!((r.class(), r.message()), ("Error", "no luck"));
}
