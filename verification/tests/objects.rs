//! Objects, the guarded fast paths over them, class fields and coroutine bodies.

use lumen::ast::{Expr, Stmt};
use lumen::engine::Tier;
use lumen::eval::fastpaths::{
    array_iter_step_fast, dense_array_values, IterStep, LangCaches, Recorded, SlotCache,
};
use lumen::eval::props_fast::{
    assign_props_fast, copy_data_props_fast, has_elements, new_regexp_object, KeyLists, RegexpPins,
    RegexpSites, MAX_SITES,
};
use lumen::interpreter::arrays::array_object;
use lumen::interpreter::call_state::CallFlags;
use lumen::interpreter::class_fields::{
    add_privates, define_instance_field, field_calls, initializer_body, initializer_kind, ClassInfo,
    Field, FieldCode, FieldDefined, FieldFlags, FieldPlan, FieldRun, FieldStep, PrivateMember,
    SpecialObjects, DEFINE_FIELD, FIELD_INIT,
};
use lumen::interpreter::coro_body::{
    async_start, generator_proto, AsyncStart, BodyCode, BodyPlan, Generators, Suspend,
};
use lumen::interpreter::interp::Interp;
use lumen::interpreter::ta_meta::{ta_meta_index, TaMetaCaches};
use lumen::num::{as_signed, exact_int, from_int, same_number, to_uint32};
use lumen::object::{
    canonical_index, function_object, is_private_key, is_sym_key, Callable, Exotic, Heap, Object,
    Property, Props,
};
use lumen::value::{parse_hex, Value};
use std::collections::HashSet;

fn num(x: f64) -> Value {
    Value::Num(x.to_bits())
}

fn is_num(v: &Value, x: f64) -> bool {
    matches!(v, Value::Num(b) if f64::from_bits(*b) == x)
}

fn id(v: &Value) -> u64 {
    match v {
        Value::Obj(o) => *o,
        _ => panic!("an object is expected"),
    }
}

#[test]
fn properties_keep_their_order() {
    let mut p = Props::new();
    p.insert("b", Property::plain(num(1.0)));
    p.insert("a", Property::plain(num(2.0)));
    p.insert("b", Property::plain(num(3.0)));
    let keys: Vec<&str> = p.items.iter().map(|i| i.key.as_str()).collect();
    assert_eq!(keys, vec!["b", "a"]);
    assert!(is_num(&p.get_data("b").unwrap(), 3.0));
    p.remove("b");
    assert!(!p.contains("b"));
    assert_eq!(p.find("a"), 0);
    assert!(p.get_data("c").is_none());
}

#[test]
fn index_keys_are_canonical_decimals() {
    assert_eq!(canonical_index("0"), Some(0));
    assert_eq!(canonical_index("42"), Some(42));
    assert_eq!(canonical_index("4294967294"), Some(4294967294));
    assert_eq!(canonical_index("4294967295"), None);
    assert_eq!(canonical_index("99999999999999999999999"), None);
    assert_eq!(canonical_index("01"), None);
    assert_eq!(canonical_index("-1"), None);
    assert_eq!(canonical_index(""), None);
    assert!(is_sym_key("@@iterator") && !is_sym_key("@"));
    assert!(is_private_key("#x") && !is_private_key("x"));
}

#[test]
fn numbers_convert_as_the_language_does() {
    assert_eq!(exact_int((3.0f64).to_bits()), Some(3));
    assert_eq!(exact_int((-0.0f64).to_bits()), Some(0));
    assert_eq!(exact_int((0.5f64).to_bits()), None);
    assert_eq!(exact_int(f64::INFINITY.to_bits()), None);
    assert_eq!(f64::from_bits(from_int(9007199254740991)), 9007199254740991.0);
    assert_eq!(to_uint32((-1.0f64).to_bits()), u32::MAX);
    assert_eq!(to_uint32((4294967298.7f64).to_bits()), 2);
    assert_eq!(to_uint32(f64::NAN.to_bits()), 0);
    assert_eq!(as_signed(u32::MAX), -1);
    assert!(same_number(0, (-0.0f64).to_bits()));
    assert!(!same_number(f64::NAN.to_bits(), f64::NAN.to_bits()));
    assert_eq!(parse_hex("00fF"), Some("ff".to_string()));
    assert_eq!(parse_hex("xy"), None);
}

#[test]
fn slot_memos_give_what_a_lookup_gives() {
    let mut a = Props::new();
    a.insert("x", Property::plain(num(1.0)));
    a.insert("y", Property::plain(num(2.0)));
    let mut b = Props::new();
    b.insert("x", Property::plain(num(3.0)));
    b.insert("y", Property::plain(num(4.0)));
    let mut c = SlotCache::new();
    assert_eq!(c.slot(7, &a, "y"), Some(1));
    assert!(matches!(c.get(7, &b, "y"), Some(p) if is_num(p.data_value().unwrap(), 4.0)));
    let mut absent = SlotCache::new();
    assert!(absent.get(7, &a, "z").is_none());
    assert_eq!(absent.slot(7, &b, "z"), None);
    a.insert("z", Property::plain(num(5.0)));
    assert_eq!(absent.slot(8, &a, "z"), Some(2));
}

/// A realm with its array iteration intrinsics.
fn realm() -> (Interp, Recorded) {
    let mut i = Interp::new();
    let values = i.make_native("values", 0, 20);
    let next = i.make_native("next", 0, 21);
    let aip = i.heap.add_object(Object::new(Some(i.object_proto)));
    i.heap.set_prop(i.array_proto, "@@iterator", Property::builtin(Value::Obj(values)));
    i.heap.set_prop(aip, "next", Property::builtin(Value::Obj(next)));
    let rec = Recorded { values: Some(values), next: Some(next), aip: Some(aip), step_enabled: true };
    (i, rec)
}

fn iterator(i: &mut Interp, aip: u64, target: Value) -> Value {
    let mut o = Object::new(Some(aip));
    o.props.insert("__ai_target", Property::data(target, true, false, false));
    o.props.insert("__ai_index", Property::data(num(0.0), true, false, false));
    o.props.insert("__ai_kind", Property::data(num(0.0), true, false, false));
    Value::Obj(i.heap.add_object(o))
}

#[test]
fn iteration_is_pristine_until_something_is_replaced() {
    let (mut i, rec) = realm();
    let arr = id(&i.make_array(vec![num(1.0)]));
    let mut c = LangCaches::new();
    let proto = i.array_proto;
    let key = Some("@@iterator");
    assert!(c.pristine_array_iteration(&i.heap, proto, rec, key, arr));
    assert!(!c.pristine_view_iteration(&i.heap, proto, rec, key, arr));
    assert!(!c.pristine_array_iteration(&i.heap, proto, rec, None, arr));
    i.heap.set_prop(arr, "@@iterator", Property::plain(Value::Undefined));
    assert!(!c.pristine_array_iteration(&i.heap, proto, rec, key, arr));
    i.heap.remove_prop(arr, "@@iterator");
    assert!(c.pristine_array_iteration(&i.heap, proto, rec, key, arr));
    i.heap.set_prop(rec.aip.unwrap(), "next", Property::builtin(Value::Obj(1)));
    assert!(!c.pristine_array_iteration(&i.heap, proto, rec, key, arr));
    assert!(c.is_array_iter_next(proto, rec, rec.next.unwrap()));
    assert!(c.is_elidable_array_iter_next(proto, rec, rec.next.unwrap()));
    assert_eq!(c.array_iter_next_intrinsic(proto, rec), rec.next);
    let unknown = Recorded { values: None, next: None, aip: None, step_enabled: false };
    assert!(!LangCaches::new().pristine_array_iteration(&i.heap, proto, unknown, key, arr));
}

#[test]
fn steps_yield_the_dense_values() {
    let (mut i, rec) = realm();
    let arr = i.make_array(vec![num(1.0), num(2.0)]);
    let dense = dense_array_values(i.heap.get(id(&arr))).unwrap();
    assert_eq!(dense.len(), 2);
    let it = iterator(&mut i, rec.aip.unwrap(), arr);
    for v in &dense {
        match array_iter_step_fast(&mut i.heap, &it) {
            IterStep::Yield(y) => assert!(matches!((&y, v), (Value::Num(a), Value::Num(b)) if a == b)),
            _ => panic!("an element is yielded"),
        }
    }
    assert!(matches!(array_iter_step_fast(&mut i.heap, &it), IterStep::Done));
    assert!(matches!(array_iter_step_fast(&mut i.heap, &it), IterStep::Done));
    assert!(matches!(i.heap.get(id(&it)).props.get_data("__ai_target"), Some(Value::Undefined)));
}

#[test]
fn odd_lengths_bound_the_steps_as_numbers() {
    let (mut i, rec) = realm();
    let mut of_length = |x: f64| {
        let arr = i.make_array(vec![num(1.0), num(2.0)]);
        i.heap.set_prop(id(&arr), "length", Property::data(num(x), true, false, false));
        let dense = dense_array_values(i.heap.get(id(&arr))).map(|vs| vs.len());
        let it = iterator(&mut i, rec.aip.unwrap(), arr);
        let mut yielded = 0;
        while matches!(array_iter_step_fast(&mut i.heap, &it), IterStep::Yield(_)) {
            yielded += 1;
        }
        (dense, yielded, matches!(array_iter_step_fast(&mut i.heap, &it), IterStep::Done))
    };
    assert_eq!(of_length(2.0), (Some(2), 2, true));
    assert_eq!(of_length(1.5), (Some(1), 2, true));
    assert_eq!(of_length(0.5), (Some(0), 1, true));
    assert_eq!(of_length(-0.0), (Some(0), 0, true));
    assert_eq!(of_length(-1.0), (None, 0, true));
    assert_eq!(of_length(f64::NEG_INFINITY), (None, 0, true));
    assert_eq!(of_length(f64::INFINITY), (None, 2, false));
    assert_eq!(of_length(f64::NAN), (None, 2, false));
}

#[test]
fn holes_are_left_to_the_protocol() {
    let (mut i, rec) = realm();
    let arr = i.make_array(vec![num(1.0), num(2.0)]);
    i.heap.objects[id(&arr) as usize].elems[0] = None;
    assert!(dense_array_values(i.heap.get(id(&arr))).is_none());
    let it = iterator(&mut i, rec.aip.unwrap(), arr);
    assert!(matches!(array_iter_step_fast(&mut i.heap, &it), IterStep::NotApplicable));
    assert!(matches!(array_iter_step_fast(&mut i.heap, &Value::Null), IterStep::NotApplicable));
}

#[test]
fn iterators_are_stamped_from_a_template_and_close_silently() {
    let (mut i, rec) = realm();
    let arr = i.make_array(Vec::new());
    let mut c = LangCaches::new();
    let intr = c.iter_intrinsics(i.array_proto, rec).unwrap();
    assert!(c.new_array_iterator(&mut i.heap, rec.aip, &arr).is_none());
    let first = iterator(&mut i, rec.aip.unwrap(), arr.duplicate());
    c.remember_iter_template(&i.heap, &first);
    let made = c.new_array_iterator(&mut i.heap, rec.aip, &arr).unwrap();
    assert!(matches!(i.heap.get(made).props.get_data("__ai_target"), Some(Value::Obj(o)) if o == id(&arr)));
    let it = Value::Obj(made);
    let (realm, intr) = (intr.array_proto, Some(intr));
    let mut marks: Vec<u64> = Vec::new();
    assert!(!c.array_iter_return_absent(&i.heap, 1, realm, None, &mut marks));
    assert!(marks.is_empty());
    assert!(c.array_iter_return_absent(&i.heap, 1, realm, intr, &mut marks));
    assert_eq!(marks.first(), rec.aip.as_ref());
    let n = marks.len();
    assert!(c.array_iter_close_is_noop(&i.heap, 1, realm, intr, &it, true, &mut marks));
    assert!(!c.array_iter_close_is_noop(&i.heap, 1, realm, intr, &it, false, &mut marks));
    assert_eq!(marks.len(), n);
    // A `return` on the chain is noticed once the epoch moved.
    i.heap.set_prop(i.object_proto, "return", Property::plain(Value::Null));
    assert!(!c.array_iter_close_is_noop(&i.heap, 2, realm, intr, &it, true, &mut marks));
}

#[test]
fn for_in_lists_indices_first_and_skips_silent_prototypes() {
    let mut i = Interp::new();
    let a = id(&i.make_array(vec![num(7.0), num(8.0)]));
    i.heap.set_prop(a, "extra", Property::plain(num(1.0)));
    i.heap.set_prop(a, "@@sym", Property::plain(num(1.0)));
    i.heap.set_prop(a, "10", Property::plain(num(1.0)));
    let mut k = KeyLists::new();
    let keys = k.for_in_keys_fast(&i.heap, 3, a).unwrap();
    assert_eq!(keys, vec!["0", "1", "10", "extra"]);
    let mut o = Object::new(Some(i.object_proto));
    o.props.insert("b", Property::plain(num(1.0)));
    o.props.insert("hidden", Property::builtin(num(1.0)));
    o.props.insert("a", Property::plain(num(1.0)));
    o.props.insert("#p", Property::plain(num(1.0)));
    let o = i.heap.add_object(o);
    assert_eq!(k.for_in_keys_fast(&i.heap, 4, o).unwrap(), vec!["b", "a"]);
    assert_eq!(k.object_keys_fast(4, i.heap.get(o)).unwrap(), vec!["b", "a"]);
    assert!(has_elements(i.heap.get(a)) && !has_elements(i.heap.get(o)));
    assert!(k.object_keys_fast(3, i.heap.get(a)).is_none());
    // An enumerable key on the prototype takes the general path.
    i.heap.set_prop(i.object_proto, "seen", Property::plain(num(1.0)));
    assert!(k.for_in_keys_fast(&i.heap, 4, o).is_none());
    let mut odd = Props::new();
    odd.insert("5", Property::plain(num(1.0)));
    assert!(k.named_enum_keys(9, &odd).is_none());
}

#[test]
fn plain_objects_are_copied_whole() {
    let mut i = Interp::new();
    let mut o = Object::new(Some(i.object_proto));
    o.props.insert("a", Property::plain(num(1.0)));
    o.props.insert("b", Property::plain(num(2.0)));
    let source = i.heap.add_object(o);
    let target = i.heap.add_object(Object::new(Some(i.object_proto)));
    assert!(!copy_data_props_fast(&mut i.heap, source, source, true));
    assert!(copy_data_props_fast(&mut i.heap, target, source, true));
    assert!(is_num(&i.heap.get(target).props.get_data("b").unwrap(), 2.0));
    // It is no longer empty.
    assert!(!copy_data_props_fast(&mut i.heap, target, source, true));
    let other = i.heap.add_object(Object::new(Some(i.object_proto)));
    i.heap.set_prop(i.object_proto, "a", Property::data(num(9.0), false, false, true));
    assert!(!assign_props_fast(&mut i.heap, other, source, true));
    i.heap.remove_prop(i.object_proto, "a");
    assert!(assign_props_fast(&mut i.heap, other, source, true));
    i.heap.set_prop(source, "c", Property::builtin(num(3.0)));
    let third = i.heap.add_object(Object::new(Some(i.object_proto)));
    assert!(!copy_data_props_fast(&mut i.heap, third, source, true));
}

#[test]
fn in_box_packed_arrays_exec_results_and_appends() {
    let mut i = Interp::new();
    let mut k = KeyLists::new();
    for n in 0..200u32 {
        let b = i.make_array((1..=12).map(|x| num(x as f64)).collect());
        let dense = dense_array_values(i.heap.get(id(&b))).unwrap();
        assert!(dense.len() == 12 && is_num(&dense[11], 12.0), "grow");
        // /(a)(?<n>b)?/.exec('xab')
        let s = |t: &str| Value::Str(t.to_string());
        let groups = i.heap.add_object(Object::new(None));
        i.heap.set_prop(groups, "n", Property::plain(s("b")));
        let m = i.make_exec_result(
            vec![s("ab"), s("a"), s("b")],
            num(1.0),
            s("xab"),
            Value::Obj(groups),
        );
        let m = id(&m);
        let keys = k.for_in_keys_fast(&i.heap, n, m).unwrap();
        assert_eq!(keys.join(","), "0,1,2,index,input,groups", "exec keys");
        let props = &i.heap.get(m).props;
        assert!(is_num(&props.get_data("index").unwrap(), 1.0), "exec values");
        assert!(matches!(props.get_data("input"), Some(Value::Str(t)) if t == "xab"), "exec values");
        let g = id(&props.get_data("groups").unwrap());
        assert!(matches!(i.heap.get(g).props.get_data("n"), Some(Value::Str(t)) if t == "b"), "exec values");
        let d = props.get("groups").unwrap();
        assert!(d.writable && d.enumerable && d.configurable, "exec descriptor");
        i.heap.set_prop(m, "index", Property::plain(num(7.0)));
        i.heap.remove_prop(m, "input");
        let props = &i.heap.get(m).props;
        assert!(is_num(&props.get_data("index").unwrap(), 7.0) && !props.contains("input"), "exec mutable");
    }
}

#[test]
fn regexp_literals_die_by_refcount() {
    let mut heap = Heap::new();
    let mut pins = RegexpPins::new();
    let mut alive: HashSet<u64> = HashSet::new();
    for k in 0..20000u64 {
        let o = new_regexp_object(&mut heap, None);
        alive.insert(o);
        pins.programs.insert(o, k);
        pins.regexp_weak_pin(o, &alive);
        // Its last reference is gone when the call returns.
        alive.remove(&o);
    }
    assert!(pins.programs.len() < 5000, "stale regexps entries were not pruned");
    assert!(is_num(&heap.get(0).props.get_data("lastIndex").unwrap(), 0.0));
}

#[test]
fn living_regexps_keep_their_programs() {
    let mut pins = RegexpPins::new();
    let alive: HashSet<u64> = (0..3000u64).collect();
    for o in 0..3000u64 {
        pins.programs.insert(o, o);
        pins.regexp_weak_pin(o, &alive);
    }
    assert_eq!(pins.programs.len(), 3000);
    assert_eq!(pins.pins.len(), 3000);
}

#[test]
fn literal_sites_are_compiled_once() {
    let mut s = RegexpSites::new();
    assert_eq!(s.regexp_site_program(1, 2), None);
    s.keep_site_program(1, 2, 30);
    assert_eq!(s.regexp_site_program(1, 2), Some(30));
    assert_eq!(s.regexp_site_program(2, 1), None);
    for k in 0..MAX_SITES as u64 {
        s.keep_site_program(100 + k, 0, k);
    }
    assert_eq!(s.sites.len(), 1);
}

fn field(key: &str, init: Option<Expr>) -> Field {
    Field { key: key.to_string(), init, anonymous_fn: false, transformed: false }
}

fn class(fields: Vec<Field>) -> ClassInfo {
    ClassInfo { fields, privates: Vec::new(), initializers: Vec::new(), code: FieldCode::Cold(0) }
}

#[test]
fn field_initializers_are_compiled_on_first_use() {
    let mut c = class(vec![field("a", None)]);
    assert!(c.can_compile(Tier::Bytecode));
    assert!(!c.can_compile(Tier::Interp));
    assert!(matches!(c.plan(), FieldPlan::Compile));
    let made = c.compile_initializer(Tier::Bytecode, Some(Value::Obj(4)));
    assert!(matches!(made, FieldPlan::Run(Value::Obj(4))));
    assert!(matches!(c.plan(), FieldPlan::Run(Value::Obj(4))));
    // The compiler refused: the fields are initialized one by one from now on.
    assert!(matches!(c.compile_initializer(Tier::Bytecode, None), FieldPlan::Walk));
    assert!(matches!(c.plan(), FieldPlan::Walk));
    let mut c = class(vec![field("a", None)]);
    assert!(matches!(c.compile_initializer(Tier::Interp, Some(Value::Obj(4))), FieldPlan::Walk));
    // Without fields there is nothing to compile.
    let mut c = class(Vec::new());
    c.initializers.push(Value::Obj(9));
    assert!(matches!(c.plan(), FieldPlan::Compile));
    let made = c.compile_initializer(Tier::Bytecode, None);
    assert!(matches!(made, FieldPlan::Run(Value::Undefined)));
    assert!(matches!(class(Vec::new()).plan(), FieldPlan::Nothing));
    let mut decorated = field("d", None);
    decorated.transformed = true;
    assert!(!class(vec![decorated]).can_compile(Tier::Bytecode));
}

#[test]
fn a_synthetic_initializer_defines_each_field() {
    let body = initializer_body(vec![field("a", None), field("b", Some(Expr::Null))]);
    assert_eq!(body.len(), 2);
    match &body[1] {
        Stmt::Expr(Expr::Call { callee, args, .. }) => {
            assert!(matches!(&**callee, Expr::Ident(n) if n == DEFINE_FIELD));
            assert_eq!(args.len(), 3);
        }
        _ => panic!("a call defines the field"),
    }
    let calls = field_calls(&Value::Obj(1), &vec![Value::Obj(2)]);
    assert_eq!(calls.iter().map(id).collect::<Vec<u64>>(), vec![1, 2]);
    assert!(field_calls(&Value::Undefined, &Vec::new()).is_empty());
}

#[test]
fn instances_are_initialized_function_by_function() {
    let mut heap = Heap::new();
    let o = heap.add_object(Object::new(None));
    let this = Value::Obj(o);
    let ps = vec![PrivateMember {
        key: "#m".to_string(),
        prop: Property::data(Value::Null, false, false, false),
    }];
    let mut flags = FieldFlags { super_call_ok: true, in_field_init_code: false };
    let more = vec![Value::Obj(2)];
    let mut run = match FieldRun::begin(&mut heap, &mut flags, &this, &ps, &Value::Obj(1), &more) {
        Ok(run) => run,
        Err(_) => panic!("the members can be added"),
    };
    assert!(heap.get(o).props.contains("#m"));
    assert!(!flags.super_call_ok && flags.in_field_init_code);
    assert!(matches!(run.step(&mut flags, Ok(())), FieldStep::Call(Value::Obj(1))));
    assert!(matches!(run.step(&mut flags, Ok(())), FieldStep::Call(Value::Obj(2))));
    assert!(flags.in_field_init_code);
    assert!(matches!(run.step(&mut flags, Ok(())), FieldStep::Done(Ok(()))));
    assert!(flags.super_call_ok && !flags.in_field_init_code);
    // The first function that throws is the last.
    let none = Vec::new();
    let mut run = match FieldRun::begin(&mut heap, &mut flags, &this, &none, &Value::Obj(1), &more) {
        Ok(run) => run,
        Err(_) => panic!("there is nothing to add"),
    };
    assert!(matches!(run.step(&mut flags, Ok(())), FieldStep::Call(Value::Obj(1))));
    assert!(matches!(
        run.step(&mut flags, Err(Value::Null)),
        FieldStep::Done(Err(Value::Null))
    ));
    assert!(flags.super_call_ok && !flags.in_field_init_code);
    // Members that are there already: nothing runs.
    let again = FieldRun::begin(&mut heap, &mut flags, &this, &ps, &Value::Obj(1), &more);
    assert!(again.is_err());
    assert!(flags.super_call_ok && !flags.in_field_init_code);
    let kind = initializer_kind();
    assert!(kind.is_strict && kind.is_method && !kind.is_arrow);
    assert_eq!(FIELD_INIT, "%fieldinit%");
}

#[test]
fn generators_wait_for_their_first_step() {
    let mut heap = Heap::new();
    let f = heap.add_object(Object::new(None));
    assert!(generator_proto(&heap, f).is_none());
    heap.set_prop(f, "prototype", Property::plain(Value::Obj(7)));
    assert!(matches!(generator_proto(&heap, f), Some(Value::Obj(7))));
    let mut g = Generators::new();
    assert!(matches!(g.start(Err(Value::Null), Value::Obj(5), true), Err(Value::Null)));
    assert!(g.bodies.is_empty() && g.async_gens.is_empty());
    assert!(matches!(g.start(Ok(30), Value::Obj(5), false), Ok(Value::Obj(5))));
    assert!(matches!(g.start(Ok(31), Value::Obj(6), true), Ok(Value::Obj(6))));
    assert_eq!((g.bodies.get(&5), g.bodies.get(&6)), (Some(&30), Some(&31)));
    assert!(!g.async_gens.contains(&5) && g.async_gens.contains(&6));
}

fn specials(proxy: u64) -> SpecialObjects {
    SpecialObjects {
        proxies: HashSet::from([proxy]),
        typed_arrays: HashSet::new(),
        deferred: HashSet::new(),
        global: 900,
    }
}

#[test]
fn private_members_are_added_once() {
    let mut heap = Heap::new();
    let o = heap.add_object(Object::new(None));
    let this = Value::Obj(o);
    let ps = vec![PrivateMember {
        key: "#m".to_string(),
        prop: Property::data(Value::Null, false, false, false),
    }];
    assert!(add_privates(&mut heap, &this, &ps).is_ok());
    let e = add_privates(&mut heap, &this, &ps).err().unwrap();
    assert_eq!(
        e.text(),
        "TypeError: cannot initialize private methods of a class twice on the same object"
    );
    let mut frozen = Object::new(None);
    frozen.extensible = false;
    let f = heap.add_object(frozen);
    let e = add_privates(&mut heap, &Value::Obj(f), &ps).err().unwrap();
    assert_eq!(e.text(), "TypeError: cannot add private members to a non-extensible object");
    match define_instance_field(&mut heap, &Value::Obj(f), "#x", Value::Null, &specials(901)) {
        FieldDefined::Throws(e) => assert_eq!(
            e.text(),
            "TypeError: cannot add a private field to a non-extensible object"
        ),
        _ => panic!("it is refused"),
    }
}

#[test]
fn fields_are_defined_in_place_or_by_the_general_path() {
    let mut heap = Heap::new();
    let o = heap.add_object(Object::new(None));
    let this = Value::Obj(o);
    let plain = specials(901);
    assert!(matches!(define_instance_field(&mut heap, &this, "a", num(1.0), &plain), FieldDefined::Done));
    assert!(heap.get(o).props.get("a").unwrap().enumerable);
    assert!(matches!(define_instance_field(&mut heap, &this, "a", num(2.0), &plain), FieldDefined::Ordinary));
    assert!(matches!(define_instance_field(&mut heap, &this, "0", num(2.0), &plain), FieldDefined::Ordinary));
    assert!(matches!(define_instance_field(&mut heap, &this, "b", num(2.0), &specials(o)), FieldDefined::Ordinary));
    let mut at = specials(901);
    at.global = o;
    assert!(matches!(define_instance_field(&mut heap, &this, "b", num(2.0), &at), FieldDefined::Ordinary));
    assert!(matches!(define_instance_field(&mut heap, &this, "#p", num(2.0), &plain), FieldDefined::Done));
    match define_instance_field(&mut heap, &this, "#p", num(2.0), &plain) {
        FieldDefined::Throws(e) => {
            assert_eq!(e.text(), "TypeError: cannot initialize the same private field twice")
        }
        _ => panic!("it is refused"),
    }
    match define_instance_field(&mut heap, &Value::Null, "#p", num(2.0), &plain) {
        FieldDefined::Throws(e) => assert_eq!(e.text(), "TypeError: cannot add a private field"),
        _ => panic!("it is refused"),
    }
    let mut flags = FieldFlags { super_call_ok: true, in_field_init_code: false };
    let saved = flags.enter_fields();
    assert!(!flags.super_call_ok && flags.in_field_init_code);
    flags.leave_fields(saved);
    assert!(flags.super_call_ok && !flags.in_field_init_code);
}

#[test]
fn coroutine_bodies_are_compiled_when_hot_or_looping() {
    let mut b = BodyCode { calls: 0, compiled: None, has_loop: false };
    assert_eq!(b.plan(Tier::Interp, false, 0), BodyPlan::Walk);
    assert_eq!(b.plan(Tier::Bytecode, true, 0), BodyPlan::Walk);
    assert_eq!(b.calls, 0);
    assert_eq!(b.plan(Tier::Bytecode, false, 1), BodyPlan::Walk);
    assert_eq!(b.plan(Tier::Bytecode, false, 1), BodyPlan::Compile);
    assert_eq!(b.tried(true), BodyPlan::Run);
    assert_eq!(b.plan(Tier::Bytecode, false, 1), BodyPlan::Run);
    let mut l = BodyCode { calls: 0, compiled: None, has_loop: true };
    assert_eq!(l.plan(Tier::Bytecode, false, 100), BodyPlan::Compile);
    assert_eq!(l.tried(false), BodyPlan::Walk);
}

#[test]
fn the_first_step_of_an_async_body_decides() {
    let p = || Value::Obj(9);
    assert!(matches!(
        async_start(Suspend::Done(num(1.0)), true, true, p()),
        AsyncStart::Value(Value::Num(_))
    ));
    assert!(matches!(
        async_start(Suspend::Done(Value::Obj(3)), true, true, p()),
        AsyncStart::Settle(s) if s.fulfil
    ));
    assert!(matches!(
        async_start(Suspend::Done(num(1.0)), false, true, p()),
        AsyncStart::Settle(s) if s.fulfil
    ));
    assert!(matches!(
        async_start(Suspend::Await(Value::Null), true, true, p()),
        AsyncStart::Park(Value::Null)
    ));
    assert!(matches!(
        async_start(Suspend::Throw(Value::Null), true, true, p()),
        AsyncStart::Settle(s) if !s.fulfil
    ));
}

#[test]
fn body_steps_put_the_flags_back() {
    let mut f = CallFlags {
        strict: false,
        tco_ok: true,
        constructing: false,
        new_target: Value::Undefined,
        in_field_init_code: true,
        in_async_gen_body: true,
    };
    let saved = f.enter_async(true, true);
    assert!(f.strict && f.in_field_init_code && !f.in_async_gen_body);
    f.leave_body(saved);
    assert!(!f.strict && f.in_field_init_code && f.in_async_gen_body);
    let saved = f.enter_generator();
    assert!(!f.in_field_init_code && !f.in_async_gen_body);
    f.leave_body(saved);
    assert!(f.in_field_init_code);
}

#[test]
fn typed_array_getters_have_fixed_places() {
    assert_eq!(ta_meta_index("length"), Some(0));
    assert_eq!(ta_meta_index("size"), None);
}

#[test]
fn functions_have_a_length_and_a_name() {
    let f = function_object(1, Callable::Native(5), 2, "go");
    assert!(is_num(&f.props.get_data("length").unwrap(), 2.0));
    assert!(matches!(f.props.get_data("name"), Some(Value::Str(s)) if s == "go"));
    assert!(f.is_fn());
    let a = array_object(1, vec![Value::Null]);
    assert_eq!(a.exotic, Exotic::Array);
    assert!(is_num(&a.props.get_data("length").unwrap(), 1.0));
}

#[test]
fn only_the_current_realms_getters_are_intrinsic() {
    let mut c = TaMetaCaches { addrs: None };
    let here = Some(vec![10, 11, 12, 13]);
    assert!(!c.is_ta_meta_getter(10, 0, &None));
    assert!(c.addrs.is_none());
    assert!(c.is_ta_meta_getter(11, 1, &here));
    assert_eq!(c.addrs, here);
    assert!(!c.is_ta_meta_getter(11, 2, &here));
    // In another realm the addresses last seen say nothing.
    let there = Some(vec![20, 21, 22, 23]);
    assert!(!c.is_ta_meta_getter(11, 1, &there));
    assert_eq!(c.addrs, there);
    assert!(c.is_ta_meta_getter(23, 3, &there));
}
