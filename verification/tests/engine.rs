//! The engine's settings, scripts and queue.

use lumen::ast::{Expr, Stmt};
use lumen::embed_convert::desc::OpDesc;
use lumen::engine::{
    describe_throw, ts_uncaught, Completion, Engine, HostHooks, ParseError, SourceKind, Thrown,
    Tier,
};
use lumen::interpreter::interp::JsonStep;
use lumen::runs::{
    compile_snapshot, complete, complete_module, script_value, unit_refused, Blob, Drain, LoadStep,
    NativeSpec, Ran,
};
use lumen::value::Value;

fn engine() -> Engine {
    Engine::new(1000, 100_000)
}

fn thrown() -> Thrown {
    Thrown {
        is_object: true,
        is_error: true,
        code: None,
        stack: None,
        name: Some("TypeError".to_string()),
        ctor_name: Some("E".to_string()),
        message: Some("bad".to_string()),
        rendered: "[object]".to_string(),
    }
}

#[test]
fn scripts_are_strict_by_request_or_directive() {
    let mut e = engine();
    let directive = || vec![Stmt::Expr(Expr::Str("use strict".to_string()))];
    assert!(e.eval(Ok(vec![Stmt::Other]), false).is_ok());
    assert!(!e.strict);
    assert!(e.eval(Ok(directive()), false).is_ok());
    assert!(e.strict);
    assert!(e.eval(Ok(Vec::new()), true).is_ok());
    assert!(e.strict);
    assert!(e.eval_snapshot(Ok(Vec::new()), false).is_ok());
    assert!(!e.strict);
    let r = e.eval_snapshot(Err("version".to_string()), true);
    assert!(matches!(r, Err(p) if p.message == "version" && p.line == 0 && !p.at_eof));
    assert!(!e.strict);
}

#[test]
fn json_is_parsed_by_the_realm() {
    let e = engine();
    let i = &e.interp;
    let (json, parse) = (Some(Ok(Value::Obj(70))), Some(Ok(Value::Obj(71))));
    let read = |s: JsonStep| match s {
        JsonStep::Read { of: Value::Obj(o), name } => (o, name),
        _ => panic!("a member is read"),
    };
    assert_eq!(read(i.json_parse("[1]", &None, &None)), (i.global, "JSON".to_string()));
    assert_eq!(read(i.json_parse("[1]", &json, &None)), (70, "parse".to_string()));
    match i.json_parse("[1]", &json, &parse) {
        JsonStep::Call { callee: Value::Obj(71), this: Value::Obj(70), args } => {
            assert!(matches!(args.as_slice(), [Value::Str(s)] if s == "[1]"));
        }
        _ => panic!("the text is parsed"),
    }
    let threw = Some(Err(Value::Bool(true)));
    assert!(matches!(i.json_parse("", &threw, &None), JsonStep::Throw(Value::Bool(true))));
    assert!(matches!(i.json_parse("", &json, &threw), JsonStep::Throw(Value::Bool(true))));
}

#[test]
fn limits_are_clamped() {
    let mut e = engine();
    e.set_live_object_limit(5);
    assert_eq!((e.live_limit, e.gc_next), (1000, 1000));
    e.set_live_object_limit(5000);
    assert_eq!((e.live_limit, e.gc_next), (5000, 1000));
    e.set_live_object_limit(i64::MAX);
    assert_eq!(e.live_limit, 100_000);
}

#[test]
fn crossing_the_limit_terminates_an_interruptible_realm() {
    let mut e = engine();
    assert!(e.cross_limit());
    assert!(!e.is_terminated() && !e.heap_limit_hit());
    e.set_interrupt(3);
    assert!(!e.cross_limit());
    assert!(e.is_terminated() && e.heap_limit_hit());
}

#[test]
fn thrown_values_are_described() {
    match describe_throw(thrown(), None) {
        Completion::Throw { name, message } => {
            assert_eq!((name.as_str(), message.as_str()), ("TypeError", "bad"))
        }
        Completion::Value(_) => panic!("it threw"),
    }
    let mut plain = thrown();
    plain.is_object = false;
    plain.is_error = false;
    plain.name = None;
    plain.ctor_name = Some("String".to_string());
    plain.rendered = "x".to_string();
    match complete_module(Some((plain, None))) {
        Completion::Throw { name, message } => {
            assert_eq!((name.as_str(), message.as_str()), ("", "x"))
        }
        Completion::Value(_) => panic!("it threw"),
    }
    // An object that is no Error has a message and no name.
    let mut custom = thrown();
    custom.is_error = false;
    match complete(Ran::Threw { thrown: custom, report: None }) {
        Completion::Throw { name, message } => {
            assert_eq!((name.as_str(), message.as_str()), ("", "bad"))
        }
        Completion::Value(_) => panic!("it threw"),
    }
    let mut unnamed = thrown();
    unnamed.name = None;
    match complete(Ran::Threw { thrown: unnamed, report: None }) {
        Completion::Throw { name, message } => {
            assert_eq!((name.as_str(), message.as_str()), ("E", "bad"))
        }
        Completion::Value(_) => panic!("it threw"),
    }
    let mut ts = thrown();
    ts.code = Some("ERR_INVALID_TYPESCRIPT_SYNTAX".to_string());
    ts.stack = Some("s".to_string());
    let (stack, code) = ts_uncaught(&ts).unwrap();
    assert_eq!((stack.as_str(), code.as_str()), ("s", "ERR_INVALID_TYPESCRIPT_SYNTAX"));
    assert!(ts_uncaught(&thrown()).is_none());
    assert!(matches!(complete(Ran::Value("1".to_string())), Completion::Value(v) if v == "1"));
    assert!(matches!(complete_module(None), Completion::Value(v) if v.is_empty()));
}

#[test]
fn snapshots_report_the_first_failure() {
    let bad = |line: u32| ParseError { message: "Unexpected token".to_string(), line, at_eof: false };
    assert_eq!(
        compile_snapshot(Some(bad(3)), Ok(Vec::new())),
        Err("Unexpected token (line 3)".to_string())
    );
    assert_eq!(compile_snapshot(None, Err(bad(12))), Err("Unexpected token (line 12)".to_string()));
    assert_eq!(compile_snapshot(None, Ok(vec![1, 2])), Ok(vec![1, 2]));
    assert_eq!(unit_refused("aot:/m.js", "truncated").message, "aot:/m.js: truncated");
}

#[test]
fn blobs_run_their_scripts_in_order_and_the_entry_last() {
    let kinds = vec![SourceKind::Module, SourceKind::Script, SourceKind::Module, SourceKind::Script];
    let keys = || ["a", "b", "c", "d"].iter().map(|k| k.to_string()).collect::<Vec<String>>();
    let blob = |entry: Option<usize>| Blob { keys: keys(), kinds: kinds.clone(), entry };
    let mut l = Engine::load_precompiled(Ok(blob(Some(2)))).unwrap();
    assert!(matches!(l.next(), LoadStep::Script(1)));
    l.script_ran(1, Ran::Value("1".to_string()));
    assert!(matches!(&l.last, Completion::Value(v) if v == "1"));
    assert!(matches!(l.next(), LoadStep::Script(3)));
    l.script_ran(3, Ran::Value("3".to_string()));
    assert!(matches!(l.next(), LoadStep::Entry(2)));
    l.entry_ran(None);
    assert!(matches!(l.next(), LoadStep::Done));
    assert!(matches!(&l.last, Completion::Value(v) if v.is_empty()));
    let mut l = Engine::load_precompiled(Ok(blob(Some(2)))).unwrap();
    l.script_ran(1, Ran::Threw { thrown: thrown(), report: None });
    assert!(matches!(l.next(), LoadStep::Done));
    assert!(matches!(&l.last, Completion::Throw { name, .. } if name == "TypeError"));
    let none = Blob { keys: Vec::new(), kinds: Vec::new(), entry: None };
    let l = Engine::load_precompiled(Ok(none)).unwrap();
    assert!(matches!(l.next(), LoadStep::Done));
    assert!(matches!(&l.last, Completion::Value(v) if v.is_empty()));
    assert!(Engine::load_precompiled(Err("bad".to_string())).is_err());
    let b = blob(Some(1));
    assert!(matches!(Engine::register_precompiled(Ok(b)), Ok(Some(k)) if k == "b"));
    assert!(Engine::register_precompiled(Err("bad".to_string())).is_err());
}

#[test]
fn the_console_is_taken_once() {
    let mut e = engine();
    e.log("a".to_string());
    e.log("b".to_string());
    assert_eq!(e.take_console(), vec!["a".to_string(), "b".to_string()]);
    assert!(e.take_console().is_empty());
    e.set_import_base("/x");
    assert_eq!(e.import_base, "/x");
}

#[test]
fn settings_are_kept() {
    let mut e = engine();
    assert_eq!(e.tier(), Tier::Bytecode);
    e.set_tier(Tier::Interp);
    e.set_tier_threshold(9);
    e.set_can_block(true);
    assert_eq!((e.tier(), e.tier_threshold, e.can_block), (Tier::Interp, 9, true));
    e.set_module_loader(4);
    assert_eq!(e.loader_attribute(Some("json".to_string())), None);
    e.set_module_loader_attrs(5);
    assert_eq!(e.loader_attribute(Some("json".to_string())), Some("json".to_string()));
    e.run_as_agent(6);
    assert_eq!(e.agent, Some(6));
    let mut h = HostHooks::new();
    h.set_host_clock(1);
    h.set_host_clock(2);
    h.set_wasm_jit_host(3);
    assert_eq!((h.clock, h.wasm_jit), (Some(1), Some(3)));
}

fn native(e: &Engine, o: u64, key: &str) -> Option<u64> {
    match e.interp.heap.get(o).props.get_data(key) {
        Some(Value::Obj(f)) => Some(f),
        _ => None,
    }
}

#[test]
fn globals_and_namespaces_hold_native_functions() {
    let mut e = engine();
    e.define_global("f", 2, 40);
    let g = e.interp.global;
    let f = native(&e, g, "f").unwrap();
    assert!(e.interp.heap.get(f).is_fn());
    let spec = |name: &str, native: u64| NativeSpec { name: name.to_string(), length: 1, native };
    e.define_namespace("ns", &vec![spec("a", 41), spec("b", 42)]);
    let ns = native(&e, g, "ns").unwrap();
    assert!(native(&e, ns, "a").is_some() && native(&e, ns, "b").is_some());
    let op = OpDesc {
        name: "clamp".to_string(),
        owner: String::new(),
        arity: 3,
        params: Vec::new(),
        native: 43,
        fast: None,
        flags: 0,
    };
    e.define_op(&op);
    let c = native(&e, g, "clamp").unwrap();
    assert_eq!(e.ctx().op_desc_of(&Value::Obj(c)).unwrap().name, "clamp");
    e.define_ops("ops", None, &vec![op]);
    let ops = native(&e, g, "ops").unwrap();
    assert!(native(&e, ops, "clamp").is_some());
    // The object that the global holds is extended, whatever a reading came to.
    let more = OpDesc {
        name: "floor".to_string(),
        owner: String::new(),
        arity: 1,
        params: Vec::new(),
        native: 44,
        fast: None,
        flags: 0,
    };
    e.define_ops("ops", Some(g), &vec![more]);
    assert_eq!(native(&e, g, "ops"), Some(ops));
    assert!(native(&e, ops, "clamp").is_some() && native(&e, ops, "floor").is_some());
    assert!(native(&e, g, "floor").is_none());
    assert!(matches!(e.global_this(), Value::Obj(o) if o == g));
}

#[test]
fn an_empty_queue_is_idle() {
    let mut e = engine();
    assert!(!e.has_pending_jobs());
    assert!(e.run_one_job().is_none());
    assert!(matches!(e.run_microtasks(), Drain::Idle));
    assert_eq!(e.string_view_stats(), (0, 0, 0));
    assert!(e.take_unhandled_rejections().is_empty());
    assert!(matches!(script_value(Ok(Value::Empty)), Ok(Value::Undefined)));
    assert!(matches!(script_value(Err(Value::Null)), Err(Value::Null)));
}
