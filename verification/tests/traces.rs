//! Stack traces, call frames and the legacy reflection on them.

use lumen::bytecode::jit::records::{CallRec, CallStack};
use lumen::bytecode::prepared_call::{begin_native, end_native};
use lumen::bytecode::reflect::{
    is_legacy, live_params, note_source, read_arguments, read_caller, stash_compiled, FnTraits, Param,
};
use lumen::interpreter::call_cx::{CallCx, Shadow};
use lumen::interpreter::call_state::CallFlags;
use lumen::interpreter::callsite::{callsite_proto, SiteMethod};
use lumen::interpreter::frames::{hold_receiver, recv_kind, site_is_native, site_pos, NO_SITE, RECV_OBJ, RECV_PRIM};
use lumen::interpreter::line_table::{LazyTable, LineTable};
use lumen::interpreter::native_names::{is_capturing_builtin, receiver_type_name, NativeNames};
use lumen::interpreter::scope::Scopes;
use lumen::interpreter::script_frames::{
    adopt_parsed_source, body_start, compile_cjs_function, name_function_source,
    resume_frame_script, CjsFailure, ResumeFrame,
};
use lumen::interpreter::sources::Sources;
use lumen::interpreter::stack_trace::{
    capture_trace, stack_trace_limit, FnInfo, Inlined, RawFrame, TraceCx,
};
use lumen::interpreter::trace_text::{
    callsite, default_text, module_display_name, prepares, resolve_raw, skip_for, stack_header,
    StackRead, Stacks,
};
use lumen::object::{function_object, Callable, Exotic, Heap, Object, PropKind, Property};
use lumen::value::Value;
use std::collections::{HashMap, HashSet};

fn context() -> CallCx {
    CallCx {
        flags: CallFlags {
            strict: false,
            tco_ok: false,
            constructing: false,
            new_target: Value::Undefined,
            in_field_init_code: false,
            in_async_gen_body: false,
        },
        calls: CallStack { fn_frames: Vec::new(), recs: Vec::new() },
        natives: Vec::new(),
        cur_site: NO_SITE,
        cur_coro: 0,
        depth: 0,
        max_depth: 100,
        shadow: Shadow { top: 0, end: 0 },
    }
}

/// A realm with one source, whose functions are added by name.
struct World {
    heap: Heap,
    global: u64,
    proto: u64,
    funcs: HashMap<u64, FnInfo>,
    sources: Sources,
    src: u64,
    alive: HashSet<u64>,
    names: NativeNames,
    text: String,
}

impl World {
    fn new(text: &str) -> World {
        let mut heap = Heap::new();
        let proto = heap.add_object(Object::new(None));
        let global = heap.add_object(Object::new(Some(proto)));
        let mut sources = Sources::new();
        let src = sources.add_text(text.to_string());
        let mut alive = HashSet::new();
        alive.insert(src);
        World {
            heap,
            global,
            proto,
            funcs: HashMap::new(),
            sources,
            src,
            alive,
            names: NativeNames::new(),
            text: text.to_string(),
        }
    }

    fn function(&mut self, name: &str) -> u64 {
        let code = 100 + self.heap.objects.len() as u64;
        let f = self.heap.add_object(function_object(self.proto, Callable::User(code), 0, name));
        self.funcs.insert(
            code,
            FnInfo { is_strict: false, dynamic: false, src: Some(self.src), code: None },
        );
        f
    }

    fn native(&mut self, name: &str, id: u64) -> u64 {
        self.heap.add_object(function_object(self.proto, Callable::Native(id), 0, name))
    }

    fn hold(&mut self, o: u64, key: &str, v: u64) {
        self.heap.set_prop(o, key, Property::builtin(Value::Obj(v)));
    }

    fn at(&self, needle: &str) -> u32 {
        self.text.find(needle).unwrap() as u32
    }

    fn lines(&mut self, cx: &CallCx, limit: usize, skip: Option<(u64, bool)>) -> (Vec<RawFrame>, Vec<String>) {
        let inlined: Vec<Option<Inlined>> = Vec::new();
        let t = TraceCx {
            heap: &self.heap,
            global: self.global,
            funcs: &self.funcs,
            alive: &self.alive,
            inlined: &inlined,
        };
        let (raw, _) = capture_trace(cx, &t, &mut self.names, &mut self.sources, limit, skip);
        let frames = resolve_raw(&t, &mut self.sources, &raw);
        let texts = frames.iter().map(|f| f.text()).collect();
        (raw, texts)
    }

    fn stack(&mut self, cx: &CallCx, head: &str) -> String {
        let inlined: Vec<Option<Inlined>> = Vec::new();
        let t = TraceCx {
            heap: &self.heap,
            global: self.global,
            funcs: &self.funcs,
            alive: &self.alive,
            inlined: &inlined,
        };
        let (raw, _) = capture_trace(cx, &t, &mut self.names, &mut self.sources, 10, None);
        let frames = resolve_raw(&t, &mut self.sources, &raw);
        default_text(head.to_string(), &frames)
    }
}

/// Calls a function from the given site.
fn call(cx: &mut CallCx, site: u32, f: u64, construct: bool) {
    cx.cur_site = site;
    cx.push_frame(f, false);
    let k = cx.calls.fn_frames.len() - 1;
    cx.calls.fn_frames[k].construct = construct;
}

#[test]
fn frames_carry_call_positions_on_every_tier() {
    let src = "function leaf() { return new Error('x').stack; }\n\
               function mid() { return leaf(); }\n\
               class K { constructor() { this.s = mid(); } }\n\
               let s; for (let i = 0; i < 50; i++) s = new K().s;\n\
               s";
    let want = "Error: x\n    at leaf (<anonymous>:1:26)\n    at mid (<anonymous>:2:25)\n    \
                at new K (<anonymous>:3:36)\n    at <anonymous>:4:41";
    let mut w = World::new(src);
    let leaf = w.function("leaf");
    let mid = w.function("mid");
    let k = w.function("K");
    let mut cx = context();
    cx.push_script_frame(w.src, false);
    call(&mut cx, w.at("new K"), k, true);
    call(&mut cx, w.at("mid();"), mid, false);
    call(&mut cx, w.at("leaf();"), leaf, false);
    cx.cur_site = w.at("new Error");
    let head = stack_header(Some("Error".to_string()), Some("x".to_string()));
    assert_eq!(w.stack(&cx, &head), want);
}

/// A builtin that calls back has a frame, named by its receiver.
#[test]
fn builtins_calling_back_have_frames() {
    let mut w = World::new("st()");
    let array = w.native("Array", 10);
    let array_proto = w.heap.add_object(Object::new(Some(w.proto)));
    let map = w.native("map", 11);
    let from = w.native("from", 12);
    let promise = w.native("Promise", 13);
    let math = w.heap.add_object(Object::new(Some(w.proto)));
    let max = w.native("max", 14);
    let object = w.native("Object", 15);
    w.hold(w.proto, "constructor", object);
    w.hold(w.global, "Array", array);
    w.hold(w.global, "Promise", promise);
    w.hold(w.global, "Math", math);
    w.hold(array, "prototype", array_proto);
    w.hold(array, "from", from);
    w.hold(array_proto, "constructor", array);
    w.hold(array_proto, "map", map);
    w.hold(math, "max", max);
    w.heap.set_prop(math, "@@toStringTag", Property::builtin(Value::Str("Math".to_string())));
    // class A extends Array {}
    let a = w.function("A");
    let a_proto = w.heap.add_object(Object::new(Some(array_proto)));
    w.hold(a_proto, "constructor", a);
    let one = w.heap.add_object(Object::new(Some(array_proto)));
    let an_a = w.heap.add_object(Object::new(Some(a_proto)));
    let st = w.function("st");
    let calls: Vec<(u64, Value, bool)> = vec![
        (11, Value::Obj(one), false),
        (11, Value::Str("a".to_string()), false),
        (11, Value::Obj(an_a), false),
        (12, Value::Obj(array), false),
        (13, Value::Undefined, true),
        (14, Value::Obj(math), false),
    ];
    let mut got: Vec<String> = Vec::new();
    for (id, this, construct) in calls {
        let mut cx = context();
        cx.push_script_frame(w.src, false);
        cx.cur_site = 0;
        let saved = begin_native(&mut cx, id, &this);
        let k = cx.natives.len() - 1;
        cx.natives[k].construct = construct;
        let site = cx.cur_site;
        call(&mut cx, site, st, false);
        cx.cur_site = 2;
        let (_, texts) = w.lines(&cx, 10, None);
        let name = texts[1].split(" (").next().unwrap();
        got.push(format!("at {name}"));
        cx.pop_frame();
        end_native(&mut cx, saved);
        assert!(cx.natives.is_empty());
    }
    // A plain call has the caller's frame next.
    let mut cx = context();
    cx.push_script_frame(w.src, false);
    call(&mut cx, 0, st, false);
    cx.cur_site = 0;
    let (_, texts) = w.lines(&cx, 10, None);
    got.push(format!("{}", format!("at {}", texts[1]).starts_with("at <anonymous>")));
    let want = "at Array.map|at String.map|at A.map|at Array.from|at new Promise|\
                at Math.max|true";
    assert_eq!(got.join("|"), want);
}

#[test]
fn capture_stack_trace_limit_and_prepare_stack_trace() {
    let src = r#"
            function a() { return b(); }
            function b() { const o = {}; Error.captureStackTrace(o, a); return o.stack; }
            const out = [a().split("\n").length];
            const o = { message: "m" }; Error.captureStackTrace(o);
            out.push(o.stack.split("\n")[0], typeof Object.getOwnPropertyDescriptor(o, "stack").get);
            Error.stackTraceLimit = 0; out.push(new Error("z").stack);
            Error.stackTraceLimit = "x"; out.push(String(new Error("z").stack));
            Error.stackTraceLimit = 10;
            class E extends Error {}
            function mk() { return new E("e"); }
            out.push(mk().stack.split("\n")[1].trim().split(" ")[1]);
            Error.prepareStackTrace = (e, cs) => cs.map(c => [c.getFunctionName(), c.getLineNumber(),
                c.getColumnNumber(), c.isToplevel(), c.toString()].join(":")).join("|");
            function f() { return new Error("p").stack; }
            out.push(f());
            Error.prepareStackTrace = () => { throw 7; };
            try { new Error("t").stack; } catch (e) { out.push("threw " + e); }
            Error.prepareStackTrace = undefined;
            const e = new Error("h"); e.message = "late"; out.push(e.stack.split("\n")[0]);
            out.join(";")
        "#;
    let mut w = World::new(src);
    let mut out: Vec<String> = Vec::new();
    let a = w.function("a");
    let b = w.function("b");
    // Error.captureStackTrace(o, a) inside b, which a called.
    let mut cx = context();
    cx.push_script_frame(w.src, false);
    call(&mut cx, w.at("a().split"), a, false);
    call(&mut cx, w.at("b(); }"), b, false);
    cx.cur_site = w.at("Error.captureStackTrace(o, a)");
    let skip = skip_for(&w.heap, &Value::Obj(a));
    let (_, texts) = w.lines(&cx, 10, skip);
    out.push(format!("{}", 1 + texts.len()));
    // Error.captureStackTrace(o)
    let o = w.heap.add_object(Object::new(Some(w.proto)));
    let (get, set) = (w.native("get stack", 50), w.native("set stack", 51));
    let mut cx = context();
    cx.push_script_frame(w.src, false);
    cx.cur_site = w.at("Error.captureStackTrace(o);");
    let (raw, _) = w.lines(&cx, 10, None);
    let mut stacks = Stacks::new();
    assert!(stacks.capture_stack_trace(&mut w.heap, &Value::Obj(o), raw, Some((get, set))).is_ok());
    assert!(matches!(stacks.read_stack(o), StackRead::Format));
    let head = stack_header(None, Some("m".to_string()));
    let text = w.stack(&cx, &head);
    out.push(text.split('\n').next().unwrap().to_string());
    let getter = w.heap.get(o).props.get("stack").unwrap();
    assert!(getter.accessor());
    out.push(match &getter.kind {
        PropKind::Accessor { get: Some(g), .. } if w.heap.is_callable(g) => "function".to_string(),
        _ => "undefined".to_string(),
    });
    // Error.stackTraceLimit = 0
    let ctor = w.native("Error", 52);
    let num = |x: f64| Property::plain(Value::Num(x.to_bits()));
    w.heap.set_prop(ctor, "stackTraceLimit", num(0.0));
    assert_eq!(stack_trace_limit(&w.heap, Some(ctor)), Some(0));
    let (raw, texts) = w.lines(&cx, 0, None);
    assert!(raw.is_empty() && texts.is_empty());
    out.push(default_text(stack_header(Some("Error".to_string()), Some("z".to_string())), &Vec::new()));
    // Error.stackTraceLimit = "x"
    w.heap.set_prop(ctor, "stackTraceLimit", Property::plain(Value::Str("x".to_string())));
    let z = w.heap.add_object(Object::new(Some(w.proto)));
    let mut stacks = Stacks::new();
    if let Some(limit) = stack_trace_limit(&w.heap, Some(ctor)) {
        let (raw, _) = w.lines(&cx, limit, None);
        stacks.raw.insert(z, raw);
    }
    out.push(match stacks.read_stack(z) {
        StackRead::Ready(Value::Undefined) => "undefined".to_string(),
        StackRead::Ready(_) => "ready".to_string(),
        StackRead::Format => "to be formatted".to_string(),
    });
    w.heap.set_prop(ctor, "stackTraceLimit", num(10.0));
    assert_eq!(stack_trace_limit(&w.heap, Some(ctor)), Some(10));
    // mk() makes an E: the constructors' frames are left out.
    let mk = w.function("mk");
    let e = w.function("E");
    let mut cx = context();
    cx.push_script_frame(w.src, false);
    call(&mut cx, w.at("mk().stack"), mk, false);
    call(&mut cx, w.at("new E"), e, true);
    let (_, texts) = w.lines(&cx, 10, Some((e, false)));
    out.push(texts[0].split(' ').next().unwrap().to_string());
    // Error.prepareStackTrace formats call sites.
    let f = w.function("f");
    assert!(prepares(&w.heap, &Value::Obj(f), false));
    assert!(!prepares(&w.heap, &Value::Obj(f), true));
    assert!(!prepares(&w.heap, &Value::Undefined, false));
    let mut cx = context();
    cx.push_script_frame(w.src, false);
    call(&mut cx, w.at("f());"), f, false);
    cx.cur_site = w.at("new Error(\"p\")");
    let inlined: Vec<Option<Inlined>> = Vec::new();
    let t = TraceCx {
        heap: &w.heap,
        global: w.global,
        funcs: &w.funcs,
        alive: &w.alive,
        inlined: &inlined,
    };
    let (raw, _) = capture_trace(&cx, &t, &mut w.names, &mut w.sources, 10, None);
    let sites: Vec<String> = resolve_raw(&t, &mut w.sources, &raw)
        .iter()
        .map(|r| {
            let c = callsite(r);
            let show = |v: Value| match v {
                Value::Str(s) => s,
                Value::Num(n) => format!("{}", f64::from_bits(n)),
                _ => String::new(),
            };
            assert!(!c.is_eval() && matches!(c.get_type_name(), Value::Null));
            assert_eq!(show(c.get_eval_origin()), show(c.get_file_name()));
            assert!(!matches!(c.get_function(), Value::Null));
            let methods = callsite_proto();
            assert_eq!((methods.len(), methods[7].name()), (22, "getScriptHash"));
            assert!(matches!(SiteMethod::This.answer(&c), Value::Undefined));
            assert_eq!(show(SiteMethod::Text.answer(&c)), c.text());
            assert_eq!(show(SiteMethod::LineNumber.answer(&c)), show(c.get_line_number()));
            assert!(matches!(SiteMethod::IsNative.answer(&c), Value::Bool(false)));
            format!(
                "{}:{}:{}:{}:{}",
                show(c.get_function_name()),
                show(c.get_line_number()),
                show(c.get_column_number()),
                c.is_toplevel(),
                c.text()
            )
        })
        .collect();
    out.push(sites.join("|"));
    // A formatter that throws: the read throws it, and the trace stays to be formatted.
    let thrower = w.function("f");
    let t = w.heap.add_object(Object::new(Some(w.proto)));
    let mut stacks = Stacks::new();
    stacks.raw.insert(t, raw);
    let read = match stacks.read_stack(t) {
        StackRead::Ready(v) => Ok(v),
        StackRead::Format => {
            assert!(prepares(&w.heap, &Value::Obj(thrower), false));
            stacks.finish_read(t, Err(Value::Num(7f64.to_bits())))
        }
    };
    out.push(match read {
        Err(Value::Num(n)) => format!("threw {}", f64::from_bits(n)),
        _ => "did not throw".to_string(),
    });
    assert!(matches!(stacks.read_stack(t), StackRead::Format));
    // The header is made when the stack is first read.
    let head = stack_header(Some("Error".to_string()), Some("late".to_string()));
    out.push(head);
    let want = "2;Error: m;function;Error: z;undefined;mk;\
                f:15:35:false:f (<anonymous>:15:35)|:16:22:true:<anonymous>:16:22;\
                threw 7;Error: late";
    assert_eq!(out.join(";"), want);
}

#[test]
fn line_table_counts_every_terminator_and_utf16_columns() {
    let src = "a\nb\r\nc\rd\u{2028}e\u{2029}f é😀x";
    let t = LineTable::build(src);
    let at = |needle: &str| src.find(needle).unwrap() as u32;
    assert_eq!(t.line_col(at("a")), Some((1, 0)));
    assert_eq!(t.line_col(at("b")), Some((2, 0)));
    assert_eq!(t.line_col(at("c")), Some((3, 0)));
    assert_eq!(t.line_col(at("d")), Some((4, 0)));
    assert_eq!(t.line_col(at("e")), Some((5, 0)));
    // `f é😀x`: é is one UTF-16 unit, 😀 two.
    assert_eq!(t.line_col(at("x")), Some((6, 5)));
    let back = LineTable::decode(&t.encode()).unwrap();
    assert_eq!(back.line_col(at("x")), Some((6, 5)));
    assert_eq!(back.line_col(at("d")), Some((4, 0)));
    assert_eq!(t.line_col(src.len() as u32 + 1), None);
}

#[test]
fn malformed_line_tables_give_no_position() {
    assert!(LineTable::decode(&[]).is_none());
    assert!(LineTable::decode(&[0xff, 0xff]).is_none());
    let t = LineTable::build("a\nb");
    let bytes = t.encode();
    assert!(LineTable::decode(&bytes[..bytes.len() - 1]).is_none());
    let mut lazy = LazyTable::lazy(bytes);
    assert_eq!(lazy.line_col(2), Some((2, 0)));
    assert_eq!(lazy.line_col(0), Some((1, 0)));
    assert_eq!(LazyTable::lazy(vec![9]).line_col(0), None);
}

fn sloppy() -> FnTraits {
    FnTraits {
        is_strict: false,
        is_arrow: false,
        is_method: false,
        is_generator: false,
        is_async: false,
        params: Vec::new(),
        names_arguments: false,
        captured: Vec::new(),
    }
}

#[test]
fn fresh_activation_closure_reflects_the_actual_cached_call_target() {
    let mut cx = context();
    let (invoke, inspect, first) = (5, 6, 7);
    let warm = |cx: &mut CallCx, f: u64| {
        cx.push_script_frame(0, false);
        call(cx, 1, invoke, false);
        call(cx, 2, f, false);
        call(cx, 3, inspect, false);
        let caller = read_caller(cx, inspect, &sloppy());
        for _ in 0..4 {
            cx.pop_frame();
        }
        matches!(caller, Value::Obj(c) if c == f)
    };
    for _ in 0..500 {
        assert!(warm(&mut cx, first), "warm caller");
    }
    for next in 100..110 {
        assert!(warm(&mut cx, next), "fresh caller");
    }
    assert!(cx.calls.fn_frames.is_empty());
}

#[test]
fn callers_are_hidden_where_they_are_strict_or_idle() {
    let mut cx = context();
    assert!(matches!(read_caller(&cx, 6, &sloppy()), Value::Null));
    cx.push_frame(5, true);
    cx.push_frame(6, false);
    assert!(matches!(read_caller(&cx, 6, &sloppy()), Value::Null));
    let mut strict = sloppy();
    strict.is_strict = true;
    assert!(!is_legacy(&strict));
    assert!(is_legacy(&sloppy()));
}

#[test]
fn arguments_show_the_live_parameters() {
    let mut cx = context();
    cx.push_frame(9, false);
    let mut f = sloppy();
    f.params = vec![Param { name: Some("a".to_string()), rest: false, has_default: false }];
    assert_eq!(live_params(&f), vec![true]);
    let head = vec![Value::Bool(true)];
    stash_compiled(&mut cx, &head, &vec![Value::Null], 4);
    let mut slots: HashMap<u64, Vec<Value>> = HashMap::new();
    slots.insert(4, vec![Value::Bool(true)]);
    let mut enabled = true;
    let scopes = Scopes::new();
    let args = read_arguments(&cx, &scopes, &slots, 9, &f, &mut enabled).unwrap();
    assert!(matches!(args.values[0], Value::Bool(true)));
    // A write to the parameter shows.
    slots.insert(4, vec![Value::Bool(false)]);
    let args = read_arguments(&cx, &scopes, &slots, 9, &f, &mut enabled).unwrap();
    assert_eq!(args.values.len(), 2);
    assert!(matches!(args.values[0], Value::Bool(false)));
    assert!(matches!(args.values[1], Value::Null));
    assert!(read_arguments(&cx, &scopes, &slots, 8, &f, &mut enabled).is_none());
    assert!(note_source("f.arguments", false));
    assert!(note_source("f.caller", false));
    assert!(!note_source("f.x", false));
}

#[test]
fn traces_stop_at_their_limit_and_skip_callers() {
    let mut w = World::new("f()");
    let f = w.function("f");
    let g = w.function("g");
    let mut cx = context();
    cx.push_script_frame(w.src, false);
    call(&mut cx, 0, f, false);
    call(&mut cx, 0, g, false);
    let (_, all) = w.lines(&cx, 10, None);
    assert_eq!(all.len(), 3);
    let (_, two) = w.lines(&cx, 2, None);
    assert_eq!(two, all[..2].to_vec());
    let (_, below) = w.lines(&cx, 10, Some((g, true)));
    assert_eq!(below, all[1..].to_vec());
    let (_, absent) = w.lines(&cx, 10, Some((999, true)));
    assert!(absent.is_empty());
    let (_, kept) = w.lines(&cx, 10, Some((999, false)));
    assert_eq!(kept, all);
}

#[test]
fn pending_records_are_part_of_the_stack() {
    let mut s = CallStack { fn_frames: Vec::new(), recs: Vec::new() };
    s.recs.push(CallRec { strict: false, construct: false, synced: false, site: 4, coro: 0, fn_ptr: 8 });
    assert_eq!(s.pending_frames().len(), 1);
    s.sync_frames();
    assert_eq!(s.fn_frames.len(), 1);
    assert_eq!(s.fn_frames[0].fn_ptr, 8);
    assert_eq!(s.pending_frames().len(), 0);
    s.sync_frames();
    assert_eq!(s.fn_frames.len(), 1);
}

#[test]
fn receivers_are_named_by_their_constructor() {
    let mut w = World::new("");
    assert_eq!(receiver_type_name(&w.heap, &Value::Str(String::new())), "String");
    assert_eq!(receiver_type_name(&w.heap, &Value::Null), "Object");
    let c = w.function("Point");
    let p = w.heap.add_object(Object::new(Some(w.proto)));
    w.hold(p, "constructor", c);
    assert_eq!(receiver_type_name(&w.heap, &Value::Obj(p)), "Point");
    assert_eq!(receiver_type_name(&w.heap, &Value::Obj(c)), "Point");
    assert_eq!(w.heap.get(p).exotic, Exotic::Ordinary);
    assert_eq!(recv_kind(&Value::Obj(1)), RECV_OBJ);
    assert_eq!(recv_kind(&Value::Num(0)), RECV_PRIM + 1);
    assert!(is_capturing_builtin("new TypeError"));
}

#[test]
fn sites_carry_their_tags() {
    assert_eq!(site_pos(5), 5);
    assert!(!site_is_native(5));
    assert!(site_is_native(5 | 0x4000_0000));
    assert_eq!(site_pos(5 | 0x4000_0000), 5);
}

#[test]
fn sources_are_named_and_counted_from_their_body() {
    let mut s = Sources::new();
    let src = s.add_text("function anonymous(a\n) {\nf();\n}".to_string());
    let mut alive = HashSet::new();
    alive.insert(src);
    let start = body_start("function anonymous(a\n) {\nf();\n}").unwrap();
    assert_eq!(start, 25);
    s.register(src, Some("/m.js"), Some(start), 7, None, &alive);
    let (file, line, wrapper) = s.describe(src, start, &alive);
    assert_eq!((file.as_str(), line, wrapper), ("/m.js", Some((1, 1)), 7));
    let (_, before, _) = s.describe(src, 3, &alive);
    assert_eq!(before, None);
    assert_eq!(body_start("x => x"), None);
}

#[test]
fn kept_stacks_read_back() {
    let mut s = Stacks::new();
    assert!(matches!(s.read_stack(4), StackRead::Ready(Value::Undefined)));
    assert!(s.finish_read(4, Ok(Value::Str("Error".to_string()))).is_ok());
    assert!(matches!(s.read_stack(4), StackRead::Ready(Value::Str(t)) if t == "Error"));
    let mut heap = Heap::new();
    assert!(s.capture_stack_trace(&mut heap, &Value::Null, Vec::new(), Some((1, 2))).is_err());
}

#[test]
fn headers_join_name_and_message() {
    let t = |s: &str| Some(s.to_string());
    assert_eq!(stack_header(t("TypeError"), t("m")), "TypeError: m");
    assert_eq!(stack_header(None, None), "Error");
    assert_eq!(stack_header(t(""), t("m")), "m");
    assert_eq!(stack_header(t("E"), t("")), "E");
}

#[test]
fn verbatim_prefixes_are_not_shown() {
    assert_eq!(module_display_name("\\\\?\\C:\\a.js"), "file:///C:/a.js");
    assert_eq!(module_display_name("https://x/a.js"), "https://x/a.js");
}

#[test]
fn resumed_bodies_have_a_frame() {
    let mut w = World::new("function f() {}");
    let f = w.function("f");
    let code = match w.heap.get(f).call {
        Callable::User(c) => c,
        _ => panic!("a user function"),
    };
    let mut cx = context();
    cx.cur_site = 9;
    let top = resume_frame_script(Some(w.src));
    let e = cx.enter_resume_frame(&top, false, None);
    assert_eq!((e, cx.cur_site), (Some((0, 0)), NO_SITE));
    assert_eq!(cx.innermost_source(&w.heap, &w.funcs), Some(w.src));
    let body = ResumeFrame::Function { f, skip_first: true };
    assert_eq!(cx.enter_resume_frame(&body, false, Some(true)), None);
    assert_eq!(cx.enter_resume_frame(&body, true, None), None);
    let inner = cx.enter_resume_frame(&body, true, Some(true));
    assert_eq!(inner, Some((1, f)));
    assert_eq!(cx.innermost_source(&w.heap, &w.funcs), Some(w.src));
    let again = cx.resume_frame_for(&w.heap, code, false);
    assert!(matches!(again, ResumeFrame::Function { f: g, skip_first: false } if g == f));
    assert!(matches!(cx.resume_frame_for(&w.heap, code + 1, false), ResumeFrame::Nothing));
    cx.leave_resume_frame(inner);
    cx.leave_resume_frame(e);
    assert_eq!((cx.calls.fn_frames.len(), cx.cur_site), (0, 9));
    assert_eq!(cx.enter_resume_frame(&resume_frame_script(None), true, None), None);
}

#[test]
fn sources_are_named_after_files() {
    let mut w = World::new("function anonymous(a\n) {\nreturn a\n}");
    let f = w.function("anonymous");
    let World { heap, funcs, sources, alive, src, .. } = &mut w;
    // Only a dynamic function's source is named.
    assert!(!name_function_source(sources, heap, funcs, &Value::Obj(f), "a.js", alive));
    assert_ne!(sources.describe(*src, 27, alive).0, "a.js".to_string());
    for info in funcs.values_mut() {
        info.dynamic = true;
    }
    assert!(name_function_source(sources, heap, funcs, &Value::Obj(f), "/m.js", alive));
    assert!(!name_function_source(sources, heap, funcs, &Value::Null, "/m.js", alive));
    let (name, at, _) = sources.describe(*src, 27, alive);
    assert_eq!((name, at), ("/m.js".to_string(), Some((1, 3))));
    // A CommonJS module's positions are the file's.
    let r = compile_cjs_function(sources, Ok((Value::Obj(f), Some(*src))), "/c.js", alive);
    assert!(matches!(r, Ok(Value::Obj(g)) if g == f));
    let (name, at, _) = sources.describe(*src, 27, alive);
    assert_eq!((name, at), ("/c.js".to_string(), Some((3, 3))));
    let bad = Err(CjsFailure::Script("Unexpected token".to_string()));
    let e = compile_cjs_function(sources, bad, "/c.js", alive).err().unwrap();
    assert_eq!(e.text(), "SyntaxError: Unexpected token");
    let ts = Err(CjsFailure::TypeScript(None));
    assert!(compile_cjs_function(sources, ts, "/c.ts", alive).is_err());
    assert_eq!(adopt_parsed_source(sources, None, Some("x"), 0, alive), None);
    assert_eq!(adopt_parsed_source(sources, Some((*src, None)), Some("/n.js"), 0, alive), Some(*src));
    assert_eq!(sources.describe(*src, 0, alive).0, "/n.js".to_string());
}

#[test]
fn receivers_are_held_once_they_are_recorded() {
    assert!(matches!(hold_receiver(&Value::Obj(4), true), Value::Obj(4)));
    assert!(matches!(hold_receiver(&Value::Obj(4), false), Value::Undefined));
    assert!(matches!(hold_receiver(&Value::Null, true), Value::Undefined));
}

#[test]
fn dead_sources_are_pruned_as_the_registry_grows() {
    let mut s = Sources::new();
    let ids: Vec<u64> = (0..66).map(|k| s.add_text(format!("text {k}"))).collect();
    let all: HashSet<u64> = ids.iter().copied().collect();
    for k in 0..64 {
        s.register(ids[k], Some("/a.js"), None, 0, None, &all);
    }
    assert_eq!((s.map.len(), s.prune_at), (64, 64));
    let alive: HashSet<u64> = HashSet::from([ids[3], ids[64]]);
    let (name, at, _) = s.describe(ids[64], 0, &alive);
    assert_eq!((name.as_str(), at), ("<anonymous>", Some((1, 1))));
    assert_eq!((s.map.len(), s.prune_at), (2, 64));
    assert_eq!(s.describe(ids[3], 0, &alive).0, "/a.js");
    assert!(s.map.get(&ids[3]).unwrap().table.is_some());
}
