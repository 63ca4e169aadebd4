//! The bytecode section of a precompiled unit: what is carried, refused and decoded again.

use lumen::ast::{Expr, Stmt};
use lumen::bytecode::chunk::{CapInit, Chunk, FnId};
use lumen::bytecode::chunk_codec::{dec_chunk, enc_chunk};
use lumen::bytecode::fingerprint::{fingerprint, fnv, CODEC_VERSION, FNV_BASIS, OP_SIG};
use lumen::bytecode::list_codec::{EncodeError, Tables};
use lumen::bytecode::memsize::{ChunkBytes, ChunkRoom, Room};
use lumen::bytecode::op::{ArithKind, Op, UpdKind};
use lumen::bytecode::op_codec::{dec_op, enc_op};
use lumen::bytecode::positions;
use lumen::bytecode::registry::{verify_unit, FnState, Mismatch, PtrHasher, Registry, ThreadTable, Verified};
use lumen::bytecode::section::{encode_unit, is_run_once, parse_section, UnitFn, RUN_ONCE};
use lumen::bytecode::strings::Strings;
use lumen::bytecode::unit_index::UnitIndex;
use lumen::bytecode::wire::{uv, DecodeError, Rd};
use lumen::value::{BigInt, Value};

fn chunk(ops: Vec<Op>) -> Chunk {
    Chunk {
        ops,
        consts: Vec::new(),
        names: Vec::new(),
        n_slots: 0,
        slot_names: Vec::new(),
        n_params: 0,
        arguments_slot: None,
        rest_slot: None,
        virt_base: None,
        var_force_resets: Vec::new(),
        uses_this: false,
        env_this: false,
        derived: false,
        reflect_args: false,
        funcs: Vec::new(),
        classes: 0,
        cap_inits: Vec::new(),
        positions: Vec::new(),
        caches: 0,
        obj_maps: 0,
        name_caches: 0,
        name_paths: 0,
        name_pins: 0,
        cap_caches: 0,
        cap_pins: 0,
        switch_tables: 0,
    }
}

fn num(x: f64) -> Value {
    Value::Num(x.to_bits())
}

/// function f(a) { return a * 2 + 1; }
fn f_chunk() -> Chunk {
    let mut c = chunk(vec![
        Op::LoadLocal(0),
        Op::Const(0),
        Op::Mul,
        Op::Const(1),
        Op::Add,
        Op::Return,
    ]);
    c.consts = vec![num(2.0), num(1.0)];
    c.n_slots = 1;
    c.slot_names = vec!["a".to_string()];
    c.n_params = 1;
    c
}

/// function g() { return f(3); }
fn g_chunk() -> Chunk {
    let mut c = chunk(vec![Op::LoadName(0, 0), Op::Const(0), Op::Call(1), Op::Return]);
    c.consts = vec![num(3.0)];
    c.names = vec!["f".to_string()];
    c.name_caches = 1;
    c.name_paths = 1;
    c.name_pins = 1;
    c.cap_caches = 1;
    c.cap_pins = 1;
    c.positions = positions::encode(&c.ops, &[61]);
    c
}

/// [1n, -0, NaN, "str😀", null, true, false, 1e300], with a closure and captured bindings.
fn rich_chunk() -> Chunk {
    let mut c = chunk(vec![
        Op::Const(0),
        Op::UpdateLocal(1, UpdKind::PostInc),
        Op::ArithLK(ArithKind::Add, 0, 1, 2),
        Op::MakeClosure(0, 1),
        Op::DeleteProp(0, true),
        Op::ReturnUndef,
    ]);
    c.consts = vec![
        Value::BigInt(BigInt { negative: false, hex: "1".to_string() }),
        num(-0.0),
        num(f64::NAN),
        Value::Str("str\u{1F600}".to_string()),
        Value::Null,
        Value::Bool(true),
        Value::Bool(false),
        num(1e300),
    ];
    c.names = vec!["a".to_string(), "b".to_string()];
    c.cap_caches = 2;
    c.cap_pins = 2;
    c.n_slots = 2;
    c.slot_names = vec!["x".to_string(), "".to_string()];
    c.n_params = 1;
    c.funcs = vec![FnId(2)];
    c.cap_inits = vec![
        CapInit::Param(0, "x".to_string()),
        CapInit::Var("v".to_string()),
        CapInit::Fn(0, "h".to_string()),
        CapInit::Lexical("l".to_string(), true),
    ];
    c.uses_this = true;
    c.arguments_slot = Some(1);
    c
}

fn unit() -> Vec<UnitFn> {
    vec![
        UnitFn { id: FnId(1), body: Some(vec![Stmt::Other]), compiled: Some(f_chunk()) },
        UnitFn { id: FnId(2), body: Some(vec![Stmt::Other]), compiled: Some(g_chunk()) },
    ]
}

fn same_chunk(a: &Chunk, b: &Chunk, ids: &Vec<FnId>) -> bool {
    let mut s = Strings::new();
    let x = enc_chunk(&mut s, &UnitIndex::new(ids), a).unwrap();
    let y = enc_chunk(&mut s, &UnitIndex::new(ids), b).unwrap();
    x == y
}

#[test]
fn fingerprint_is_nonzero_and_covers_the_op_table() {
    assert_ne!(fingerprint(), 0);
    assert!(OP_SIG.contains("MakeClosure"));
    assert_eq!(CODEC_VERSION, 1);
}

#[test]
fn fnv_is_the_usual_hash() {
    assert_eq!(fnv(FNV_BASIS, b""), 0xcbf2_9ce4_8422_2325);
    assert_eq!(fnv(FNV_BASIS, b"a"), 0xaf63_dc4c_8601_ec8c);
    assert_eq!(fnv(FNV_BASIS, b"foobar"), 0x8594_4171_f739_67e8);
}

#[test]
fn corrupt_sections_are_errors_not_panics() {
    let funcs = unit();
    let (section, _) = encode_unit(&funcs);
    for cut in 0..section.len() {
        let mut r = Registry::new();
        assert!(r.attach_unit(section[..cut].to_vec(), 2).is_err(), "cut at {cut}");
    }
    let mut r = Registry::new();
    assert!(r.attach_unit(section, 1).is_err(), "function count mismatch");
}

fn attach_all(r: &mut Registry, section: Vec<u8>, n: usize) -> (Vec<FnState>, usize, usize) {
    let u = r.attach_unit(section, n).unwrap();
    let mut states: Vec<FnState> = Vec::new();
    for i in 0..n {
        let mut st = FnState { code: None, calls: 0 };
        r.register(u, i, FnId(i as u64 + 1), &mut st);
        states.push(st);
    }
    let chunks = r.lazy_registered();
    let refusals = states.iter().filter(|s| matches!(s.code, Some(None))).count();
    (states, chunks, refusals)
}

#[test]
fn chunks_roundtrip_byte_for_byte() {
    let funcs = vec![
        UnitFn { id: FnId(1), body: Some(Vec::new()), compiled: Some(f_chunk()) },
        UnitFn { id: FnId(2), body: Some(Vec::new()), compiled: Some(g_chunk()) },
        UnitFn { id: FnId(3), body: Some(Vec::new()), compiled: Some(rich_chunk()) },
        UnitFn { id: FnId(4), body: Some(Vec::new()), compiled: None },
    ];
    let (section, stats) = encode_unit(&funcs);
    assert_eq!((stats.functions, stats.chunks, stats.refused, stats.unserializable), (4, 3, 1, 0));
    let mut r = Registry::new();
    let (mut states, chunks, refusals) = attach_all(&mut r, section, 4);
    assert_eq!((chunks, refusals), (stats.chunks, stats.refused));
    for (i, st) in states.iter_mut().enumerate() {
        r.attach_now(FnId(i as u64 + 1), st);
    }
    let fresh = vec![Some(f_chunk()), Some(g_chunk()), Some(rich_chunk()), None];
    let verified: Vec<Verified> = states
        .into_iter()
        .zip(fresh)
        .enumerate()
        .map(|(i, (st, fresh))| Verified { id: FnId(i as u64 + 1), name: None, attached: st.code, fresh })
        .collect();
    assert_eq!(verify_unit(&verified).unwrap(), (chunks, refusals));
}

#[test]
fn lazily_registered_chunks_decode_on_first_compile() {
    let (section, stats) = encode_unit(&unit());
    let mut r = Registry::new();
    let (states, chunks, refusals) = attach_all(&mut r, section, 2);
    assert_eq!((chunks, refusals), (stats.chunks, stats.refused));
    let ids = vec![FnId(1), FnId(2)];
    let mut decoded = 0;
    for (i, st) in states.iter().enumerate() {
        assert!(st.code.is_none(), "only the refusal is attached up front");
        let pre = r.take_precompiled(ids[i]).expect("a registered chunk");
        let fresh = if i == 0 { f_chunk() } else { g_chunk() };
        assert!(same_chunk(&pre, &fresh, &ids));
        assert!(r.take_precompiled(ids[i]).is_none());
        decoded += 1;
    }
    assert_eq!(decoded, chunks);
}

#[test]
fn run_once_functions_are_left_to_the_tree_walker() {
    let directive = Stmt::Expr(Expr::Str(RUN_ONCE.to_string()));
    let a = UnitFn { id: FnId(1), body: Some(vec![directive]), compiled: Some(f_chunk()) };
    let b = UnitFn { id: FnId(2), body: Some(vec![Stmt::Other]), compiled: Some(f_chunk()) };
    assert!(is_run_once(&a));
    assert!(!is_run_once(&b));
    let (section, stats) = encode_unit(&vec![a, b]);
    assert_eq!((stats.chunks, stats.refused), (1, 1), "{stats:?}");
    let mut r = Registry::new();
    let (states, chunks, refusals) = attach_all(&mut r, section, 2);
    assert_eq!((chunks, refusals), (1, 1));
    assert!(matches!(states[0].code, Some(None)));
}

#[test]
fn what_the_codec_does_not_carry_is_left_to_run_time() {
    let mut c = f_chunk();
    c.classes = 1;
    let mut s = Strings::new();
    assert!(matches!(enc_chunk(&mut s, &UnitIndex::new(&Vec::new()), &c), Err(EncodeError::Classes)));
    let mut c = rich_chunk();
    c.consts.push(Value::Obj(4));
    assert!(matches!(enc_chunk(&mut s, &UnitIndex::new(&vec![FnId(2)]), &c), Err(EncodeError::Constant)));
    assert!(matches!(enc_chunk(&mut s, &UnitIndex::new(&Vec::new()), &rich_chunk()), Err(EncodeError::Function)));
    let mut c = f_chunk();
    c.n_slots = 3;
    assert!(matches!(enc_chunk(&mut s, &UnitIndex::new(&Vec::new()), &c), Err(EncodeError::TablesDisagree)));
    let mut odd = f_chunk();
    odd.classes = 1;
    let (_, stats) =
        encode_unit(&vec![UnitFn { id: FnId(1), body: None, compiled: Some(odd) }]);
    assert_eq!((stats.chunks, stats.refused, stats.unserializable), (0, 0, 1));
    assert_eq!(EncodeError::Classes.message(), "class definitions are not carried by the codec");
}

#[test]
fn a_chunk_is_read_back() {
    let mut s = Strings::new();
    let unit = vec![FnId(2)];
    let bytes = enc_chunk(&mut s, &UnitIndex::new(&unit), &rich_chunk()).unwrap();
    let funcs = vec![Some(FnId(2))];
    let t = Tables { strings: &s.list, funcs: &funcs };
    let mut rd = Rd::new(&bytes);
    let c = dec_chunk(&mut rd, &t).unwrap();
    assert_eq!(rd.pos, bytes.len());
    assert_eq!(c.ops, rich_chunk().ops);
    assert!(matches!(&c.consts[3], Value::Str(t) if t == "str\u{1F600}"));
    assert!(matches!(&c.consts[0], Value::BigInt(b) if !b.negative && b.hex == "1"));
    assert_eq!(c.funcs, vec![FnId(2)]);
    assert_eq!(c.arguments_slot, Some(1));
    assert!(c.uses_this);
    assert!(same_chunk(&c, &rich_chunk(), &unit));
}

#[test]
fn ops_are_read_back_and_bad_tags_are_errors() {
    let ops = [Op::Undef, Op::BlkUpdate(3, 70000, UpdKind::DecDiscard), Op::ImportCall(2, true)];
    let mut w: Vec<u8> = Vec::new();
    for op in ops {
        enc_op(&mut w, op);
    }
    let mut rd = Rd::new(&w);
    for op in ops {
        assert_eq!(dec_op(&mut rd), Ok(op));
    }
    assert_eq!(dec_op(&mut rd), Err(DecodeError::Truncated));
    assert_eq!(dec_op(&mut Rd::new(&[250])), Err(DecodeError::BadOpTag(250)));
    assert_eq!(DecodeError::BadOpTag(250).message(), "bytecode: bad op tag 250");
}

#[test]
fn varints_hold_every_number() {
    for v in [0, 1, 127, 128, 300, u32::MAX as u64, u64::MAX] {
        let mut w: Vec<u8> = Vec::new();
        uv(&mut w, v);
        let mut rd = Rd::new(&w);
        assert_eq!(rd.uv(), Ok(v));
        assert_eq!(rd.pos, w.len());
    }
    let mut w: Vec<u8> = Vec::new();
    uv(&mut w, 300);
    assert_eq!(w, vec![0xac, 2]);
    assert_eq!(Rd::new(&[0xff; 11]).uv(), Err(DecodeError::VarintOverflow));
    assert_eq!(Rd::new(&[9]).len(), Err(DecodeError::BadCount));
    let mut big: Vec<u8> = Vec::new();
    uv(&mut big, 70_000);
    assert_eq!(Rd::new(&big).u16(), Err(DecodeError::U16Range));
}

#[test]
fn strings_are_kept_once() {
    let mut s = Strings::new();
    assert_eq!(s.idx("a"), 0);
    assert_eq!(s.idx("b"), 1);
    assert_eq!(s.idx("a"), 0);
    assert_eq!(s.list, vec!["a".to_string(), "b".to_string()]);
}

#[test]
fn sections_of_other_shapes_are_refused() {
    let (section, _) = encode_unit(&unit());
    assert!(parse_section(&section, 2).is_ok());
    let mut long = section.clone();
    long.push(0);
    assert!(parse_section(&long, 2).is_err());
    assert_eq!(parse_section(&[], 2).err(), Some(DecodeError::Truncated));
}

#[test]
fn verification_reports_what_differs() {
    let named = |attached: Option<Option<Chunk>>, fresh: Option<Chunk>| {
        vec![Verified { id: FnId(1), name: Some("f".to_string()), attached, fresh }]
    };
    match verify_unit(&named(Some(Some(f_chunk())), Some(g_chunk()))) {
        Err(Mismatch::Differs { index, name, attached, fresh }) => {
            assert_eq!((index, name.as_deref()), (0, Some("f")));
            assert_eq!(attached, f_chunk().ops);
            assert_eq!(fresh, g_chunk().ops);
        }
        other => panic!("{other:?}"),
    }
    match verify_unit(&named(Some(Some(f_chunk())), None)) {
        Err(Mismatch::AttachedOnly { index, name }) => {
            assert_eq!((index, name.as_deref()), (0, Some("f")));
        }
        other => panic!("{other:?}"),
    }
    match verify_unit(&named(Some(None), Some(f_chunk()))) {
        Err(Mismatch::FreshOnly { index, name }) => {
            assert_eq!((index, name.as_deref()), (0, Some("f")));
        }
        other => panic!("{other:?}"),
    }
}

#[test]
fn counters_count_and_reset() {
    let mut r = Registry::new();
    r.note_compile();
    r.note_compile();
    let (section, _) = encode_unit(&unit());
    attach_all(&mut r, section, 2);
    assert_eq!(r.counters(), (2, 2, 0, 0));
    r.reset_counters();
    assert_eq!(r.counters(), (0, 0, 0, 0));
}

#[test]
fn a_driver_lends_its_table() {
    let mut t = ThreadTable { own: 1, driver: None };
    assert_eq!(t.lazy_handle(), 1);
    assert_eq!(t.lazy_enter(Some(7)), None);
    assert_eq!(t.lazy_handle(), 7);
    assert_eq!(t.lazy_enter(None), Some(7));
    assert_eq!(t.lazy_handle(), 1);
}

#[test]
fn pointer_hashes_mix_their_bits() {
    let mut h = PtrHasher(0);
    h.write_usize(8);
    assert_eq!(h.finish(), 0x9e37_79b9_7f4a_7c15u64);
    let mut k = PtrHasher(0);
    k.write_usize(16);
    assert_ne!(h.finish(), k.finish());
}

#[test]
fn a_chunk_waits_for_its_inner_functions() {
    let funcs = vec![
        UnitFn { id: FnId(1), body: Some(Vec::new()), compiled: Some(rich_chunk()) },
        UnitFn { id: FnId(2), body: Some(Vec::new()), compiled: Some(g_chunk()) },
    ];
    let (section, _) = encode_unit(&funcs);
    let mut r = Registry::new();
    let u = r.attach_unit(section, 2).unwrap();
    let mut outer = FnState { code: None, calls: 0 };
    r.register(u, 0, FnId(1), &mut outer);
    assert_eq!(r.wanted(FnId(1)), vec![1]);
    assert!(r.take_precompiled(FnId(1)).is_none());
    r.attach_now(FnId(1), &mut outer);
    assert!(outer.code.is_none());
    assert_eq!((r.lazy_registered(), r.counters()), (1, (0, 1, 0, 0)));
    let mut inner = FnState { code: None, calls: 0 };
    r.register(u, 1, FnId(7), &mut inner);
    assert!(r.wanted(FnId(1)).is_empty());
    r.attach_now(FnId(1), &mut outer);
    assert_eq!(outer.code.unwrap().unwrap().funcs, vec![FnId(7)]);
    assert_eq!((r.lazy_registered(), r.counters()), (1, (0, 2, 1, 0)));
    assert!(r.wanted(FnId(9)).is_empty());
}

#[test]
fn chunk_bytes_add_up() {
    let none = Room { cap: 0, item: 8 };
    let mut c = chunk(vec![Op::LoadThis; 10]);
    c.consts = vec![Value::Null, Value::Undefined];
    c.positions = vec![1, 2, 3, 4, 5];
    c.caches = 3;
    let u = ChunkRoom {
        chunk: 400,
        word: 8,
        ops: Room { cap: 10, item: 12 },
        consts: Room { cap: 4, item: 16 },
        names: none,
        slot_names: none,
        var_force_resets: none,
        funcs: none,
        classes: none,
        cap_inits: Room { cap: 1, item: 10 },
        caches: Room { cap: 3, item: 8 },
        obj_maps: none,
        name_caches: none,
        name_paths: none,
        name_pins: none,
        cap_caches: none,
        cap_pins: none,
        switch_tables: Room { cap: 2, item: 50 },
    };
    let b = c.mem_bytes(&u);
    assert_eq!(b.header, 416);
    assert_eq!(b.ops, 120);
    assert_eq!(b.pools, 64 + 10);
    assert_eq!(b.ics, 24 + 100);
    assert_eq!(b.positions, 5);
    assert_eq!(b.slack, 32 + 10 + 100);
    let mut sum = ChunkBytes::default();
    sum.add(&b);
    sum.add(&b);
    assert_eq!(sum.total(), 2 * b.total());
}

#[test]
fn functions_are_found_where_they_stand_last() {
    let u = UnitIndex::new(&vec![FnId(4), FnId(9), FnId(4)]);
    assert_eq!(u.index(FnId(4)), Some(2));
    assert_eq!(u.index(FnId(9)), Some(1));
    assert_eq!(u.index(FnId(5)), None);
}
