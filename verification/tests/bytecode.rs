//! The compiler's decisions, positions, dispatch tables and registers.

use lumen::ast::{ArrayElem, Expr, HoistOp, NO_POS};
use lumen::bytecode::chunk::FnId;
use lumen::bytecode::compiler::{Bail, Compiler, LoopCx};
use lumen::bytecode::name_path::{global_store, GlobalView, NamePath, NamePaths};
use lumen::bytecode::op::{CmpKind, Op, Operand, OperandTy, OperandTys, Operands, UpdKind, OP_COUNT};
use lumen::bytecode::op::{operand_tys, ArithKind, TypeofKind};
use lumen::bytecode::parameters::{captured_default_safe, default_expr_safe, rest_unused};
use lumen::bytecode::positions::{encode, lookup};
use lumen::bytecode::self_tail::{LogicalOp, TailExpr};
use lumen::bytecode::switch_table::{chain_at, switch_pass, SwitchTable};
use lumen::bytecode::vm_regs::{
    bool_words, clone_fast, num_words, read_words, set_num, set_slot, write_bool, write_num,
    write_tag, PcReg, VmStack,
};
use lumen::interpreter::callee_text::describe_callee_text;
use lumen::interpreter::scope::{Binding, Scopes, VarMap};
use lumen::object::{Property, Props};
use lumen::value::Value;

fn num(x: f64) -> Value {
    Value::Num(x.to_bits())
}

fn is_num(v: &Value, x: f64) -> bool {
    matches!(v, Value::Num(b) if f64::from_bits(*b) == x)
}

fn compiler() -> Compiler {
    Compiler {
        ops: Vec::new(),
        tail_calls: true,
        strict: true,
        generator: false,
        derived: false,
        try_depth: 0,
        finallys: 0,
        loops: Vec::new(),
    }
}

#[test]
fn captured_literal_default_initializes_its_binding() {
    // function f(x={}) { return () => x; }
    let default = Expr::Object(Vec::new());
    assert!(default_expr_safe(&default, &Vec::new()));
    assert!(captured_default_safe(&Vec::new(), "x"));
    let mut c = compiler();
    c.parameter_default(0, &vec![Op::NewObject], Some(3));
    assert!(c.ops.iter().any(|op| matches!(op, Op::StoreCap(_))));
    assert_eq!(
        c.ops,
        vec![
            Op::LoadLocal(0),
            Op::Undef,
            Op::StrictEq,
            Op::JumpIfFalse(6),
            Op::NewObject,
            Op::StoreCap(3),
        ]
    );
}

#[test]
fn closure_defaults_or_hoist_conflicts_stay_in_the_oracle() {
    // function f(x=make()) { return () => x; }
    let call = Expr::Call {
        callee: Box::new(Expr::Ident("make".to_string())),
        args: Vec::new(),
        pos: 13,
    };
    assert!(default_expr_safe(&call, &vec!["x".to_string()]) && captured_default_safe(&Vec::new(), "x"));
    // function f(x={}) { function x() {} return () => x; }
    let hoists = vec![HoistOp::Fn("x".to_string(), FnId(1))];
    assert!(!captured_default_safe(&hoists, "x"));
    // function f(x=()=>1) { return () => x; }
    assert!(!default_expr_safe(&Expr::Func(FnId(2)), &vec!["x".to_string()]));
}

#[test]
fn hoisted_vars_and_other_names_do_not_conflict() {
    let hoists = vec![
        HoistOp::Var("x".to_string()),
        HoistOp::Fn("y".to_string(), FnId(1)),
        HoistOp::AnnexB("z".to_string(), FnId(2)),
    ];
    assert!(captured_default_safe(&hoists, "x"));
    assert!(!captured_default_safe(&hoists, "y"));
    assert!(!captured_default_safe(&hoists, "z"));
}

#[test]
fn defaults_that_name_a_banned_binding_are_unsafe() {
    let banned = vec!["y".to_string()];
    assert!(!default_expr_safe(&Expr::Ident("y".to_string()), &banned));
    assert!(default_expr_safe(&Expr::Ident("z".to_string()), &banned));
    let array = Expr::Array(vec![ArrayElem::Item(Expr::Num(0)), ArrayElem::Hole]);
    assert!(default_expr_safe(&array, &banned));
}

#[test]
fn unused_rest_parameters_are_found_by_their_text() {
    assert!(rest_unused(Some("function f(a, ...rest) { return a; }"), "rest"));
    assert!(!rest_unused(Some("function f(a, ...rest) { return rest; }"), "rest"));
    assert!(rest_unused(Some("function f(...r) { return rest; }"), "r"));
    assert!(!rest_unused(Some("function f(...r) { eval('1'); }"), "r"));
    assert!(!rest_unused(Some("function f(...r) { '\\u0072'; }"), "r"));
    assert!(!rest_unused(None, "r"));
    // A letter beyond ASCII continues a name.
    assert!(rest_unused(Some("function f(...r) { ré; }"), "r"));
    // The empty name occurs before every character and at the end.
    assert!(rest_unused(Some(""), "") && !rest_unused(Some("a"), ""));
    assert!(!rest_unused(Some("()"), ""));
    assert!(rest_unused(Some("a "), ""));
}

#[test]
fn positions_round_trip_by_call_site_order() {
    let ops = [
        Op::Undef,
        Op::Call(0),
        Op::Pop,
        Op::New(1),
        Op::CallWithThis(2),
        Op::TailCall(0, false),
    ];
    let t = encode(&ops, &[40, NO_POS, 7, 1_000_000]);
    assert_eq!(lookup(&ops, &t, 1), 40);
    assert_eq!(lookup(&ops, &t, 3), NO_POS);
    assert_eq!(lookup(&ops, &t, 4), 7);
    assert_eq!(lookup(&ops, &t, 5), 1_000_000);
    assert_eq!(lookup(&ops, &t, 0), NO_POS);
    assert_eq!(lookup(&ops, &t, 99), NO_POS);
    // A count mismatch or no positions at all: no table.
    assert!(encode(&ops, &[1, 2]).is_empty());
    assert!(encode(&ops, &[NO_POS; 4]).is_empty());
}

/// The byte offset of the `n`-th `needle`.
fn nth(src: &str, needle: &str, n: usize) -> u32 {
    src.match_indices(needle).nth(n).unwrap().0 as u32
}

#[test]
fn not_a_function_names_the_callee_like_the_tree_walker() {
    let calls: Vec<(&str, &str, usize)> = vec![
        ("() => { x(); }", "x(", 0),
        ("function () { 'use strict'; return x(); }", "x(", 0),
        ("() => { o.p(); }", "p(", 0),
        ("() => { arr[0](); }", "()", 1),
        ("() => { (x)(); }", "()", 1),
        ("() => { (o.p)(); }", "()", 1),
        ("() => { g(x)(); }", "()", 1),
        ("() => { (0, x)(); }", "()", 1),
        ("() => { o.p?.(); }", "()", 1),
        ("() => { x?.(); }", "()", 1),
        ("() => { x(...arr); }", "x(", 0),
        ("() => { o.p(...arr); }", "p(", 0),
        ("function () { 'use strict'; return o.p(...arr); }", "p(", 0),
    ];
    let (x, p, e) = ("x", "(intermediate value).p", "expression");
    let want = [x, x, p, e, x, p, e, e, p, x, x, p, p]
        .map(|d| format!("{d} is not a function"))
        .join("|");
    let got: Vec<String> = calls
        .iter()
        .map(|(src, needle, n)| {
            let d = describe_callee_text(src, nth(src, needle, *n)).unwrap();
            format!("{d} is not a function")
        })
        .collect();
    assert_eq!(got.join("|"), want);
}

#[test]
fn positions_without_a_call_describe_nothing() {
    assert_eq!(describe_callee_text("x + y", 0), None);
    assert_eq!(describe_callee_text("x()", NO_POS), None);
    assert_eq!(describe_callee_text("x()", 40), None);
}

fn some_operand(t: OperandTy) -> Operand {
    match t {
        OperandTy::U32 => Operand::U32(7),
        OperandTy::U16 => Operand::U16(7),
        OperandTy::U8 => Operand::U8(7),
        OperandTy::Bool => Operand::Bool(true),
        OperandTy::Upd => Operand::Upd(UpdKind::PostDec),
        OperandTy::Typeof => Operand::Typeof(TypeofKind::Symbol),
        OperandTy::Arith => Operand::Arith(ArithKind::UShr),
        OperandTy::Cmp => Operand::Cmp(CmpKind::StrictNotEq),
    }
}

fn some_op(tag: u8) -> Op {
    let o = match operand_tys(tag) {
        OperandTys::Zero => Operands::Zero,
        OperandTys::One(a) => Operands::One(some_operand(a)),
        OperandTys::Two(a, b) => Operands::Two(some_operand(a), some_operand(b)),
        OperandTys::Three(a, b, c) => {
            Operands::Three(some_operand(a), some_operand(b), some_operand(c))
        }
        OperandTys::Four(a, b, c, d) => {
            Operands::Four(some_operand(a), some_operand(b), some_operand(c), some_operand(d))
        }
    };
    Op::from_parts(tag, o)
}

#[test]
fn op_tags_are_distinct_and_dense() {
    let mut seen = [false; 256];
    for i in 0..OP_COUNT {
        let (t, _) = some_op(i).parts();
        assert!(!seen[t as usize], "op tag {t} used twice");
        seen[t as usize] = true;
        assert_eq!(t, i, "op tags should be dense and in table order");
    }
}

#[test]
fn ops_are_their_parts() {
    let op = Op::JumpIfNotCmpLK(CmpKind::StrictEq, 1, 2, 3);
    let (tag, parts) = op.parts();
    assert_eq!(Op::from_parts(tag, parts), op);
    assert_eq!(
        parts,
        Operands::Four(
            Operand::Cmp(CmpKind::StrictEq),
            Operand::U16(1),
            Operand::U32(2),
            Operand::U32(3),
        )
    );
}

#[test]
fn tail_expressions_return_on_every_path() {
    // return t ? f() : g()
    let e = TailExpr::Cond {
        test: vec![Op::LoadLocal(0), Op::JumpIfFalse(0)],
        jump: 1,
        cons: Box::new(TailExpr::Call(vec![Op::LoadLocal(1), Op::Call(0)])),
        alt: Box::new(TailExpr::Call(vec![Op::LoadLocal(2), Op::Call(0)])),
    };
    let mut c = compiler();
    let call = || Expr::Call { callee: Box::new(Expr::Other), args: Vec::new(), pos: NO_POS };
    let x = Expr::Cond {
        test: Box::new(Expr::Other),
        cons: Box::new(call()),
        alt: Box::new(call()),
    };
    assert_eq!(c.tail_return(&x, &e), Ok(()));
    assert_eq!(
        c.ops,
        vec![
            Op::LoadLocal(0),
            Op::JumpIfFalse(5),
            Op::LoadLocal(1),
            Op::TailCall(0, false),
            Op::Return,
            Op::LoadLocal(2),
            Op::TailCall(0, false),
            Op::Return,
        ]
    );
}

#[test]
fn unknown_operators_are_refused_in_tail_position() {
    let e = TailExpr::Logical {
        op: LogicalOp::Unknown,
        left: vec![Op::LoadLocal(0)],
        right: Box::new(TailExpr::Other(vec![Op::LoadLocal(1)])),
    };
    let x = Expr::Logical {
        op: "^^".to_string(),
        left: Box::new(Expr::Other),
        right: Box::new(Expr::Other),
    };
    let mut c = compiler();
    assert_eq!(c.tail_return(&x, &e), Err(Bail));
    assert_eq!(c.ops, vec![Op::LoadLocal(0)]);
}

#[test]
fn tail_positions_need_strict_code_outside_try_and_for_of() {
    let mut c = compiler();
    assert!(c.tail_position());
    c.try_depth = 1;
    assert!(!c.tail_position());
    c.try_depth = 0;
    c.strict = false;
    assert!(!c.tail_position());
    c.strict = true;
    c.loops.push(LoopCx { foreach_iter: None });
    assert!(c.tail_position());
    c.loops.push(LoopCx { foreach_iter: Some(4) });
    assert!(!c.tail_position());
}

/// A switch on local 0 with four number cases, each jumping to its body.
fn four_cases() -> (Vec<Op>, Vec<Value>) {
    let mut ops = Vec::new();
    let n: u32 = 4;
    for k in 0..n {
        ops.push(Op::JumpIfNotCmpLK(CmpKind::StrictEq, 0, k, 2 * k + 2));
        ops.push(Op::Jump(100 + k));
    }
    ops.push(Op::ReturnUndef);
    (ops, vec![num(1.0), num(2.0), num(-0.0), Value::Str("s".to_string())])
}

#[test]
fn switch_tables_jump_as_the_chain_does() {
    let (ops, consts) = four_cases();
    assert_eq!(chain_at(&ops, 0), Some((0, 4)));
    assert_eq!(chain_at(&ops, 1), None);
    let t = SwitchTable::build(&ops, 0, 0, &consts);
    assert_eq!(t.target(&num(1.0)), Some(100));
    assert_eq!(t.target(&num(2.0)), Some(101));
    assert_eq!(t.target(&num(0.0)), Some(102));
    assert_eq!(t.target(&Value::Str("s".to_string())), Some(103));
    assert_eq!(t.target(&num(3.0)), Some(8));
    assert_eq!(t.target(&num(f64::NAN)), Some(8));
    // A constant of another kind ends what is covered: no later one is looked at.
    let t = SwitchTable::build(&ops, 0, 0, &vec![num(1.0), Value::Null]);
    assert_eq!(t.target(&num(1.0)), Some(100));
    assert_eq!(t.target(&num(2.0)), Some(2));
    assert_eq!(SwitchTable::build(&ops, 50, 0, &consts).target(&num(1.0)), Some(50));
}

#[test]
fn the_switch_pass_puts_a_table_in_front_of_each_chain() {
    let mut ops = Vec::new();
    for k in 0..4u32 {
        ops.push(Op::JumpIfNotCmpLK(CmpKind::StrictEq, 0, k, 2 * k + 2));
        ops.push(Op::Jump(8));
    }
    ops.push(Op::ReturnUndef);
    let before = ops.len();
    assert_eq!(switch_pass(&mut ops), 1);
    assert_eq!(ops.len(), before + 1);
    assert!(matches!(ops[0], Op::SwitchLK(0, _)));
    assert_eq!(ops[1], Op::JumpIfNotCmpLK(CmpKind::StrictEq, 0, 0, 3));
    let mut plain = vec![Op::Undef, Op::Return];
    assert_eq!(switch_pass(&mut plain), 0);
    assert_eq!(plain, vec![Op::Undef, Op::Return]);
    let mut far = vec![Op::Jump(70), Op::Return];
    assert_eq!(switch_pass(&mut far), 0);
    assert_eq!(far, vec![Op::Jump(70), Op::Return]);
}

#[test]
fn full_width_writes_match_the_enum() {
    let mut v = write_num((2.5f64).to_bits());
    assert!(is_num(&v, 2.5));
    set_slot(&mut v, write_bool(true));
    assert!(matches!(v, Value::Bool(true)));
    set_slot(&mut v, write_bool(false));
    assert!(matches!(v, Value::Bool(false)));
    let mut s = Value::Str("x".to_string());
    set_num(&mut s, (-1.0f64).to_bits());
    assert!(is_num(&s, -1.0));
}

#[test]
fn words_read_back() {
    assert!(matches!(read_words(num_words((1.5f64).to_bits())), Some(Value::Num(b)) if f64::from_bits(b) == 1.5));
    assert!(matches!(read_words(bool_words(true)), Some(Value::Bool(true))));
    assert!(matches!(write_tag(0), Value::Undefined));
    assert!(matches!(write_tag(1), Value::Empty));
    assert!(matches!(write_tag(2), Value::Null));
    assert!(matches!(clone_fast(&Value::Obj(7)), Value::Obj(7)));
}

#[test]
fn stack_view_round_trips() {
    let vec: Vec<Value> = vec![num(1.0)];
    let mut s = VmStack::new(vec);
    for k in 0..100 {
        s.push_num((k as f64).to_bits());
    }
    s.push(Value::Str("a".to_string()));
    assert_eq!(s.len(), 102);
    assert!(matches!(s.pop(), Some(Value::Str(_))));
    s.truncate(50);
    assert!(is_num(s.get(49), 48.0));
    let tail = s.split_off(40);
    assert_eq!(tail.len(), 10);
    assert_eq!(s.len(), 40);
    let vec = s.into_vec();
    assert_eq!(vec.len(), 40);
}

#[test]
fn a_push_is_undone_by_a_pop() {
    let mut s = VmStack::new(Vec::new());
    assert!(s.pop().is_none());
    s.push_bool(true);
    s.push(Value::Null);
    assert!(matches!(s.last(), Some(Value::Null)));
    assert!(matches!(s.peek(1), Value::Bool(true)));
    assert!(matches!(s.pop_val(), Value::Null));
    assert_eq!(s.len(), 1);
    s.push_tag(2);
    assert!(matches!(s.last(), Some(Value::Null)));
    s.replace(0, Value::Undefined);
    s.discard();
    assert!(matches!(s.pop(), Some(Value::Undefined)));
    let mut pc: usize = 3;
    PcReg::new(9).write_back(&mut pc);
    assert_eq!(pc, 9);
}

fn global(shape: u32, entries: Vec<(&str, Property)>) -> GlobalView {
    let mut props = Props::new();
    for (k, p) in entries {
        props.insert(k, p);
    }
    GlobalView { env: 0, object: 77, ordinary: true, exotic: false, shape, props }
}

fn scopes_with_global() -> Scopes {
    let mut s = Scopes::new();
    let g = s.add_scope(None, VarMap::new());
    assert_eq!(g, 0);
    s
}

#[test]
fn paths_follow_live_values_and_reject_shadowing_and_different_ancestors() {
    let g = global(1, Vec::new());
    let mut scopes = scopes_with_global();
    let mut vars = VarMap::new();
    vars.insert("x", Binding::data(num(7.0), true, true));
    let parent = scopes.add_scope(Some(0), vars);
    let names = vec!["local".to_string()];
    let first = scopes.add_scope(Some(parent), VarMap::from_layout(5, &names));
    let (path, value) = NamePath::build(&scopes, &g, first, "x").unwrap();
    assert!(is_num(&value, 7.0));
    let second = scopes.add_scope(Some(parent), VarMap::from_layout(5, &names));
    scopes.set_value(parent, 0, num(9.0));
    assert!(is_num(&path.read(&scopes, &g, second).unwrap(), 9.0));
    let mut vars = VarMap::new();
    vars.insert("x", Binding::data(num(11.0), true, true));
    let other = scopes.add_scope(Some(0), vars);
    let third = scopes.add_scope(Some(other), VarMap::from_layout(5, &names));
    assert!(path.read(&scopes, &g, third).is_none());
    scopes.scopes[second as usize].vars.insert("x", Binding::data(num(13.0), true, true));
    assert!(path.read(&scopes, &g, second).is_none());
    scopes.scopes[parent as usize].vars.remove("x");
    assert!(path.read(&scopes, &g, first).is_none());
}

#[test]
fn layout_holders_read_the_current_activation_and_tdz_flag() {
    let g = global(1, Vec::new());
    let mut scopes = scopes_with_global();
    let xs = vec!["x".to_string()];
    let locals = vec!["local".to_string()];
    let parent = scopes.add_scope(Some(0), VarMap::from_layout(8, &xs));
    let child = scopes.add_scope(Some(parent), VarMap::from_layout(9, &locals));
    let (path, _) = NamePath::build(&scopes, &g, child, "x").unwrap();
    let fresh = scopes.add_scope(Some(0), VarMap::from_layout(8, &xs));
    scopes.set_value(fresh, 0, num(17.0));
    let reader = scopes.add_scope(Some(fresh), VarMap::from_layout(9, &locals));
    assert!(is_num(&path.read(&scopes, &g, reader).unwrap(), 17.0));
    scopes.scopes[fresh as usize].vars.vars[0].binding.initialized = false;
    assert!(path.read(&scopes, &g, reader).is_none());
    assert!(NamePath::build(&scopes, &g, reader, "x").is_none());
}

#[test]
fn global_paths_reject_accessors_deletion_and_other_realms() {
    let mut g = global(4, vec![("pathValue", Property::plain(num(3.0)))]);
    let mut scopes = scopes_with_global();
    let env = scopes.add_scope(Some(0), VarMap::new());
    let (path, _) = NamePath::build(&scopes, &g, env, "pathValue").unwrap();
    g.props.insert("pathValue", Property::plain(num(5.0)));
    assert!(is_num(&path.read(&scopes, &g, env).unwrap(), 5.0));
    let mut other = global(4, vec![("pathValue", Property::plain(num(5.0)))]);
    other.object = 78;
    assert!(path.read(&scopes, &other, env).is_none());
    g.props.insert("pathValue", Property::accessor_prop(Some(Value::Obj(9)), None, false, true));
    assert!(path.read(&scopes, &g, env).is_none());
    assert!(NamePath::build(&scopes, &g, env, "pathValue").is_none());
    g.props.remove("pathValue");
    g.shape = 5;
    assert!(path.read(&scopes, &g, env).is_none());
}

#[test]
fn stores_through_a_path_read_back() {
    let mut g = global(4, vec![("n", Property::plain(num(3.0)))]);
    let mut scopes = scopes_with_global();
    let env = scopes.add_scope(Some(0), VarMap::new());
    let mut paths = NamePaths { paths: vec![None] };
    assert!(paths.name_path_hit(&scopes, &g, env, 0).is_none());
    assert!(is_num(&paths.name_path_fill(&scopes, &g, env, "n", 0).unwrap(), 3.0));
    assert!(paths.name_path_store(&mut scopes, &mut g, env, 0, num(4.0)).is_ok());
    assert!(is_num(&paths.name_path_hit(&scopes, &g, env, 0).unwrap(), 4.0));
    assert!(global_store(&mut g, 0, num(6.0)).is_ok());
    assert!(is_num(&paths.name_path_hit(&scopes, &g, env, 0).unwrap(), 6.0));
    assert_eq!(paths.name_path_kind(0), Some(true));
    assert_eq!(paths.name_path_global(&scopes, &g, env, 0), Some(0));
    assert_eq!(paths.name_path_binding(&scopes, env, 0, false), None);
    assert_eq!(paths.name_path_obj_ptr(&scopes, &g, env, 0), None);
    g.props.insert("n", Property::plain(Value::Obj(31)));
    assert_eq!(paths.name_path_obj_ptr(&scopes, &g, env, 0), Some(31));
    assert_eq!(paths.name_path_kind(1), None);
}

#[test]
fn paths_to_bindings_are_written_only_where_they_are_mutable() {
    let mut g = global(4, Vec::new());
    let mut scopes = scopes_with_global();
    let mut vars = VarMap::new();
    vars.insert("v", Binding::data(Value::Obj(8), true, true));
    vars.insert("c", Binding::data(num(1.0), false, true));
    let outer = scopes.add_scope(Some(0), vars);
    let env = scopes.add_scope(Some(outer), VarMap::new());
    let mut paths = NamePaths { paths: vec![None, None] };
    assert!(paths.name_path_fill(&scopes, &g, env, "v", 0).is_some());
    assert!(paths.name_path_fill(&scopes, &g, env, "c", 1).is_some());
    assert_eq!(paths.name_path_kind(0), Some(false));
    assert_eq!(paths.name_path_binding(&scopes, env, 0, true), Some((outer, 0)));
    assert_eq!(paths.name_path_binding(&scopes, env, 1, false), Some((outer, 1)));
    assert_eq!(paths.name_path_binding(&scopes, env, 1, true), None);
    assert_eq!(paths.name_path_obj_ptr(&scopes, &g, env, 0), Some(8));
    let (path, _) = NamePath::build(&scopes, &g, env, "v").unwrap();
    assert_eq!(path.read_obj_ptr(&scopes, &g, env), Some(8));
    let r = paths.name_path_store(&mut scopes, &mut g, env, 1, num(2.0));
    assert!(matches!(r, Err(v) if is_num(&v, 2.0)));
}
