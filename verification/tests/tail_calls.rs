//! Proper tail calls: the compiled returns run in constant space.

use lumen::ast::{Expr, NO_POS};
use lumen::bytecode::compiler::Compiler;
use lumen::bytecode::op::Op;
use lumen::bytecode::self_tail::{tail_kind, LogicalOp, TailExpr, TailKind};

#[derive(Clone, Debug, PartialEq)]
enum Val {
    Undefined,
    Null,
    Bool(bool),
    Num(f64),
    Str(&'static str),
    Fun(usize),
    /// An object with the one method, which is called by its only name.
    Obj(usize),
    Arr(Vec<Val>),
}

impl Val {
    fn truthy(&self) -> bool {
        !matches!(self, Val::Undefined | Val::Null | Val::Bool(false))
    }

    fn text(&self) -> String {
        match self {
            Val::Bool(b) => b.to_string(),
            Val::Num(n) => n.to_string(),
            Val::Str(s) => s.to_string(),
            Val::Undefined => "undefined".to_string(),
            _ => "object".to_string(),
        }
    }
}

/// A strict function's code; its first locals are its parameters.
struct Fun {
    ops: Vec<Op>,
    locals: usize,
}

/// The functions, and what names and constants mean.
struct World {
    funs: Vec<Fun>,
    names: Vec<Val>,
    consts: Vec<Val>,
    depth: usize,
    deepest: usize,
}

const ZERO: u32 = 0;
const ONE: u32 = 1;

/// The native `String`.
const STRING: usize = 1000;

impl World {
    /// `new f()`: a result that is no object gives the instance.
    fn construct(&mut self, f: usize) -> Val {
        let made = self.call(f, Val::Obj(f), Vec::new(), true);
        if matches!(made, Val::Obj(_) | Val::Fun(_) | Val::Arr(_)) {
            made
        } else {
            Val::Obj(f)
        }
    }

    fn call(&mut self, f: usize, this: Val, args: Vec<Val>, new_target: bool) -> Val {
        self.depth += 1;
        self.deepest = self.deepest.max(self.depth);
        let r = self.run(f, this, args, new_target);
        self.depth -= 1;
        r
    }

    fn run(&mut self, f: usize, this: Val, args: Vec<Val>, new_target: bool) -> Val {
        let (mut f, mut this, mut args, mut new_target) = (f, this, args, new_target);
        'frame: loop {
            if f == STRING {
                return match &args[0] {
                    Val::Undefined => Val::Str("undefined"),
                    other => panic!("no text of {other:?}"),
                };
            }
            let mut locals = args.clone();
            locals.resize(self.funs[f].locals, Val::Undefined);
            let mut stack: Vec<Val> = Vec::new();
            let mut handler: Option<usize> = None;
            let mut pc = 0;
            loop {
                let op = self.funs[f].ops[pc];
                pc += 1;
                match op {
                    Op::Const(k) => stack.push(self.consts[k as usize].clone()),
                    Op::Undef => stack.push(Val::Undefined),
                    Op::Pop => {
                        stack.pop();
                    }
                    Op::LoadLocal(k) => stack.push(locals[k as usize].clone()),
                    Op::StoreLocal(k) => locals[k as usize] = stack.pop().unwrap(),
                    Op::LoadName(k, _) => stack.push(self.names[k as usize].clone()),
                    Op::LoadThis => stack.push(this.clone()),
                    Op::LoadNewTarget => {
                        stack.push(if new_target { Val::Fun(f) } else { Val::Undefined });
                    }
                    Op::ArgsLen(..) => stack.push(Val::Num(args.len() as f64)),
                    Op::GetMethod(..) => match stack.last() {
                        Some(Val::Obj(m)) => {
                            let m = *m;
                            stack.push(Val::Fun(m));
                        }
                        other => panic!("no method of {other:?}"),
                    },
                    Op::Sub | Op::Add => {
                        let (b, a) = (stack.pop().unwrap(), stack.pop().unwrap());
                        match (a, b) {
                            (Val::Num(a), Val::Num(b)) => {
                                stack.push(Val::Num(if op == Op::Sub { a - b } else { a + b }));
                            }
                            other => panic!("no difference of {other:?}"),
                        }
                    }
                    Op::StrictEq | Op::StrictNotEq => {
                        let (b, a) = (stack.pop().unwrap(), stack.pop().unwrap());
                        stack.push(Val::Bool((a == b) == (op == Op::StrictEq)));
                    }
                    Op::Jump(t) => pc = t as usize,
                    Op::JumpIfFalse(t) => {
                        if !stack.pop().unwrap().truthy() {
                            pc = t as usize;
                        }
                    }
                    Op::JumpIfFalsePeek(t) => {
                        if !stack.last().unwrap().truthy() {
                            pc = t as usize;
                        }
                    }
                    Op::JumpIfTruePeek(t) => {
                        if stack.last().unwrap().truthy() {
                            pc = t as usize;
                        }
                    }
                    Op::JumpIfNotNullishPeek(t) => {
                        if !matches!(stack.last().unwrap(), Val::Null | Val::Undefined) {
                            pc = t as usize;
                        }
                    }
                    Op::NewArrayLit => stack.push(Val::Arr(Vec::new())),
                    Op::ArrayAppend => {
                        let v = stack.pop().unwrap();
                        if let Some(Val::Arr(a)) = stack.last_mut() {
                            a.push(v);
                        }
                    }
                    Op::PushHandler(t) => handler = Some(t as usize),
                    Op::Throw => {
                        let v = stack.pop().unwrap();
                        pc = handler.take().expect("a handler");
                        stack.push(v);
                    }
                    Op::Call(n) => {
                        let (g, _, given) = callee(&mut stack, n as usize, false);
                        let v = self.call(g, Val::Undefined, given, false);
                        stack.push(v);
                    }
                    Op::TailCall(n, with_this) => {
                        let (g, t, given) = callee(&mut stack, n as usize, with_this);
                        (f, this, args, new_target) = (g, t, given, false);
                        continue 'frame;
                    }
                    Op::TailCallSpread(_, with_this) => {
                        let given = match stack.pop() {
                            Some(Val::Arr(a)) => a,
                            other => panic!("no arguments in {other:?}"),
                        };
                        let (g, t, _) = callee(&mut stack, 0, with_this);
                        (f, this, args, new_target) = (g, t, given, false);
                        continue 'frame;
                    }
                    Op::Return => return stack.pop().unwrap(),
                    other => panic!("no such op here: {other:?}"),
                }
            }
        }
    }
}

/// Pops `n` arguments, the callee and the receiver.
fn callee(stack: &mut Vec<Val>, n: usize, with_this: bool) -> (usize, Val, Vec<Val>) {
    let args = stack.split_off(stack.len() - n);
    let f = match stack.pop() {
        Some(Val::Fun(f)) => f,
        other => panic!("not a function: {other:?}"),
    };
    let this = if with_this { stack.pop().unwrap() } else { Val::Undefined };
    (f, this, args)
}

fn strict() -> Compiler {
    Compiler {
        ops: Vec::new(),
        tail_calls: true,
        strict: true,
        generator: false,
        derived: false,
        try_depth: 0,
        finallys: 0,
        loops: Vec::new(),
    }
}

/// An expression with the tail positions of a shape.
fn source(t: &TailExpr) -> Expr {
    let call = || Expr::Call { callee: Box::new(Expr::Other), args: Vec::new(), pos: NO_POS };
    match t {
        TailExpr::Paren(x) => Expr::Paren(Box::new(source(x))),
        TailExpr::Cond { cons, alt, .. } => Expr::Cond {
            test: Box::new(Expr::Other),
            cons: Box::new(source(cons)),
            alt: Box::new(source(alt)),
        },
        TailExpr::Sequence { init, last } => {
            let mut items: Vec<Expr> = init.iter().map(|_| Expr::Other).collect();
            items.push(source(last));
            Expr::Sequence(items)
        }
        TailExpr::Logical { op, right, .. } => Expr::Logical {
            op: match op {
                LogicalOp::And => "&&",
                LogicalOp::Or => "||",
                LogicalOp::Nullish => "??",
                LogicalOp::Unknown => "^^",
            }
            .to_string(),
            left: Box::new(Expr::Other),
            right: Box::new(source(right)),
        },
        TailExpr::Call(_) => call(),
        TailExpr::OptionalCall { .. } => Expr::OptionalChain(Box::new(call())),
        TailExpr::Other(_) => Expr::Other,
    }
}

/// A function whose body is these ops and then `return e`.
fn fun(locals: usize, before: Vec<Op>, e: TailExpr) -> Fun {
    let mut c = strict();
    c.ops = before;
    assert!(c.tail_position());
    assert_eq!(c.tail_return(&source(&e), &e), Ok(()));
    Fun { ops: c.ops, locals }
}

/// `local === 0 ? yes : no`.
fn at_zero(local: u16, yes: TailExpr, no: TailExpr) -> TailExpr {
    TailExpr::Cond {
        test: vec![Op::LoadLocal(local), Op::Const(ZERO), Op::StrictEq, Op::JumpIfFalse(0)],
        jump: 3,
        cons: Box::new(yes),
        alt: Box::new(no),
    }
}

fn text(k: u32) -> TailExpr {
    TailExpr::Other(vec![Op::Const(k)])
}

/// `name(local - 1)`.
fn again(name: u32, local: u16) -> TailExpr {
    let mut code = vec![Op::LoadName(name, 0)];
    code.extend(less_one(local));
    code.push(Op::Call(1));
    TailExpr::Call(code)
}

fn less_one(local: u16) -> Vec<Op> {
    vec![Op::LoadLocal(local), Op::Const(ONE), Op::Sub]
}

/// `receiver.method(local - 1)`.
fn method(receiver: Vec<Op>, local: u16) -> Vec<Op> {
    let mut code = receiver;
    code.push(Op::GetMethod(0, 0));
    code.extend(less_one(local));
    code.push(Op::CallWithThis(1));
    code
}

#[test]
fn proper_tail_calls_in_every_tail_position() {
    let texts = ["m", "a", "s", "nc", "opt", "sw", "cat", "fin", "sp", "cls"];
    let mut consts = vec![Val::Num(0.0), Val::Num(1.0), Val::Null, Val::Num(2.0)];
    let first_text = consts.len() as u32;
    consts.extend(texts.iter().map(|t| Val::Str(t)));
    let said = |t: &str| text(first_text + texts.iter().position(|x| *x == t).unwrap() as u32);
    let logical = |op: LogicalOp, left: Vec<Op>, right: TailExpr| TailExpr::Logical {
        op,
        left,
        right: Box::new(right),
    };
    let zero = |op: Op| vec![Op::LoadLocal(0), Op::Const(ZERO), op];
    // Each function is named by its index.
    let mut funs: Vec<Fun> = Vec::new();
    // function decl(n, acc) { return n === 0 ? acc : decl(n - 1, acc + 1); }
    let mut more = vec![Op::LoadName(0, 0)];
    more.extend(less_one(0));
    more.extend([Op::LoadLocal(1), Op::Const(ONE), Op::Add, Op::Call(2)]);
    let acc = TailExpr::Other(vec![Op::LoadLocal(1)]);
    funs.push(fun(2, Vec::new(), at_zero(0, acc, TailExpr::Call(more))));
    // function even(n) { return n === 0 || odd(n - 1); }
    funs.push(fun(1, Vec::new(), logical(LogicalOp::Or, zero(Op::StrictEq), again(2, 0))));
    // function odd(n) { return n !== 0 && even(n - 1); }
    funs.push(fun(1, Vec::new(), logical(LogicalOp::And, zero(Op::StrictNotEq), again(1, 0))));
    // m(n) { return n === 0 ? 'm' : this.m(n - 1); }
    let own = TailExpr::Call(method(vec![Op::LoadThis], 0));
    funs.push(fun(1, Vec::new(), at_zero(0, said("m"), own)));
    // (n) => n === 0 ? 'a' : arrow(n - 1)
    funs.push(fun(1, Vec::new(), at_zero(0, said("a"), again(4, 0))));
    // function seq(n) { return (0, n === 0 ? 's' : seq(n - 1)); }
    let seq = TailExpr::Paren(Box::new(TailExpr::Sequence {
        init: vec![vec![Op::Const(ZERO), Op::Pop]],
        last: Box::new(at_zero(0, said("s"), again(5, 0))),
    }));
    funs.push(fun(1, Vec::new(), seq));
    // function nc(n) { return n === 0 ? 'nc' : null ?? nc(n - 1); }
    let nullish = logical(LogicalOp::Nullish, vec![Op::Const(2)], again(6, 0));
    funs.push(fun(1, Vec::new(), at_zero(0, said("nc"), nullish)));
    // function opt(n) { return n === 0 ? 'opt' : o2?.f(n - 1); }
    let chain = vec![Op::LoadName(20, 0), Op::JumpIfNotNullishPeek(3), Op::Jump(0)];
    let chain = TailExpr::OptionalCall { code: method(chain, 0), shorts: vec![2] };
    funs.push(fun(1, Vec::new(), at_zero(0, said("opt"), chain)));
    // function sw(n) { switch (n) { case 0: return 'sw'; default: return sw(n - 1); } }
    let mut c = strict();
    c.ops = vec![Op::LoadLocal(0), Op::Const(ZERO), Op::StrictEq, Op::JumpIfFalse(6)];
    assert_eq!(c.tail_return(&source(&said("sw")), &said("sw")), Ok(()));
    assert_eq!(c.ops.len(), 6);
    assert_eq!(c.tail_return(&source(&again(8, 0)), &again(8, 0)), Ok(()));
    funs.push(Fun { ops: c.ops, locals: 1 });
    // function cat(n) { try { throw n; } catch (e) { return e === 0 ? 'cat' : cat(e - 1); } }
    let thrown = vec![Op::PushHandler(3), Op::LoadLocal(0), Op::Throw, Op::StoreLocal(1)];
    funs.push(fun(2, thrown, at_zero(1, said("cat"), again(9, 1))));
    // function fin(n) { try { } finally { return n === 0 ? 'fin' : fin(n - 1); } }
    funs.push(fun(1, Vec::new(), at_zero(0, said("fin"), again(10, 0))));
    // function few(a, b) { return a === 0 ? String(b) : few(a - 1); }
    let string = TailExpr::Call(vec![Op::LoadName(21, 0), Op::LoadLocal(1), Op::Call(1)]);
    funs.push(fun(2, Vec::new(), at_zero(0, string, again(11, 0))));
    // function many(n) { return n === 0 ? arguments.length : many(n - 1, 1, 2); }
    let mut three = vec![Op::LoadName(12, 0)];
    three.extend(less_one(0));
    three.extend([Op::Const(ONE), Op::Const(3), Op::Call(3)]);
    let length = TailExpr::Other(vec![Op::ArgsLen(0, 0)]);
    funs.push(fun(1, Vec::new(), at_zero(0, length, TailExpr::Call(three))));
    // function spread(n) { return n === 0 ? 'sp' : spread(...[n - 1]); }
    let mut spread = vec![Op::LoadName(13, 0), Op::NewArrayLit];
    spread.extend(less_one(0));
    spread.extend([Op::ArrayAppend, Op::CallSpread(0)]);
    funs.push(fun(1, Vec::new(), at_zero(0, said("sp"), TailExpr::Call(spread))));
    // class C { static s(n) { return n === 0 ? 'cls' : C.s(n - 1); } }
    let of_class = TailExpr::Call(method(vec![Op::LoadName(22, 0)], 0));
    funs.push(fun(1, Vec::new(), at_zero(0, said("cls"), of_class)));
    // function nt() { return new.target === undefined; }
    let target = TailExpr::Other(vec![Op::LoadNewTarget, Op::Undef, Op::StrictEq]);
    funs.push(fun(0, Vec::new(), target));
    // function Ctor() { return nt(); }
    let called = TailExpr::Call(vec![Op::LoadName(15, 0), Op::Call(0)]);
    funs.push(fun(0, Vec::new(), called));

    let mut names: Vec<Val> = (0..20).map(Val::Fun).collect();
    names.extend([Val::Obj(7), Val::Fun(STRING), Val::Obj(14)]);
    let mut w = World { funs, names, consts, depth: 0, deepest: 0 };
    let n = Val::Num(100000.0);
    let mut got: Vec<String> = Vec::new();
    for f in 0..15usize {
        let (this, args) = match f {
            0 => (Val::Undefined, vec![n.clone(), Val::Num(0.0)]),
            3 => (Val::Obj(3), vec![n.clone()]),
            11 => (Val::Undefined, vec![n.clone(), Val::Num(1.0)]),
            14 => (Val::Obj(14), vec![n.clone()]),
            _ => (Val::Undefined, vec![n.clone()]),
        };
        got.push(w.call(f, this, args, false).text());
    }
    got.push(w.construct(16).text());
    got.push(w.call(16, Val::Undefined, Vec::new(), false).text());
    let want = "100000,true,false,m,a,s,nc,opt,sw,cat,fin,undefined,3,sp,cls,object,true";
    assert_eq!(got.join(","), want);
    assert_eq!(w.deepest, 1);
}

#[test]
fn tail_positions_of_expressions() {
    let call = || Expr::Call { callee: Box::new(Expr::Other), args: Vec::new(), pos: NO_POS };
    let boxed = |e: Expr| Box::new(e);
    assert_eq!(tail_kind(&Expr::Paren(boxed(call()))), TailKind::Paren);
    assert_eq!(tail_kind(&Expr::Sequence(vec![Expr::Null, call()])), TailKind::Sequence);
    assert_eq!(tail_kind(&Expr::Sequence(Vec::new())), TailKind::Other);
    assert_eq!(tail_kind(&call()), TailKind::Call);
    assert_eq!(tail_kind(&Expr::OptionalChain(boxed(call()))), TailKind::OptionalCall);
    let member = Expr::Member { obj: boxed(Expr::This), prop: "p".to_string() };
    assert_eq!(tail_kind(&Expr::OptionalChain(boxed(member))), TailKind::Other);
    let made = Expr::New { callee: boxed(Expr::Other), args: Vec::new(), pos: NO_POS };
    assert_eq!(tail_kind(&made), TailKind::Other);
    let logical = |op: &str| Expr::Logical {
        op: op.to_string(),
        left: boxed(Expr::Null),
        right: boxed(call()),
    };
    assert_eq!(tail_kind(&logical("&&")), TailKind::Logical(LogicalOp::And));
    assert_eq!(tail_kind(&logical("||")), TailKind::Logical(LogicalOp::Or));
    assert_eq!(tail_kind(&logical("??")), TailKind::Logical(LogicalOp::Nullish));
    assert_eq!(tail_kind(&logical("^^")), TailKind::Logical(LogicalOp::Unknown));
    let cond = Expr::Cond { test: boxed(Expr::Null), cons: boxed(call()), alt: boxed(call()) };
    assert_eq!(tail_kind(&cond), TailKind::Cond);
}
