//! Proper tail calls.
//!
//! In a strict, non-async, non-generator function, every call in a tail position of a `return`
//! compiles to its tail-call op followed by `Return`: through `(…)`, the last operand of `,`,
//! both arms of `?:`, the right operand of `&&` / `||` / `??`, and an optional chain ending in a
//! call. Every other expression keeps ordinary calls. A `return` is a tail position unless code
//! of this frame runs after it.

use super::compiler::{code_fits, rebased, same_but_ops, Bail, Compiler, MAX_OPS};
use super::op::Op;
use super::switch_table::retarget;
use crate::ast::Expr;
use crate::text::same;
use vstd::prelude::*;

verus! {

/// What `return` is given, as tail position sees it: its shape, with the code of the parts that
/// are not in tail position (each compiled on its own).
pub enum TailExpr {
    Paren(Box<TailExpr>),
    /// `test` jumps at op `jump` when it is false.
    Cond { test: Vec<Op>, jump: usize, cons: Box<TailExpr>, alt: Box<TailExpr> },
    /// `a, b, …, last`: the operands before the last, as statements.
    Sequence { init: Vec<Vec<Op>>, last: Box<TailExpr> },
    Logical { op: LogicalOp, left: Vec<Op>, right: Box<TailExpr> },
    /// A call: its code ends in the call op.
    Call(Vec<Op>),
    /// An optional chain ending in a call; the ops at `shorts` leave it when it short-circuits.
    OptionalCall { code: Vec<Op>, shorts: Vec<usize> },
    Other(Vec<Op>),
}

#[derive(Clone, Copy, Debug, PartialEq, Eq, Structural)]
pub enum LogicalOp {
    And,
    Or,
    Nullish,
    /// One the compiler does not know.
    Unknown,
}

/// How an expression stands in tail position.
#[derive(Clone, Copy, Debug, PartialEq, Eq, Structural)]
pub enum TailKind {
    /// What stands in parentheses.
    Paren,
    /// Both arms of `?:`.
    Cond,
    /// The last operand of `,`.
    Sequence,
    /// The right operand of a logical operator.
    Logical(LogicalOp),
    Call,
    /// An optional chain ending in a call.
    OptionalCall,
    /// Nothing in it is in tail position.
    Other,
}

pub open spec fn logical_op(op: Seq<char>) -> LogicalOp {
    if op == "&&"@ {
        LogicalOp::And
    } else if op == "||"@ {
        LogicalOp::Or
    } else if op == "??"@ {
        LogicalOp::Nullish
    } else {
        LogicalOp::Unknown
    }
}

/// How an expression stands in tail position.
pub open spec fn kind_of(e: Expr) -> TailKind {
    match e {
        Expr::Paren(_) => TailKind::Paren,
        Expr::Cond { .. } => TailKind::Cond,
        Expr::Sequence(items) => if items@.len() > 0 {
            TailKind::Sequence
        } else {
            TailKind::Other
        },
        Expr::Logical { op, .. } => TailKind::Logical(logical_op(op@)),
        Expr::Call { .. } => TailKind::Call,
        Expr::OptionalChain(inner) => if *inner is Call {
            TailKind::OptionalCall
        } else {
            TailKind::Other
        },
        _ => TailKind::Other,
    }
}

/// How an expression stands in tail position: what of it is compiled as a `return` of its own,
/// and whether its call becomes a tail call.
pub fn tail_kind(e: &Expr) -> (r: TailKind)
    ensures
        r == kind_of(*e),
{
    match e {
        Expr::Paren(_) => TailKind::Paren,
        Expr::Cond { .. } => TailKind::Cond,
        Expr::Sequence(items) => if items.len() > 0 {
            TailKind::Sequence
        } else {
            TailKind::Other
        },
        Expr::Logical { op, .. } => TailKind::Logical(
            if same(op.as_str(), "&&") {
                LogicalOp::And
            } else if same(op.as_str(), "||") {
                LogicalOp::Or
            } else if same(op.as_str(), "??") {
                LogicalOp::Nullish
            } else {
                LogicalOp::Unknown
            },
        ),
        Expr::Call { .. } => TailKind::Call,
        Expr::OptionalChain(inner) => match **inner {
            Expr::Call { .. } => TailKind::OptionalCall,
            _ => TailKind::Other,
        },
        _ => TailKind::Other,
    }
}

/// The kind that a shape was made for.
pub open spec fn shape_kind(t: TailExpr) -> TailKind {
    match t {
        TailExpr::Paren(_) => TailKind::Paren,
        TailExpr::Cond { .. } => TailKind::Cond,
        TailExpr::Sequence { .. } => TailKind::Sequence,
        TailExpr::Logical { op, .. } => TailKind::Logical(op),
        TailExpr::Call(_) => TailKind::Call,
        TailExpr::OptionalCall { .. } => TailKind::OptionalCall,
        TailExpr::Other(_) => TailKind::Other,
    }
}

/// The shape is that of the expression: its tail positions are the expression's.
pub open spec fn shaped(e: Expr, t: TailExpr) -> bool
    decreases t,
{
    &&& shape_kind(t) == kind_of(e)
    &&& match (e, t) {
        (Expr::Paren(x), TailExpr::Paren(y)) => shaped(*x, *y),
        (Expr::Cond { cons, alt, .. }, TailExpr::Cond { cons: c, alt: a, .. }) => shaped(*cons, *c)
            && shaped(*alt, *a),
        (Expr::Sequence(items), TailExpr::Sequence { init, last }) => init@.len() == items@.len()
            - 1 && shaped(items@.last(), *last),
        (Expr::Logical { right, .. }, TailExpr::Logical { right: r, .. }) => shaped(*right, *r),
        _ => true,
    }
}

/// A call op's tail-call form.
pub open spec fn tail_form(op: Op) -> Op {
    match op {
        Op::Call(n) => Op::TailCall(n, false),
        Op::CallWithThis(n) => Op::TailCall(n, true),
        Op::CallSpread(n) => Op::TailCallSpread(n, false),
        Op::CallSpreadThis(n) => Op::TailCallSpread(n, true),
        other => other,
    }
}

/// The ops with the jumps at `at` (counted from `base`) going to `here`.
pub open spec fn patched(ops: Seq<Op>, base: int, at: Seq<usize>, here: u32) -> Seq<Op>
    decreases at.len(),
{
    if at.len() == 0 {
        ops
    } else {
        let p = patched(ops, base, at.drop_last(), here);
        p.update(base + at.last(), retarget(p[base + at.last()], |t: u32| here))
    }
}

/// Statements one after the other, from op index `base` on.
pub open spec fn stmts_ops(base: int, codes: Seq<Vec<Op>>) -> Seq<Op>
    decreases codes.len(),
{
    if codes.len() == 0 {
        Seq::empty()
    } else {
        let init = stmts_ops(base, codes.drop_last());
        init + rebased(codes.last()@, base + init.len())
    }
}

pub open spec fn short_circuit(op: LogicalOp, target: u32) -> Op {
    match op {
        LogicalOp::And => Op::JumpIfFalsePeek(target),
        LogicalOp::Or => Op::JumpIfTruePeek(target),
        _ => Op::JumpIfNotNullishPeek(target),
    }
}

/// The code of `return` of a call.
pub open spec fn call_ops(code: Seq<Op>, base: int) -> Seq<Op> {
    let c = rebased(code, base);
    c.update(c.len() - 1, tail_form(c.last())) + seq![Op::Return]
}

/// The code of `return` of an optional chain ending in a call: a short-circuit returns
/// `undefined`.
pub open spec fn optional_ops(code: Seq<Op>, shorts: Seq<usize>, base: int) -> Seq<Op> {
    let call = call_ops(code, base);
    if shorts.len() == 0 {
        call
    } else {
        patched(call, 0, shorts, (base + call.len()) as u32) + seq![Op::Undef, Op::Return]
    }
}

/// The code of `return <e>` in tail position, at op index `base`.
pub open spec fn tail_ops(e: TailExpr, base: int) -> Seq<Op>
    decreases e,
{
    match e {
        TailExpr::Paren(x) => tail_ops(*x, base),
        TailExpr::Cond { test, jump, cons, alt } => {
            let t = rebased(test@, base);
            let c = tail_ops(*cons, base + t.len());
            let alt_at = base + t.len() + c.len();
            t.update(jump as int, retarget(t[jump as int], |x: u32| alt_at as u32)) + c + tail_ops(
                *alt,
                alt_at,
            )
        },
        TailExpr::Sequence { init, last } => {
            let s = stmts_ops(base, init@);
            s + tail_ops(*last, base + s.len())
        },
        TailExpr::Logical { op, left, right } => {
            let l = rebased(left@, base);
            let r = tail_ops(*right, base + l.len() + 2);
            l + seq![short_circuit(op, (base + l.len() + 2 + r.len()) as u32), Op::Pop] + r + seq![
                Op::Return,
            ]
        },
        TailExpr::Call(code) => call_ops(code@, base),
        TailExpr::OptionalCall { code, shorts } => optional_ops(code@, shorts@, base),
        TailExpr::Other(code) => rebased(code@, base) + seq![Op::Return],
    }
}

/// The expression holds only logical operators that the compiler knows.
pub open spec fn known(e: TailExpr) -> bool
    decreases e,
{
    match e {
        TailExpr::Paren(x) => known(*x),
        TailExpr::Cond { test, jump, cons, alt } => known(*cons) && known(*alt),
        TailExpr::Sequence { init, last } => known(*last),
        TailExpr::Logical { op, left, right } => op != LogicalOp::Unknown && known(*right),
        _ => true,
    }
}

/// The code that is left of `return <e>` when an operator that the compiler does not know ends it.
pub open spec fn refused_ops(e: TailExpr, base: int) -> Seq<Op>
    decreases e,
{
    match e {
        TailExpr::Paren(x) => refused_ops(*x, base),
        TailExpr::Cond { test, jump, cons, alt } => {
            let t = rebased(test@, base);
            if !known(*cons) {
                t + refused_ops(*cons, base + t.len())
            } else {
                let c = tail_ops(*cons, base + t.len());
                let alt_at = base + t.len() + c.len();
                t.update(jump as int, retarget(t[jump as int], |x: u32| alt_at as u32)) + c
                    + refused_ops(*alt, alt_at)
            }
        },
        TailExpr::Sequence { init, last } => {
            let s = stmts_ops(base, init@);
            s + refused_ops(*last, base + s.len())
        },
        TailExpr::Logical { op, left, right } => {
            let l = rebased(left@, base);
            if op == LogicalOp::Unknown {
                l
            } else {
                l + seq![short_circuit(op, 0), Op::Pop] + refused_ops(*right, base + l.len() + 2)
            }
        },
        _ => Seq::empty(),
    }
}

/// The parts' code is sound: jumps stay within, and what is to be patched or retagged is there.
pub open spec fn sound(e: TailExpr) -> bool
    decreases e,
{
    match e {
        TailExpr::Paren(x) => sound(*x),
        TailExpr::Cond { test, jump, cons, alt } => code_fits(test@) && jump < test@.len() && sound(
            *cons,
        ) && sound(*alt),
        TailExpr::Sequence { init, last } => (forall|i: int|
            0 <= i < init@.len() ==> code_fits((#[trigger] init@[i])@)) && sound(*last),
        TailExpr::Logical { op, left, right } => code_fits(left@) && sound(*right),
        TailExpr::Call(code) => code_fits(code@) && code@.len() > 0,
        TailExpr::OptionalCall { code, shorts } => code_fits(code@) && code@.len() > 0 && (forall|
            i: int,
        |
            0 <= i < shorts@.len() ==> #[trigger] shorts@[i] < code@.len()),
        TailExpr::Other(code) => code_fits(code@),
    }
}

proof fn lemma_patched_len(ops: Seq<Op>, base: int, at: Seq<usize>, here: u32)
    requires
        0 <= base,
        forall|i: int| 0 <= i < at.len() ==> base + #[trigger] at[i] < ops.len(),
    ensures
        patched(ops, base, at, here).len() == ops.len(),
    decreases at.len(),
{
    if at.len() > 0 {
        let init = at.drop_last();
        assert forall|i: int| 0 <= i < init.len() implies base + #[trigger] init[i] < ops.len() by {
            assert(init[i] == at[i]);
        }
        lemma_patched_len(ops, base, init, here);
        assert(at.last() == at[at.len() - 1]);
    }
}

proof fn lemma_patched_after(a: Seq<Op>, b: Seq<Op>, base: int, at: Seq<usize>, here: u32)
    requires
        base == a.len(),
        forall|i: int| 0 <= i < at.len() ==> #[trigger] at[i] < b.len(),
    ensures
        patched(a + b, base, at, here) == a + patched(b, 0, at, here),
    decreases at.len(),
{
    if at.len() > 0 {
        let init = at.drop_last();
        assert forall|i: int| 0 <= i < init.len() implies #[trigger] init[i] < b.len() by {
            assert(init[i] == at[i]);
        }
        assert(at.last() == at[at.len() - 1]);
        lemma_patched_after(a, b, base, init, here);
        lemma_patched_len(b, 0, init, here);
        assert(patched(a + b, base, at, here) =~= a + patched(b, 0, at, here));
    }
}

/// The code of a `return` in tail position ends the frame.
pub proof fn lemma_tail_return_returns(e: TailExpr, base: int)
    requires
        sound(e),
    ensures
        tail_ops(e, base).len() > 0,
        tail_ops(e, base).last() == Op::Return,
    decreases e,
{
    match e {
        TailExpr::Paren(x) => {
            lemma_tail_return_returns(*x, base);
        },
        TailExpr::Cond { test, jump, cons, alt } => {
            let t = rebased(test@, base);
            let c = tail_ops(*cons, base + t.len());
            lemma_tail_return_returns(*alt, base + t.len() + c.len());
        },
        TailExpr::Sequence { init, last } => {
            lemma_tail_return_returns(*last, base + stmts_ops(base, init@).len());
        },
        _ => {},
    }
}

/// A call in tail position becomes a tail call right before its `Return`.
pub proof fn lemma_tail_call_is_tagged(code: Vec<Op>, base: int)
    requires
        code_fits(code@),
        code@.len() > 0,
        code@.last() is Call || code@.last() is CallWithThis || code@.last() is CallSpread
            || code@.last() is CallSpreadThis,
    ensures
        ({
            let out = tail_ops(TailExpr::Call(code), base);
            let op = out[out.len() - 2];
            op == tail_form(code@.last()) && (op is TailCall || op is TailCallSpread)
        }),
{
}

proof fn lemma_stmts_len(base: int, codes: Seq<Vec<Op>>, n: int)
    requires
        0 <= n <= codes.len(),
    ensures
        stmts_ops(base, codes.take(n)).len() <= stmts_ops(base, codes).len(),
    decreases codes.len(),
{
    if n < codes.len() {
        lemma_stmts_len(base, codes.drop_last(), n);
        assert(codes.drop_last().take(n) =~= codes.take(n));
    } else {
        assert(codes.take(n) =~= codes);
    }
}

impl Compiler {
    /// Whether a `return` here may end in a proper tail call: nothing runs after it in this
    /// frame (no handler, `finally`, `for`-`of` close, derived-constructor check or generator
    /// completion).
    pub fn tail_position(&self) -> (r: bool)
        ensures
            r == (self.tail_calls && self.strict && !self.generator && !self.derived
                && self.try_depth == 0 && self.finallys == 0 && (forall|i: int|
                0 <= i < self.loops@.len() ==> (#[trigger] self.loops@[i]).foreach_iter is None)),
    {
        if !(self.tail_calls && self.strict && !self.generator && !self.derived && self.try_depth
            == 0 && self.finallys == 0) {
            return false;
        }
        let mut i: usize = 0;
        while i < self.loops.len()
            invariant
                i <= self.loops@.len(),
                forall|j: int|
                    0 <= j < i ==> (#[trigger] self.loops@[j]).foreach_iter is None,
            decreases self.loops@.len() - i,
        {
            if self.loops[i].foreach_iter.is_some() {
                return false;
            }
            i = i + 1;
        }
        true
    }

    /// Turns the call op just emitted into its tail-call form.
    pub fn retag_tail_call(&mut self)
        requires
            old(self).ops@.len() > 0,
        ensures
            final(self).ops@ == old(self).ops@.update(
                old(self).ops@.len() - 1,
                tail_form(old(self).ops@.last()),
            ),
            same_but_ops(*final(self), *old(self)),
    {
        let at: usize = self.ops.len() - 1;
        let op: Op = match self.ops[at] {
            Op::Call(n) => Op::TailCall(n, false),
            Op::CallWithThis(n) => Op::TailCall(n, true),
            Op::CallSpread(n) => Op::TailCallSpread(n, false),
            Op::CallSpreadThis(n) => Op::TailCallSpread(n, true),
            other => other,
        };
        self.ops.set(at, op);
    }

    fn splice_all(&mut self, codes: &Vec<Vec<Op>>)
        requires
            forall|i: int| 0 <= i < codes@.len() ==> code_fits((#[trigger] codes@[i])@),
            old(self).ops@.len() + stmts_ops(old(self).ops@.len() as int, codes@).len() <= MAX_OPS,
        ensures
            final(self).ops@ == old(self).ops@ + stmts_ops(old(self).ops@.len() as int, codes@),
            same_but_ops(*final(self), *old(self)),
    {
        let ghost o0 = self.ops@;
        let ghost base = o0.len() as int;
        let mut i: usize = 0;
        assert(codes@.take(0) =~= Seq::empty());
        assert(o0 + Seq::<Op>::empty() =~= o0);
        while i < codes.len()
            invariant
                i <= codes@.len(),
                forall|i: int| 0 <= i < codes@.len() ==> code_fits((#[trigger] codes@[i])@),
                base == o0.len(),
                base + stmts_ops(base, codes@).len() <= MAX_OPS,
                self.ops@ == o0 + stmts_ops(base, codes@.take(i as int)),
                same_but_ops(*self, *old(self)),
            decreases codes@.len() - i,
        {
            proof {
                assert(codes@.take(i + 1).drop_last() =~= codes@.take(i as int));
                assert(codes@.take(i + 1).last() == codes@[i as int]);
                lemma_stmts_len(base, codes@, i as int);
            }
            self.splice(&codes[i]);
            i = i + 1;
            assert(self.ops@ =~= o0 + stmts_ops(base, codes@.take(i as int)));
        }
        assert(codes@.take(i as int) =~= codes@);
    }

    fn patch_all(&mut self, base: usize, at: &Vec<usize>)
        requires
            old(self).ops@.len() <= u32::MAX,
            forall|i: int| 0 <= i < at@.len() ==> base + #[trigger] at@[i] < old(self).ops@.len(),
        ensures
            final(self).ops@ == patched(
                old(self).ops@,
                base as int,
                at@,
                old(self).ops@.len() as u32,
            ),
            same_but_ops(*final(self), *old(self)),
    {
        let ghost o0 = self.ops@;
        let mut i: usize = 0;
        assert(at@.take(0) =~= Seq::empty());
        while i < at.len()
            invariant
                i <= at@.len(),
                o0.len() <= u32::MAX,
                forall|i: int| 0 <= i < at@.len() ==> base + #[trigger] at@[i] < o0.len(),
                self.ops@ == patched(o0, base as int, at@.take(i as int), o0.len() as u32),
                self.ops@.len() == o0.len(),
                same_but_ops(*self, *old(self)),
            decreases at@.len() - i,
        {
            proof {
                assert(at@.take(i + 1).drop_last() =~= at@.take(i as int));
                assert(at@.take(i + 1).last() == at@[i as int]);
            }
            self.patch(base + at[i]);
            i = i + 1;
        }
        assert(at@.take(i as int) =~= at@);
    }

    /// `return <x>` in tail position (see [`Compiler::tail_position`]): `e` is the shape of `x`
    /// (see [`tail_kind`]) with the code of its parts.
    pub fn tail_return(&mut self, x: &Expr, e: &TailExpr) -> (r: Result<(), Bail>)
        requires
            shaped(*x, *e),
            sound(*e),
            old(self).ops@.len() + tail_ops(*e, old(self).ops@.len() as int).len() <= MAX_OPS,
        ensures
            same_but_ops(*final(self), *old(self)),
            r is Ok == known(*e),
            r is Ok ==> final(self).ops@ == old(self).ops@ + tail_ops(
                *e,
                old(self).ops@.len() as int,
            ),
            r is Err ==> final(self).ops@ == old(self).ops@ + refused_ops(
                *e,
                old(self).ops@.len() as int,
            ),
        decreases e, 1nat,
    {
        match e {
            TailExpr::Paren(y) => match x {
                Expr::Paren(x) => self.tail_return(x, y),
                _ => Err(Bail),
            },
            TailExpr::Cond { .. } => self.tail_cond(x, e),
            TailExpr::Sequence { .. } => self.tail_sequence(x, e),
            TailExpr::Logical { .. } => self.tail_logical(x, e),
            TailExpr::Call(code) => {
                self.tail_call(code);
                Ok(())
            },
            TailExpr::OptionalCall { code, shorts } => {
                self.tail_optional(code, shorts);
                Ok(())
            },
            TailExpr::Other(code) => {
                let ghost o0 = self.ops@;
                self.splice(code);
                self.emit(Op::Return);
                assert(self.ops@ =~= o0 + tail_ops(*e, o0.len() as int));
                Ok(())
            },
        }
    }

    fn tail_cond(&mut self, x: &Expr, e: &TailExpr) -> (r: Result<(), Bail>)
        requires
            shaped(*x, *e),
            sound(*e),
            e is Cond,
            old(self).ops@.len() + tail_ops(*e, old(self).ops@.len() as int).len() <= MAX_OPS,
        ensures
            same_but_ops(*final(self), *old(self)),
            r is Ok == known(*e),
            r is Ok ==> final(self).ops@ == old(self).ops@ + tail_ops(
                *e,
                old(self).ops@.len() as int,
            ),
            r is Err ==> final(self).ops@ == old(self).ops@ + refused_ops(
                *e,
                old(self).ops@.len() as int,
            ),
        decreases e, 0nat,
    {
        let ghost o0 = self.ops@;
        let ghost base = o0.len() as int;
        if let (Expr::Cond { cons: xc, alt: xa, .. }, TailExpr::Cond { test, jump, cons, alt }) = (x, e) {
            let start: usize = self.ops.len();
            self.splice(test);
            let ghost t = rebased(test@, base);
            match self.tail_return(xc, cons) {
                Ok(_) => {},
                Err(b) => {
                    assert(self.ops@ =~= o0 + refused_ops(*e, base));
                    return Err(b);
                },
            }
            let ghost c = tail_ops(**cons, base + t.len());
            assert(self.ops@ =~= o0 + t + c);
            self.patch(start + *jump);
            let ghost alt_at = base + t.len() + c.len();
            assert(self.ops@ =~= o0 + (t.update(
                *jump as int,
                retarget(t[*jump as int], |x: u32| alt_at as u32),
            ) + c));
            match self.tail_return(xa, alt) {
                Ok(_) => {},
                Err(b) => {
                    assert(self.ops@ =~= o0 + refused_ops(*e, base));
                    return Err(b);
                },
            }
            assert(self.ops@ =~= o0 + tail_ops(*e, base));
        }
        Ok(())
    }

    fn tail_sequence(&mut self, x: &Expr, e: &TailExpr) -> (r: Result<(), Bail>)
        requires
            shaped(*x, *e),
            sound(*e),
            e is Sequence,
            old(self).ops@.len() + tail_ops(*e, old(self).ops@.len() as int).len() <= MAX_OPS,
        ensures
            same_but_ops(*final(self), *old(self)),
            r is Ok == known(*e),
            r is Ok ==> final(self).ops@ == old(self).ops@ + tail_ops(
                *e,
                old(self).ops@.len() as int,
            ),
            r is Err ==> final(self).ops@ == old(self).ops@ + refused_ops(
                *e,
                old(self).ops@.len() as int,
            ),
        decreases e, 0nat,
    {
        let ghost o0 = self.ops@;
        let ghost base = o0.len() as int;
        if let (Expr::Sequence(items), TailExpr::Sequence { init, last }) = (x, e) {
            self.splice_all(init);
            match self.tail_return(&items[items.len() - 1], last) {
                Ok(_) => {},
                Err(b) => {
                    assert(self.ops@ =~= o0 + refused_ops(*e, base));
                    return Err(b);
                },
            }
            assert(self.ops@ =~= o0 + tail_ops(*e, base));
        }
        Ok(())
    }

    fn tail_logical(&mut self, x: &Expr, e: &TailExpr) -> (r: Result<(), Bail>)
        requires
            shaped(*x, *e),
            sound(*e),
            e is Logical,
            old(self).ops@.len() + tail_ops(*e, old(self).ops@.len() as int).len() <= MAX_OPS,
        ensures
            same_but_ops(*final(self), *old(self)),
            r is Ok == known(*e),
            r is Ok ==> final(self).ops@ == old(self).ops@ + tail_ops(
                *e,
                old(self).ops@.len() as int,
            ),
            r is Err ==> final(self).ops@ == old(self).ops@ + refused_ops(
                *e,
                old(self).ops@.len() as int,
            ),
        decreases e, 0nat,
    {
        let ghost o0 = self.ops@;
        let ghost base = o0.len() as int;
        if let (Expr::Logical { right: xr, .. }, TailExpr::Logical { op, left, right }) = (x, e) {
            self.splice(left);
            let ghost l = rebased(left@, base);
            let j: usize = match op {
                LogicalOp::And => self.emit(Op::JumpIfFalsePeek(0)),
                LogicalOp::Or => self.emit(Op::JumpIfTruePeek(0)),
                LogicalOp::Nullish => self.emit(Op::JumpIfNotNullishPeek(0)),
                LogicalOp::Unknown => {
                    assert(self.ops@ =~= o0 + refused_ops(*e, base));
                    return Err(Bail);
                },
            };
            self.emit(Op::Pop);
            assert(self.ops@ =~= o0 + (l + seq![short_circuit(*op, 0), Op::Pop]));
            match self.tail_return(xr, right) {
                Ok(_) => {},
                Err(b) => {
                    assert(self.ops@ =~= o0 + refused_ops(*e, base));
                    return Err(b);
                },
            }
            let ghost r = tail_ops(**right, base + l.len() + 2);
            self.patch(j);
            let ghost end = (base + l.len() + 2 + r.len()) as u32;
            assert(self.ops@ =~= o0 + (l + seq![short_circuit(*op, end), Op::Pop] + r));
            self.emit(Op::Return);
            assert(self.ops@ =~= o0 + tail_ops(*e, base));
        }
        Ok(())
    }

    fn tail_call(&mut self, code: &Vec<Op>)
        requires
            code_fits(code@),
            code@.len() > 0,
            old(self).ops@.len() + code@.len() + 1 <= MAX_OPS,
        ensures
            same_but_ops(*final(self), *old(self)),
            final(self).ops@ == old(self).ops@ + call_ops(code@, old(self).ops@.len() as int),
    {
        let ghost o0 = self.ops@;
        self.splice(code);
        self.retag_tail_call();
        self.emit(Op::Return);
        assert(self.ops@ =~= o0 + call_ops(code@, o0.len() as int));
    }

    fn tail_optional(&mut self, code: &Vec<Op>, shorts: &Vec<usize>)
        requires
            code_fits(code@),
            code@.len() > 0,
            forall|i: int| 0 <= i < shorts@.len() ==> #[trigger] shorts@[i] < code@.len(),
            old(self).ops@.len() + optional_ops(
                code@,
                shorts@,
                old(self).ops@.len() as int,
            ).len() <= MAX_OPS,
        ensures
            same_but_ops(*final(self), *old(self)),
            final(self).ops@ == old(self).ops@ + optional_ops(
                code@,
                shorts@,
                old(self).ops@.len() as int,
            ),
    {
        let ghost o0 = self.ops@;
        let ghost base = o0.len() as int;
        let ghost call = call_ops(code@, base);
        let start: usize = self.ops.len();
        proof {
            lemma_patched_len(call, 0, shorts@, (base + call.len()) as u32);
        }
        self.tail_call(code);
        if shorts.len() > 0 {
            self.patch_all(start, shorts);
            proof {
                lemma_patched_after(o0, call, base, shorts@, (base + call.len()) as u32);
            }
            self.emit(Op::Undef);
            self.emit(Op::Return);
        }
        assert(self.ops@ =~= o0 + optional_ops(code@, shorts@, base));
    }
}

} // verus!
