//! What compiled code does when it runs: tail calls, returns through tail positions, and
//! parameter defaults.

use super::compiler::{code_fits, rebased, MAX_OPS};
use super::machine::{
    call_shape, lemma_reaches_on, lemma_step_on, nullish, stands, truthy, CallShape, Machine, Turn,
};
use super::op::{CmpKind, Op};
use super::parameters::default_ops;
use super::self_tail::{
    call_ops, kind_of, known, logical_op, optional_ops, patched, shape_kind, sound, stmts_ops,
    tail_form, tail_ops, LogicalOp, TailExpr, TailKind,
};
use super::switch_table::{retarget, target_of};
use crate::ast::Expr;
use crate::value::Value;
use vstd::prelude::*;

verus! {

/// A tail call makes the very call that it takes the place of: with the same operand, spread or
/// not, with the receiver or without it. Any other op, and a tail call, stays as it is.
pub proof fn lemma_tail_calls_make_the_same_call(op: Op)
    ensures
        call_shape(op) matches Some(c) ==> call_shape(tail_form(op)) == Some(
            CallShape { tail: true, ..c },
        ),
        call_shape(op) is None ==> tail_form(op) == op,
        tail_form(tail_form(op)) == tail_form(op),
{
}

/// The ops that name another one, and what they name.
pub proof fn lemma_jumps_name_their_target(t: u32, k: CmpKind, a: u16, b: u16, c: u32, u: u32)
    ensures
        ({
            let f = |x: u32| u;
            &&& retarget(Op::Jump(t), f) == Op::Jump(u)
            &&& retarget(Op::JumpIfFalse(t), f) == Op::JumpIfFalse(u)
            &&& retarget(Op::JumpIfNotCmp(k, t), f) == Op::JumpIfNotCmp(k, u)
            &&& retarget(Op::JumpIfNotCmpLL(k, a, b, t), f) == Op::JumpIfNotCmpLL(k, a, b, u)
            &&& retarget(Op::JumpIfNotCmpLK(k, a, c, t), f) == Op::JumpIfNotCmpLK(k, a, c, u)
            &&& retarget(Op::JumpIfFalsePeek(t), f) == Op::JumpIfFalsePeek(u)
            &&& retarget(Op::JumpIfTruePeek(t), f) == Op::JumpIfTruePeek(u)
            &&& retarget(Op::JumpIfNotNullishPeek(t), f) == Op::JumpIfNotNullishPeek(u)
            &&& retarget(Op::PushHandler(t), f) == Op::PushHandler(u)
        }),
        target_of(Op::Jump(t)) == Some(t),
        target_of(Op::JumpIfFalse(t)) == Some(t),
        target_of(Op::JumpIfNotCmp(k, t)) == Some(t),
        target_of(Op::JumpIfNotCmpLL(k, a, b, t)) == Some(t),
        target_of(Op::JumpIfNotCmpLK(k, a, c, t)) == Some(t),
        target_of(Op::JumpIfFalsePeek(t)) == Some(t),
        target_of(Op::JumpIfTruePeek(t)) == Some(t),
        target_of(Op::JumpIfNotNullishPeek(t)) == Some(t),
        target_of(Op::PushHandler(t)) == Some(t),
        target_of(Op::SwitchLK(a, t)) is None,
{
}

/// A jump that is sent elsewhere goes there and does nothing else differently; other ops stay.
pub proof fn lemma_retargeting_moves_jumps_only(op: Op, f: spec_fn(u32) -> u32)
    ensures
        match target_of(op) {
            Some(t) => target_of(retarget(op, f)) == Some(f(t)) && retarget(
                retarget(op, f),
                |x: u32| t,
            ) == op,
            None => retarget(op, f) == op,
        },
{
}

/// Code that is placed behind other code keeps its ops, and its jumps stay within it.
pub proof fn lemma_placed_code_keeps_its_jumps(code: Seq<Op>, base: int)
    requires
        code_fits(code),
        0 <= base <= MAX_OPS,
    ensures
        rebased(code, base).len() == code.len(),
        forall|i: int|
            0 <= i < code.len() ==> match target_of(#[trigger] code[i]) {
                Some(t) => target_of(rebased(code, base)[i]) == Some((base + t) as u32) && base + t
                    <= base + code.len() && base + t <= u32::MAX,
                None => rebased(code, base)[i] == code[i],
            },
{
}

proof fn lemma_part_stands(ops: Seq<Op>, base: int, d: Seq<Op>, from: int, part: Seq<Op>)
    requires
        stands(ops, base, d),
        0 <= from,
        from + part.len() <= d.len(),
        forall|i: int| 0 <= i < part.len() ==> d[from + i] == #[trigger] part[i],
    ensures
        stands(ops, base + from, part),
{
    let got = ops.subrange(base + from, base + from + part.len());
    assert forall|i: int| 0 <= i < part.len() implies got[i] == #[trigger] part[i] by {
        assert(ops.subrange(base, base + d.len())[from + i] == ops[base + from + i]);
    }
    assert(got =~= part);
}

// ---- parameter defaults ---------------------------------------------------------------------

/// A parameter that is given keeps its value, whatever its default: the code of the default is
/// skipped and nothing is left on the stack.
pub proof fn lemma_given_parameters_keep_their_value(
    ops: Seq<Op>,
    base: int,
    slot: u16,
    code: Seq<Op>,
    cap: Option<u32>,
    m: Machine,
)
    requires
        0 <= base,
        base + 5 + code.len() <= u32::MAX,
        stands(ops, base, default_ops(base, slot, code, cap)),
        m.pc == base,
        m.locals.contains_key(slot),
        !(m.locals[slot] is Undefined),
    ensures
        m.reaches(ops, m.goes(base + 5 + code.len())),
{
    let d = default_ops(base, slot, code, cap);
    let m3 = lemma_default_is_tested(ops, base, slot, code, cap, m);
    assert(ops[base + 3] == d[3]);
    lemma_step_on(m3, ops);
    assert(m3.stack.drop_last() =~= m.stack);
    assert(m3.step(ops) == Turn::Next(m.goes(base + 5 + code.len())));
    lemma_reaches_on(m, ops, m3);
}

proof fn lemma_default_is_tested(
    ops: Seq<Op>,
    base: int,
    slot: u16,
    code: Seq<Op>,
    cap: Option<u32>,
    m: Machine,
) -> (m3: Machine)
    requires
        0 <= base,
        base + 5 + code.len() <= u32::MAX,
        stands(ops, base, default_ops(base, slot, code, cap)),
        m.pc == base,
        m.locals.contains_key(slot),
    ensures
        m.reaches(ops, m3),
        m3 == (Machine {
            pc: base + 3,
            stack: m.stack.push(Value::Bool(m.locals[slot] is Undefined)),
            ..m
        }),
{
    let d = default_ops(base, slot, code, cap);
    assert(d.len() == 5 + code.len());
    assert forall|i: int| 0 <= i < d.len() implies #[trigger] ops[base + i] == d[i] by {
        assert(ops.subrange(base, base + d.len())[i] == ops[base + i]);
    }
    assert(ops[base + 0] == d[0] && ops[base + 1] == d[1] && ops[base + 2] == d[2]);
    let m1 = m.pushes(m.locals[slot]);
    let m2 = m1.pushes(Value::Undefined);
    let m3 = Machine {
        pc: base + 3,
        stack: m.stack.push(Value::Bool(m.locals[slot] is Undefined)),
        ..m
    };
    lemma_step_on(m, ops);
    assert(m.step(ops) == Turn::Next(m1));
    lemma_step_on(m1, ops);
    assert(m1.step(ops) == Turn::Next(m2));
    lemma_step_on(m2, ops);
    assert(m2.stack.drop_last().drop_last() =~= m.stack);
    assert(m2.step(ops) == Turn::Next(m3));
    lemma_reaches_on(m, ops, m1);
    lemma_reaches_on(m, ops, m2);
    m3
}

/// A parameter that is `undefined` gets the value that its default comes to, in its slot or in
/// its captured binding; the operand stack is as it was. `done` is the frame in which the code of
/// the default left its value `v` on the stack.
pub proof fn lemma_missing_parameters_get_their_default(
    ops: Seq<Op>,
    base: int,
    slot: u16,
    code: Seq<Op>,
    cap: Option<u32>,
    m: Machine,
    done: Machine,
    v: Value,
)
    requires
        0 <= base,
        base + 5 + code.len() <= u32::MAX,
        stands(ops, base, default_ops(base, slot, code, cap)),
        m.pc == base,
        m.locals.contains_key(slot),
        m.locals[slot] is Undefined,
        m.goes(base + 4).reaches(ops, done),
        done.pc == base + 4 + code.len(),
        done.stack == m.stack.push(v),
    ensures
        stands(ops, base + 4, rebased(code, base + 4)),
        m.reaches(
            ops,
            Machine {
                pc: base + 5 + code.len(),
                locals: if cap is None {
                    done.locals.insert(slot, v)
                } else {
                    done.locals
                },
                caps: match cap {
                    Some(c) => done.caps.insert(c, v),
                    None => done.caps,
                },
                stack: m.stack,
            },
        ),
{
    let d = default_ops(base, slot, code, cap);
    let m3 = lemma_default_is_tested(ops, base, slot, code, cap, m);
    assert(d.len() == 5 + code.len());
    assert forall|i: int| 0 <= i < d.len() implies #[trigger] ops[base + i] == d[i] by {
        assert(ops.subrange(base, base + d.len())[i] == ops[base + i]);
    }
    assert(ops[base + 3] == d[3]);
    assert(ops[base + (4 + code.len())] == d[4 + code.len() as int]);
    lemma_part_stands(ops, base, d, 4, rebased(code, base + 4));
    let m4 = m.goes(base + 4);
    lemma_step_on(m3, ops);
    assert(m3.stack.drop_last() =~= m.stack);
    assert(m3.step(ops) == Turn::Next(m4));
    lemma_reaches_on(m, ops, m3);
    lemma_reaches_on(m, ops, m4);
    lemma_reaches_on(m, ops, done);
    lemma_step_on(done, ops);
    assert(done.stack.drop_last() =~= m.stack);
}

// ---- returns --------------------------------------------------------------------------------

/// The right operand of a logical operator is looked at exactly when the left one does not decide:
/// `&&` when it is truthy, `||` when it is not, `??` when it is `undefined` or `null`. Else the
/// left operand is returned. `at` is the frame in which the left operand is `v`.
pub proof fn lemma_logical_operators_return_an_operand(
    ops: Seq<Op>,
    base: int,
    op: LogicalOp,
    left: Vec<Op>,
    right: Box<TailExpr>,
    at: Machine,
    v: Value,
)
    requires
        0 <= base,
        op != LogicalOp::Unknown,
        base + tail_ops(TailExpr::Logical { op, left, right }, base).len() <= u32::MAX,
        stands(ops, base, tail_ops(TailExpr::Logical { op, left, right }, base)),
        at.pc == base + left@.len(),
        at.stack.len() > 0,
        at.stack.last() == v,
    ensures
        stands(ops, base, rebased(left@, base)),
        ({
            let looks = match op {
                LogicalOp::And => truthy(v),
                LogicalOp::Or => !truthy(v),
                _ => nullish(v),
            };
            let here = base + left@.len() + 2;
            &&& looks ==> at.reaches(
                ops,
                Machine { pc: here, stack: at.stack.drop_last(), ..at },
            ) && stands(ops, here, tail_ops(*right, here))
            &&& !looks ==> at.gives(ops, v)
        }),
{
    let e = TailExpr::Logical { op, left, right };
    let l = rebased(left@, base);
    let here = base + l.len() + 2;
    let r = tail_ops(*right, here);
    let d = tail_ops(e, base);
    assert(d.len() == l.len() + 2 + r.len() + 1);
    assert forall|i: int| 0 <= i < d.len() implies #[trigger] ops[base + i] == d[i] by {
        assert(ops.subrange(base, base + d.len())[i] == ops[base + i]);
    }
    lemma_part_stands(ops, base, d, 0, l);
    lemma_part_stands(ops, base, d, l.len() as int + 2, r);
    assert(ops[base + l.len()] == d[l.len() as int]);
    assert(ops[base + (l.len() + 1)] == d[l.len() as int + 1]);
    assert(ops[base + (l.len() + 2 + r.len())] == d[l.len() as int + 2 + r.len() as int]);
    lemma_step_on(at, ops);
    let on = at.goes(at.pc + 1);
    let out = at.goes(here + r.len());
    lemma_step_on(on, ops);
    lemma_step_on(out, ops);
    if at.step(ops) == Turn::Next(on) {
        lemma_reaches_on(at, ops, on);
    } else {
        assert(at.step(ops) == Turn::Next(out));
        lemma_reaches_on(at, ops, out);
    }
}

/// A condition that holds goes on with the first arm, one that does not with the second. `at` is
/// the frame at the test's last op, which decides.
pub proof fn lemma_conditions_choose_their_arm(
    ops: Seq<Op>,
    base: int,
    test: Vec<Op>,
    jump: usize,
    cons: Box<TailExpr>,
    alt: Box<TailExpr>,
    at: Machine,
    v: Value,
)
    requires
        0 <= base,
        base + tail_ops(TailExpr::Cond { test, jump, cons, alt }, base).len() <= u32::MAX,
        stands(ops, base, tail_ops(TailExpr::Cond { test, jump, cons, alt }, base)),
        jump == test@.len() - 1,
        test@[jump as int] is JumpIfFalse,
        at.pc == base + jump,
        at.stack.len() > 0,
        at.stack.last() == v,
    ensures
        ({
            let first = base + test@.len();
            let second = first + tail_ops(*cons, first).len();
            let popped = Machine { stack: at.stack.drop_last(), ..at };
            &&& stands(ops, first, tail_ops(*cons, first))
            &&& stands(ops, second, tail_ops(*alt, second))
            &&& truthy(v) ==> at.reaches(ops, popped.goes(first))
            &&& !truthy(v) ==> at.reaches(ops, popped.goes(second))
        }),
{
    let e = TailExpr::Cond { test, jump, cons, alt };
    let t = rebased(test@, base);
    let first = base + t.len();
    let c = tail_ops(*cons, first);
    let second = first + c.len();
    let a = tail_ops(*alt, second);
    let d = tail_ops(e, base);
    assert(d.len() == t.len() + c.len() + a.len());
    assert forall|i: int| 0 <= i < d.len() implies #[trigger] ops[base + i] == d[i] by {
        assert(ops.subrange(base, base + d.len())[i] == ops[base + i]);
    }
    lemma_part_stands(ops, base, d, t.len() as int, c);
    lemma_part_stands(ops, base, d, t.len() as int + c.len(), a);
    assert(ops[base + jump as int] == d[jump as int]);
    lemma_step_on(at, ops);
}

/// The call in tail position keeps what leads up to it, makes its call as a tail call and returns
/// what that gives.
pub proof fn lemma_returned_calls_are_tail_calls(code: Seq<Op>, base: int)
    requires
        code_fits(code),
        code.len() > 0,
        0 <= base <= MAX_OPS,
    ensures
        ({
            let d = call_ops(code, base);
            let n = code.len() as int;
            &&& d.len() == n + 1
            &&& d[n] == Op::Return
            &&& forall|i: int| 0 <= i < n - 1 ==> #[trigger] d[i] == rebased(code, base)[i]
            &&& call_shape(code.last()) matches Some(c) ==> call_shape(d[n - 1]) == Some(
                CallShape { tail: true, ..c },
            )
        }),
{
}

proof fn lemma_patched(ops: Seq<Op>, at: Seq<usize>, here: u32, j: usize)
    requires
        forall|i: int| 0 <= i < at.len() ==> #[trigger] at[i] < ops.len(),
        j < ops.len(),
    ensures
        patched(ops, 0, at, here).len() == ops.len(),
        ({
            let p = patched(ops, 0, at, here)[j as int];
            if at.contains(j) && target_of(ops[j as int]) is Some {
                target_of(p) == Some(here)
            } else {
                p == ops[j as int]
            }
        }),
    decreases at.len(),
{
    if at.len() > 0 {
        let d = at.drop_last();
        assert forall|i: int| 0 <= i < d.len() implies #[trigger] d[i] < ops.len() by {
            assert(d[i] == at[i]);
        }
        lemma_patched(ops, d, here, j);
        let l = at.last();
        assert(l == at[at.len() - 1]);
        if at.contains(j) && j != l {
            let k = choose|k: int| 0 <= k < at.len() && at[k] == j;
            assert(d[k] == j);
        }
        if d.contains(j) {
            let k = choose|k: int| 0 <= k < d.len() && d[k] == j;
            assert(at[k] == j);
        }
    }
}

/// An optional chain that short-circuits returns `undefined`; one that does not makes its call.
pub proof fn lemma_short_circuits_return_undefined(
    code: Seq<Op>,
    shorts: Seq<usize>,
    base: int,
    s: int,
)
    requires
        code_fits(code),
        code.len() > 0,
        0 <= base,
        base + code.len() + 3 <= u32::MAX,
        forall|i: int| 0 <= i < shorts.len() ==> #[trigger] shorts[i] < code.len() - 1,
        0 <= s < shorts.len(),
        target_of(code[shorts[s] as int]) is Some,
    ensures
        ({
            let d = optional_ops(code, shorts, base);
            let n = code.len() as int;
            &&& d.len() == n + 3
            &&& target_of(d[shorts[s] as int]) == Some((base + n + 1) as u32)
            &&& d[n + 1] == Op::Undef
            &&& d[n + 2] == Op::Return
            &&& d[n] == Op::Return
            &&& call_shape(code.last()) matches Some(c) ==> call_shape(d[n - 1]) == Some(
                CallShape { tail: true, ..c },
            )
            &&& forall|j: int|
                0 <= j < n - 1 && !shorts.contains(j as usize) ==> #[trigger] d[j] == rebased(
                    code,
                    base,
                )[j]
        }),
{
    let call = call_ops(code, base);
    let here = (base + call.len()) as u32;
    let p = patched(call, 0, shorts, here);
    let k = shorts[s];
    let n = code.len() as int;
    assert(shorts.contains(k));
    lemma_patched(call, shorts, here, k);
    assert(call[k as int] == rebased(code, base)[k as int]);
    assert(target_of(call[k as int]) is Some);
    let (a, b) = ((n - 1) as usize, n as usize);
    assert(!shorts.contains(a)) by {
        if shorts.contains(a) {
            let q = choose|q: int| 0 <= q < shorts.len() && shorts[q] == a;
            assert(shorts[q] < n - 1);
        }
    }
    assert(!shorts.contains(b)) by {
        if shorts.contains(b) {
            let q = choose|q: int| 0 <= q < shorts.len() && shorts[q] == b;
            assert(shorts[q] < n - 1);
        }
    }
    lemma_patched(call, shorts, here, a);
    lemma_patched(call, shorts, here, b);
    let d = optional_ops(code, shorts, base);
    assert forall|j: int| 0 <= j < n - 1 && !shorts.contains(j as usize) implies #[trigger] d[j]
        == rebased(code, base)[j] by {
        lemma_patched(call, shorts, here, j as usize);
        assert(d[j] == p[j]);
    }
}

/// Where the statement `i` of a sequence begins.
pub open spec fn stmt_at(codes: Seq<Vec<Op>>, i: int) -> int
    decreases i,
{
    if i <= 0 {
        0
    } else {
        stmt_at(codes, i - 1) + codes[i - 1]@.len()
    }
}

proof fn lemma_stmt_at_same(a: Seq<Vec<Op>>, b: Seq<Vec<Op>>, i: int)
    requires
        forall|k: int| 0 <= k < i ==> a[k] == b[k],
    ensures
        stmt_at(a, i) == stmt_at(b, i),
    decreases i,
{
    if i > 0 {
        lemma_stmt_at_same(a, b, i - 1);
    }
}

/// The operands of `,` before the last stand one after the other, in order, as statements.
pub proof fn lemma_sequences_run_in_order(base: int, codes: Seq<Vec<Op>>, i: int)
    requires
        0 <= base,
        0 <= i < codes.len(),
    ensures
        stmts_ops(base, codes).len() == stmt_at(codes, codes.len() as int),
        stmt_at(codes, i) >= 0,
        stands(
            stmts_ops(base, codes),
            stmt_at(codes, i),
            rebased(codes[i]@, base + stmt_at(codes, i)),
        ),
    decreases codes.len(),
{
    let d = codes.drop_last();
    let n = codes.len() as int;
    let init = stmts_ops(base, d);
    if d.len() > 0 {
        lemma_sequences_run_in_order(
            base,
            d,
            if i < n - 1 {
                i
            } else {
                0
            },
        );
    } else {
        assert(init.len() == 0);
    }
    assert forall|k: int| 0 <= k <= n - 1 implies stmt_at(d, k) == #[trigger] stmt_at(
        codes,
        k,
    ) by {
        assert forall|q: int| 0 <= q < k implies d[q] == codes[q] by {}
        lemma_stmt_at_same(d, codes, k);
    }
    assert(stmt_at(codes, n - 1) == init.len());
    assert(codes.last() == codes[n - 1]);
    let s = stmts_ops(base, codes);
    assert(s.len() == init.len() + codes[n - 1]@.len());
    assert(stmt_at(codes, n) == stmt_at(codes, n - 1) + codes[n - 1]@.len());
    let at = stmt_at(codes, i);
    let c = rebased(codes[i]@, base + at);
    if i < n - 1 {
        assert(d[i] == codes[i]);
        assert(s.subrange(at, at + c.len()) =~= init.subrange(at, at + c.len()));
    } else {
        assert(s.subrange(at, at + c.len()) =~= c);
    }
}

/// `return` of anything ends in returning: no path runs off the end of its code.
pub proof fn lemma_returns_end_in_returning(e: TailExpr, base: int)
    requires
        sound(e),
    ensures
        tail_ops(e, base).len() > 0,
        tail_ops(e, base).last() == Op::Return,
    decreases e,
{
    match e {
        TailExpr::Paren(x) => lemma_returns_end_in_returning(*x, base),
        TailExpr::Cond { test, jump, cons, alt } => {
            let t = rebased(test@, base);
            let c = tail_ops(*cons, base + t.len());
            lemma_returns_end_in_returning(*alt, base + t.len() + c.len());
        },
        TailExpr::Sequence { init, last } => {
            lemma_returns_end_in_returning(*last, base + stmts_ops(base, init@).len());
        },
        _ => {},
    }
}

/// The logical operators, by how they are written; anything else is one the compiler does not
/// know.
pub proof fn lemma_logical_operators_are_known_by_their_text(op: Seq<char>)
    ensures
        logical_op("&&"@) is And,
        logical_op("||"@) is Or,
        logical_op("??"@) is Nullish,
        op != "&&"@ && op != "||"@ && op != "??"@ ==> logical_op(op) is Unknown,
{
    reveal_strlit("&&");
    reveal_strlit("||");
    reveal_strlit("??");
    assert("&&"@[0] == '&' && "||"@[0] == '|' && "??"@[0] == '?');
}

/// How expressions stand in tail position: parentheses, conditionals, sequences and logical
/// operators by what they end in, calls as calls, and an optional chain as a call when it ends in
/// one.
pub proof fn lemma_tail_positions(e: Expr)
    ensures
        e is Paren <==> kind_of(e) is Paren,
        e is Cond <==> kind_of(e) is Cond,
        e is Call <==> kind_of(e) is Call,
        kind_of(e) is Sequence <==> (e matches Expr::Sequence(items) && items@.len() > 0),
        e matches Expr::Logical { op, left, right } ==> kind_of(e) == TailKind::Logical(
            logical_op(op@),
        ),
        kind_of(e) is Logical ==> e is Logical,
        kind_of(e) is OptionalCall <==> (e matches Expr::OptionalChain(inner) && *inner is Call),
{
}

/// An expression in tail position is lowered unless an operator that the compiler does not know
/// stands there.
pub proof fn lemma_unknown_operators_are_refused(e: TailExpr)
    ensures
        e matches TailExpr::Logical { op, left, right } ==> (known(e) <==> !(op is Unknown) && known(
            *right,
        )),
        e matches TailExpr::Paren(x) ==> known(e) == known(*x),
        e matches TailExpr::Cond { test, jump, cons, alt } ==> (known(e) <==> known(*cons) && known(
            *alt,
        )),
        e matches TailExpr::Sequence { init, last } ==> known(e) == known(*last),
        e is Call || e is OptionalCall || e is Other ==> known(e),
        e is Call <==> shape_kind(e) is Call,
        e is OptionalCall <==> shape_kind(e) is OptionalCall,
        e is Other <==> shape_kind(e) is Other,
{
}

} // verus!
