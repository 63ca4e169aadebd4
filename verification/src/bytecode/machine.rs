//! What ops do, as far as the laws on compiled code need it: a frame's locals, captured bindings
//! and operand stack, and where execution goes next.

use super::op::Op;
use crate::num::{nan, zero};
use crate::value::{big_value, Value};
use vstd::prelude::*;

verus! {

/// A frame between two ops.
pub struct Machine {
    pub pc: int,
    pub locals: Map<u16, Value>,
    /// The captured bindings, by name.
    pub caps: Map<u32, Value>,
    pub stack: Seq<Value>,
}

/// How a frame goes on after an op.
pub enum Turn {
    Next(Machine),
    /// The frame returns this.
    Returns(Value),
    /// The op is none of those that are modelled, or lacks its operands.
    Unknown,
}

/// Whether a condition takes a value for true.
pub open spec fn truthy(v: Value) -> bool {
    match v {
        Value::Undefined | Value::Empty | Value::Null => false,
        Value::Bool(b) => b,
        Value::Num(n) => !zero(n) && !nan(n),
        Value::BigInt(b) => big_value(b) != 0,
        Value::Str(s) => s@.len() > 0,
        Value::Sym(_) | Value::Obj(_) => true,
    }
}

pub open spec fn nullish(v: Value) -> bool {
    v is Undefined || v is Null
}

impl Machine {
    pub open spec fn goes(self, pc: int) -> Machine {
        Machine { pc, ..self }
    }

    pub open spec fn pushes(self, v: Value) -> Machine {
        Machine { pc: self.pc + 1, stack: self.stack.push(v), ..self }
    }

    /// The frame after `op`.
    pub open spec fn after(self, op: Op) -> Turn {
        let n = self.stack.len() as int;
        match op {
            Op::Undef => Turn::Next(self.pushes(Value::Undefined)),
            Op::LoadLocal(s) => if self.locals.contains_key(s) {
                Turn::Next(self.pushes(self.locals[s]))
            } else {
                Turn::Unknown
            },
            Op::Jump(t) => Turn::Next(self.goes(t as int)),
            _ => if n == 0 {
                Turn::Unknown
            } else {
                let v = self.stack.last();
                let popped = Machine { pc: self.pc + 1, stack: self.stack.drop_last(), ..self };
                match op {
                    Op::Pop => Turn::Next(popped),
                    Op::StoreLocal(s) => Turn::Next(
                        Machine { locals: self.locals.insert(s, v), ..popped },
                    ),
                    Op::StoreCap(c) => Turn::Next(
                        Machine { caps: self.caps.insert(c, v), ..popped },
                    ),
                    Op::Return => Turn::Returns(v),
                    // Only the comparison with `undefined` is modelled.
                    Op::StrictEq => if n >= 2 && v is Undefined {
                        Turn::Next(
                            Machine {
                                stack: popped.stack.drop_last().push(
                                    Value::Bool(self.stack[n - 2] is Undefined),
                                ),
                                ..popped
                            },
                        )
                    } else {
                        Turn::Unknown
                    },
                    Op::JumpIfFalse(t) => Turn::Next(
                        if truthy(v) {
                            popped
                        } else {
                            popped.goes(t as int)
                        },
                    ),
                    Op::JumpIfFalsePeek(t) => Turn::Next(
                        if truthy(v) {
                            self.goes(self.pc + 1)
                        } else {
                            self.goes(t as int)
                        },
                    ),
                    Op::JumpIfTruePeek(t) => Turn::Next(
                        if truthy(v) {
                            self.goes(t as int)
                        } else {
                            self.goes(self.pc + 1)
                        },
                    ),
                    Op::JumpIfNotNullishPeek(t) => Turn::Next(
                        if nullish(v) {
                            self.goes(self.pc + 1)
                        } else {
                            self.goes(t as int)
                        },
                    ),
                    _ => Turn::Unknown,
                }
            },
        }
    }

    /// The frame after the op that it is at.
    pub open spec fn step(self, ops: Seq<Op>) -> Turn {
        if 0 <= self.pc < ops.len() {
            self.after(ops[self.pc])
        } else {
            Turn::Unknown
        }
    }

    /// The frame `n` ops on.
    pub open spec fn run(self, ops: Seq<Op>, n: nat) -> Turn
        decreases n,
    {
        if n == 0 {
            Turn::Next(self)
        } else {
            match self.step(ops) {
                Turn::Next(m) => m.run(ops, (n - 1) as nat),
                t => t,
            }
        }
    }

    /// The frame gets to `to`.
    pub open spec fn reaches(self, ops: Seq<Op>, to: Machine) -> bool {
        exists|n: nat| #[trigger] self.run(ops, n) == Turn::Next(to)
    }

    /// The frame gets to returning `v`.
    pub open spec fn gives(self, ops: Seq<Op>, v: Value) -> bool {
        exists|n: nat| #[trigger] self.run(ops, n) == Turn::Returns(v)
    }
}

/// `code` stands in `ops` at `at`.
pub open spec fn stands(ops: Seq<Op>, at: int, code: Seq<Op>) -> bool {
    0 <= at && at + code.len() <= ops.len() && ops.subrange(at, at + code.len()) == code
}

pub proof fn lemma_run_on(m: Machine, ops: Seq<Op>, a: nat, mid: Machine, b: nat)
    requires
        m.run(ops, a) == Turn::Next(mid),
    ensures
        m.run(ops, a + b) == mid.run(ops, b),
    decreases a,
{
    if a > 0 {
        let next = m.step(ops)->Next_0;
        lemma_run_on(next, ops, (a - 1) as nat, mid, b);
        assert((a + b - 1) as nat == (a - 1) as nat + b);
    }
}

/// Getting somewhere and on from there.
pub proof fn lemma_reaches_on(m: Machine, ops: Seq<Op>, mid: Machine)
    requires
        m.reaches(ops, mid),
    ensures
        forall|to: Machine| #[trigger] mid.reaches(ops, to) ==> m.reaches(ops, to),
        forall|v: Value| #[trigger] mid.gives(ops, v) ==> m.gives(ops, v),
{
    let a = choose|n: nat| #[trigger] m.run(ops, n) == Turn::Next(mid);
    assert forall|to: Machine| #[trigger] mid.reaches(ops, to) implies m.reaches(ops, to) by {
        let b = choose|n: nat| #[trigger] mid.run(ops, n) == Turn::Next(to);
        lemma_run_on(m, ops, a, mid, b);
        assert(m.run(ops, a + b) == Turn::Next(to));
    }
    assert forall|v: Value| #[trigger] mid.gives(ops, v) implies m.gives(ops, v) by {
        let b = choose|n: nat| #[trigger] mid.run(ops, n) == Turn::Returns(v);
        lemma_run_on(m, ops, a, mid, b);
        assert(m.run(ops, a + b) == Turn::Returns(v));
    }
}

/// One op on.
pub proof fn lemma_step_on(m: Machine, ops: Seq<Op>)
    ensures
        m.reaches(ops, m),
        m.step(ops) matches Turn::Next(to) ==> m.reaches(ops, to),
        m.step(ops) matches Turn::Returns(v) ==> m.gives(ops, v),
{
    reveal_with_fuel(Machine::run, 3);
    assert(m.run(ops, 0) == Turn::Next(m));
    if let Turn::Next(to) = m.step(ops) {
        assert(to.run(ops, 0) == Turn::Next(to));
        assert(m.run(ops, 1) == Turn::Next(to));
    }
    if let Turn::Returns(v) = m.step(ops) {
        assert(m.run(ops, 1) == Turn::Returns(v));
    }
}

/// The call that an op makes.
pub struct CallShape {
    /// The operand: how many arguments, or where the spread call stands.
    pub site: u16,
    /// The arguments are spread from an array.
    pub spread: bool,
    /// The receiver is on the stack, under the callee.
    pub receiver: bool,
    /// The callee takes the frame's place.
    pub tail: bool,
}

/// The call that an op makes, where it makes one.
pub open spec fn call_shape(op: Op) -> Option<CallShape> {
    match op {
        Op::Call(n) => Some(CallShape { site: n, spread: false, receiver: false, tail: false }),
        Op::CallWithThis(n) => Some(
            CallShape { site: n, spread: false, receiver: true, tail: false },
        ),
        Op::CallSpread(n) => Some(CallShape { site: n, spread: true, receiver: false, tail: false }),
        Op::CallSpreadThis(n) => Some(
            CallShape { site: n, spread: true, receiver: true, tail: false },
        ),
        Op::TailCall(n, this) => Some(
            CallShape { site: n, spread: false, receiver: this, tail: true },
        ),
        Op::TailCallSpread(n, this) => Some(
            CallShape { site: n, spread: true, receiver: this, tail: true },
        ),
        _ => None,
    }
}

} // verus!
