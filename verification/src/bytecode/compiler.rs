//! The compiler's op buffer.

use super::op::Op;
use super::switch_table::{retarget, target_of};
use vstd::prelude::*;

verus! {

/// The compiler gave up on a function: it stays on the tree-walker.
#[derive(Clone, Copy, Debug, PartialEq, Eq, Structural)]
pub struct Bail;

/// A loop being compiled.
#[derive(Clone, Copy, Debug, PartialEq, Eq, Structural)]
pub struct LoopCx {
    /// The slot of the iterator that a `for`-`of` loop closes on the way out.
    pub foreach_iter: Option<u16>,
}

/// A function being compiled.
pub struct Compiler {
    pub ops: Vec<Op>,
    /// Proper tail calls are on.
    pub tail_calls: bool,
    pub strict: bool,
    pub generator: bool,
    /// A derived constructor.
    pub derived: bool,
    /// Enclosing `try` blocks.
    pub try_depth: usize,
    /// Enclosing blocks with a `finally`.
    pub finallys: usize,
    /// Enclosing loops.
    pub loops: Vec<LoopCx>,
}

/// The largest op index that a jump can name.
pub const MAX_OPS: usize = 0x7fff_ffff;

/// Code placed at `base`: its jumps, which count from its own start, moved along.
pub open spec fn rebased(code: Seq<Op>, base: int) -> Seq<Op> {
    code.map_values(|op: Op| retarget(op, |t: u32| (t + base) as u32))
}

/// Jumps of `code` stay within it.
pub open spec fn code_fits(code: Seq<Op>) -> bool {
    code.len() <= MAX_OPS && forall|i: int|
        0 <= i < code.len() ==> (target_of(#[trigger] code[i]) matches Some(t) ==> t <= code.len())
}

/// The compiler is as it was but for its ops.
pub open spec fn same_but_ops(a: Compiler, b: Compiler) -> bool {
    &&& a.tail_calls == b.tail_calls
    &&& a.strict == b.strict
    &&& a.generator == b.generator
    &&& a.derived == b.derived
    &&& a.try_depth == b.try_depth
    &&& a.finallys == b.finallys
    &&& a.loops == b.loops
}

fn shift(op: Op, base: u32) -> (r: Op)
    requires
        target_of(op) matches Some(t) ==> t + base <= u32::MAX,
    ensures
        r == retarget(op, |t: u32| (t + base) as u32),
{
    match op {
        Op::Jump(t) => Op::Jump(t + base),
        Op::JumpIfFalse(t) => Op::JumpIfFalse(t + base),
        Op::JumpIfNotCmp(k, t) => Op::JumpIfNotCmp(k, t + base),
        Op::JumpIfNotCmpLL(k, a, b, t) => Op::JumpIfNotCmpLL(k, a, b, t + base),
        Op::JumpIfNotCmpLK(k, a, b, t) => Op::JumpIfNotCmpLK(k, a, b, t + base),
        Op::JumpIfFalsePeek(t) => Op::JumpIfFalsePeek(t + base),
        Op::JumpIfTruePeek(t) => Op::JumpIfTruePeek(t + base),
        Op::JumpIfNotNullishPeek(t) => Op::JumpIfNotNullishPeek(t + base),
        Op::PushHandler(t) => Op::PushHandler(t + base),
        _ => op,
    }
}

impl Compiler {
    /// Appends an op: its index.
    pub fn emit(&mut self, op: Op) -> (r: usize)
        ensures
            r == old(self).ops@.len(),
            final(self).ops@ == old(self).ops@.push(op),
            same_but_ops(*final(self), *old(self)),
    {
        let at: usize = self.ops.len();
        self.ops.push(op);
        at
    }

    /// Makes the jump at `at` go to the next op.
    pub fn patch(&mut self, at: usize)
        requires
            at < old(self).ops@.len() <= u32::MAX,
        ensures
            final(self).ops@ == old(self).ops@.update(
                at as int,
                retarget(old(self).ops@[at as int], |t: u32| old(self).ops@.len() as u32),
            ),
            same_but_ops(*final(self), *old(self)),
    {
        let here: u32 = self.ops.len() as u32;
        let op: Op = match self.ops[at] {
            Op::Jump(_) => Op::Jump(here),
            Op::JumpIfFalse(_) => Op::JumpIfFalse(here),
            Op::JumpIfNotCmp(k, _) => Op::JumpIfNotCmp(k, here),
            Op::JumpIfNotCmpLL(k, a, b, _) => Op::JumpIfNotCmpLL(k, a, b, here),
            Op::JumpIfNotCmpLK(k, a, b, _) => Op::JumpIfNotCmpLK(k, a, b, here),
            Op::JumpIfFalsePeek(_) => Op::JumpIfFalsePeek(here),
            Op::JumpIfTruePeek(_) => Op::JumpIfTruePeek(here),
            Op::JumpIfNotNullishPeek(_) => Op::JumpIfNotNullishPeek(here),
            Op::PushHandler(_) => Op::PushHandler(here),
            other => other,
        };
        self.ops.set(at, op);
    }

    /// Appends code compiled on its own.
    pub fn splice(&mut self, code: &Vec<Op>)
        requires
            code_fits(code@),
            old(self).ops@.len() <= MAX_OPS,
        ensures
            final(self).ops@ == old(self).ops@ + rebased(code@, old(self).ops@.len() as int),
            same_but_ops(*final(self), *old(self)),
    {
        let ghost o0 = self.ops@;
        let base: u32 = self.ops.len() as u32;
        let ghost all = rebased(code@, base as int);
        let mut i: usize = 0;
        assert(o0 + all.take(0) =~= o0);
        while i < code.len()
            invariant
                i <= code@.len(),
                code_fits(code@),
                base <= MAX_OPS,
                base == o0.len(),
                o0 == old(self).ops@,
                all == rebased(code@, base as int),
                self.ops@ == o0 + all.take(i as int),
                same_but_ops(*self, *old(self)),
            decreases code@.len() - i,
        {
            let op: Op = code[i];
            self.ops.push(shift(op, base));
            i = i + 1;
            assert(self.ops@ =~= o0 + all.take(i as int));
        }
        assert(all.take(i as int) =~= all);
    }
}

} // verus!
