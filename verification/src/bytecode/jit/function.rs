//! The whole-function tier: native code entered at pc 0.

use crate::bytecode::jit::tier::{
    no_direct, ChunkJit, Direct, FnTier, FuncState, Kind, Native, Plan, CALL_MASK, DEOPT_LIMIT,
    FN_CALLS_PER_OP, MAX_COMPILES, MAX_DEOPT_PCS, MAX_ENTRY_FAILS,
};
use crate::bytecode::op::Op;
use crate::value::Value;
use vstd::prelude::*;

verus! {

/// Shadow-stack bytes of a call record.
pub const REC_BYTES: usize = 48;

/// Shadow-stack bytes of a frame's header, a multiple of 16.
pub const FRAME_HDR: usize = 160;

/// Bytes of a value in memory.
pub const VALUE_SIZE: usize = 16;

/// Shadow-stack bytes of a directly called frame: call record, header, slots and operand area.
pub open spec fn frame_size(n_slots: usize, max_stack: usize) -> int {
    REC_BYTES + FRAME_HDR + (n_slots + if max_stack == 0 {
        1
    } else {
        max_stack as int
    }) * VALUE_SIZE
}

/// Shadow-stack bytes of a directly called frame.
pub fn frame_bytes(n_slots: usize, max_stack: usize) -> (r: usize)
    requires
        frame_size(n_slots, max_stack) <= usize::MAX,
    ensures
        r == frame_size(n_slots, max_stack),
{
    let area: usize = if max_stack == 0 {
        1
    } else {
        max_stack
    };
    REC_BYTES + FRAME_HDR + (n_slots + area) * VALUE_SIZE
}

/// What the interpreter reports of a resume exit: whether a typed-array site wants a view cache,
/// and whether a number speculation is noted as failed.
pub struct ExitNotes {
    pub ta_exit: bool,
    pub num_exit: bool,
}

/// Whether the exit at `pc` says that a guarded site stopped holding.
pub open spec fn site_stopped(n: Native, pc: usize, notes: ExitNotes) -> bool {
    n.guarded@.contains(pc) || (n.num_exits@.contains(pc) && notes.num_exit) || notes.ta_exit
}

/// The state after dropping the function code: recompile at the next entry, or stay interpreted
/// when out of compiles. The code is kept for frames that still run it.
pub open spec fn retired_state(j: ChunkJit, k: ChunkJit) -> bool {
    &&& k.func.code is None
    &&& k.func.retired@ == match j.func.code {
        Some(n) => j.func.retired@.push(n),
        None => j.func.retired@,
    }
    &&& k.func.entry_fails == 0
    &&& k.func.deopts@.len() == 0
    &&& k.func.compiles == j.func.compiles
    &&& k.direct == no_direct()
    &&& k.fstate == if j.func.compiles >= MAX_COMPILES {
        FnTier::Dead
    } else {
        FnTier::Pending
    }
    &&& same_but_func(k, j)
}

/// The two states agree on everything but the function tier.
pub open spec fn same_but_func(a: ChunkJit, b: ChunkJit) -> bool {
    a == ChunkJit { fstate: a.fstate, func: a.func, direct: a.direct, calls: a.calls, ..b }
}

/// `widen` grown to `n` entries.
pub open spec fn grown(widen: Seq<bool>, n: nat) -> Seq<bool> {
    if widen.len() < n {
        widen + Seq::new((n - widen.len()) as nat, |i: int| false)
    } else {
        widen
    }
}

/// Whether slot `s` holds a value of another kind than the code was compiled for.
pub open spec fn kind_moved(kinds: Seq<Kind>, slots: Seq<Value>, s: int) -> bool {
    s < kinds.len() && kinds[s] != Kind::Boxed && s < slots.len() && Kind::spec_of(slots[s])
        != kinds[s]
}

/// The slots widened after entry failures.
pub open spec fn widened_by_entry(
    widen: Seq<bool>,
    kinds: Seq<Kind>,
    slots: Seq<Value>,
) -> Seq<bool> {
    let g = grown(widen, kinds.len());
    Seq::new(g.len(), |s: int| g[s] || kind_moved(kinds, slots, s))
}

/// Whether widening slot `s` would change what is compiled.
pub open spec fn speculated(kinds: Seq<Kind>, s: int) -> bool {
    0 <= s < kinds.len() && kinds[s] != Kind::Boxed
}

/// The slots widened because the ops that use `used` keep exiting.
pub open spec fn widened_by_use(widen: Seq<bool>, kinds: Seq<Kind>, used: Seq<u32>) -> Seq<bool> {
    let g = grown(widen, kinds.len());
    Seq::new(g.len(), |s: int| g[s] || (speculated(kinds, s) && used.contains(s as u32)))
}

/// The index of `pc` among the counted exits, or the length.
pub open spec fn deopt_index(deopts: Seq<(u32, u32)>, pc: u32) -> nat
    decreases deopts.len(),
{
    if deopts.len() == 0 || deopts[0].0 == pc {
        0
    } else {
        1 + deopt_index(deopts.drop_first(), pc)
    }
}

/// The exits with one more counted at `pc`; `None` when a new pc finds the table full.
pub open spec fn counted(deopts: Seq<(u32, u32)>, pc: u32) -> Option<(Seq<(u32, u32)>, u32)> {
    let k = deopt_index(deopts, pc) as int;
    if k < deopts.len() {
        let c = if deopts[k].1 == u32::MAX {
            u32::MAX
        } else {
            (deopts[k].1 + 1) as u32
        };
        Some((deopts.update(k, (pc, c)), c))
    } else if deopts.len() < MAX_DEOPT_PCS {
        Some((deopts.push((pc, 1u32)), 1u32))
    } else {
        None
    }
}

proof fn lemma_deopt_index_is(deopts: Seq<(u32, u32)>, pc: u32, k: int)
    requires
        0 <= k <= deopts.len(),
        k < deopts.len() ==> deopts[k].0 == pc,
        forall|i: int| 0 <= i < k ==> (#[trigger] deopts[i]).0 != pc,
    ensures
        deopt_index(deopts, pc) == k,
    decreases deopts.len(),
{
    if k > 0 {
        assert(deopts[0].0 != pc);
        let d = deopts.drop_first();
        assert forall|i: int| 0 <= i < k - 1 implies (#[trigger] d[i]).0 != pc by {
            assert(d[i] == deopts[i + 1]);
        }
        lemma_deopt_index_is(d, pc, k - 1);
    }
}

fn contains_pc(pcs: &Vec<usize>, pc: usize) -> (r: bool)
    ensures
        r == pcs@.contains(pc),
{
    let mut i: usize = 0;
    while i < pcs.len()
        invariant
            i <= pcs@.len(),
            forall|j: int| 0 <= j < i ==> pcs@[j] != pc,
        decreases pcs@.len() - i,
    {
        if pcs[i] == pc {
            assert(pcs@[i as int] == pc);
            return true;
        }
        i = i + 1;
    }
    false
}

fn contains_slot(used: &Vec<u32>, s: u32) -> (r: bool)
    ensures
        r == used@.contains(s),
{
    let mut i: usize = 0;
    while i < used.len()
        invariant
            i <= used@.len(),
            forall|j: int| 0 <= j < i ==> used@[j] != s,
        decreases used@.len() - i,
    {
        if used[i] == s {
            assert(used@[i as int] == s);
            return true;
        }
        i = i + 1;
    }
    false
}

/// Whether the exit at `pc` says that a guarded site stopped holding.
pub fn stopped(n: &Native, pc: usize, notes: &ExitNotes) -> (r: bool)
    ensures
        r == site_stopped(*n, pc, *notes),
{
    contains_pc(&n.guarded, pc) || (contains_pc(&n.num_exits, pc) && notes.num_exit)
        || notes.ta_exit
}

impl FuncState {
    fn grow_widen(&mut self, n: usize)
        ensures
            *final(self) == (FuncState { widen: final(self).widen, ..*old(self) }),
            final(self).widen@ == grown(old(self).widen@, n as nat),
    {
        let ghost w0 = self.widen@;
        while self.widen.len() < n
            invariant
                w0.len() <= self.widen@.len(),
                self.widen@.len() <= n || self.widen@.len() == w0.len(),
                self.widen@ == w0 + Seq::new(
                    (self.widen@.len() - w0.len()) as nat,
                    |i: int| false,
                ),
                *self == (FuncState { widen: self.widen, ..*old(self) }),
            decreases n - self.widen@.len(),
        {
            self.widen.push(false);
            assert(self.widen@ =~= w0 + Seq::new(
                (self.widen@.len() - w0.len()) as nat,
                |i: int| false,
            ));
        }
        assert(self.widen@ =~= grown(w0, n as nat));
    }

    /// Counts an exit at `pc`.
    fn count_exit(&mut self, pc: u32) -> (r: Option<u32>)
        requires
            old(self).deopts@.len() <= MAX_DEOPT_PCS,
        ensures
            *final(self) == (FuncState { deopts: final(self).deopts, ..*old(self) }),
            final(self).deopts@.len() <= MAX_DEOPT_PCS,
            match counted(old(self).deopts@, pc) {
                Some((d, c)) => final(self).deopts@ == d && r == Some(c),
                None => final(self).deopts@ == old(self).deopts@ && r is None,
            },
    {
        let mut k: usize = 0;
        while k < self.deopts.len() && self.deopts[k].0 != pc
            invariant
                k <= self.deopts@.len(),
                forall|i: int| 0 <= i < k ==> (#[trigger] self.deopts@[i]).0 != pc,
            decreases self.deopts@.len() - k,
        {
            k = k + 1;
        }
        proof {
            lemma_deopt_index_is(self.deopts@, pc, k as int);
        }
        if k < self.deopts.len() {
            let n: u32 = self.deopts[k].1;
            let c: u32 = if n == u32::MAX {
                n
            } else {
                n + 1
            };
            self.deopts.set(k, (pc, c));
            return Some(c);
        }
        if self.deopts.len() >= MAX_DEOPT_PCS {
            return None;
        }
        self.deopts.push((pc, 1));
        Some(1)
    }
}

impl ChunkJit {
    /// The check at a frame's entry: counts the call, unless code runs anyway, and says whether
    /// there is anything to do.
    pub fn entry_due(&mut self, eager: bool) -> (r: bool)
        ensures
            if old(self).fstate == FnTier::Code {
                r && *final(self) == *old(self)
            } else {
                &&& *final(self) == ChunkJit {
                    calls: old(self).calls.wrapping_add(1),
                    ..*old(self)
                }
                &&& r == (old(self).fstate != FnTier::Dead && (final(self).calls & CALL_MASK == 0
                    || old(self).fstate == FnTier::Pending || old(self).has_code || eager))
            },
    {
        if self.fstate == FnTier::Code {
            return true;
        }
        let c: u32 = self.calls.wrapping_add(1);
        self.calls = c;
        self.fstate != FnTier::Dead && (c & CALL_MASK == 0 || self.fstate == FnTier::Pending
            || self.has_code || eager)
    }

    /// What an entry of a frame comes to, and the tier state after it.
    pub open spec fn entered(
        self,
        n_ops: usize,
        pc: usize,
        stack_empty: bool,
        enabled: bool,
        eager: bool,
    ) -> (Plan, ChunkJit) {
        let waits = self.fstate == FnTier::Cold && !eager && self.calls / FN_CALLS_PER_OP < n_ops;
        match self.fstate {
            FnTier::Code => (Plan::Run, self),
            FnTier::Dead => (Plan::Interpret, self),
            _ => if !enabled || pc != 0 || !stack_empty || waits {
                (Plan::Interpret, self)
            } else if self.func.compiles >= MAX_COMPILES {
                (Plan::Interpret, ChunkJit { fstate: FnTier::Dead, ..self })
            } else {
                (
                    Plan::Compile,
                    ChunkJit {
                        func: FuncState {
                            compiles: (self.func.compiles + 1) as u32,
                            ..self.func
                        },
                        ..self
                    },
                )
            },
        }
    }

    /// The hook at a frame's entry. A cold function waits until it has made enough calls for its
    /// size; a pending one is compiled now. `Compile` counts the attempt.
    pub fn on_entry(
        &mut self,
        n_ops: usize,
        pc: usize,
        stack_empty: bool,
        enabled: bool,
        eager: bool,
    ) -> (r: Plan)
        requires
            old(self).wf(),
        ensures
            final(self).wf(),
            (r, *final(self)) == old(self).entered(n_ops, pc, stack_empty, enabled, eager),
    {
        match self.fstate {
            FnTier::Code => Plan::Run,
            FnTier::Dead => Plan::Interpret,
            _ => {
                if !enabled || pc != 0 || !stack_empty {
                    return Plan::Interpret;
                }
                if self.fstate == FnTier::Cold && !eager && ((self.calls / FN_CALLS_PER_OP)
                    as usize) < n_ops {
                    return Plan::Interpret;
                }
                if self.func.compiles >= MAX_COMPILES {
                    self.fstate = FnTier::Dead;
                    return Plan::Interpret;
                }
                self.func.compiles = self.func.compiles + 1;
                Plan::Compile
            },
        }
    }

    /// What came of compiling the function: its code, which direct calls then see, or none,
    /// after which it is never compiled.
    pub fn fn_built(&mut self, n_slots: usize, built: Option<Native>) -> (r: Plan)
        requires
            old(self).wf(),
            old(self).func.code is None,
            match built {
                Some(n) => frame_size(n_slots, n.max_stack) <= usize::MAX,
                None => true,
            },
        ensures
            final(self).wf(),
            same_but_func(*final(self), *old(self)),
            final(self).calls == old(self).calls,
            final(self).func.compiles == old(self).func.compiles,
            final(self).func.widen@ == old(self).func.widen@,
            final(self).func.retired@ == old(self).func.retired@,
            match built {
                Some(n) => {
                    &&& r == Plan::Run
                    &&& final(self).fstate == FnTier::Code
                    &&& final(self).func.code == built
                    &&& final(self).func.entry_fails == 0
                    &&& final(self).func.deopts@.len() == 0
                    &&& final(self).direct == Direct {
                        entry: n.entry,
                        size: frame_size(n_slots, n.max_stack) as usize,
                        code: n.id,
                    }
                },
                None => {
                    &&& r == Plan::Interpret
                    &&& *final(self) == ChunkJit { fstate: FnTier::Dead, ..*old(self) }
                },
            },
    {
        match built {
            Some(n) => {
                self.direct = Direct {
                    entry: n.entry,
                    size: frame_bytes(n_slots, n.max_stack),
                    code: n.id,
                };
                self.func.code = Some(n);
                self.func.entry_fails = 0;
                self.func.deopts = Vec::new();
                self.fstate = FnTier::Code;
                Plan::Run
            },
            None => {
                self.fstate = FnTier::Dead;
                Plan::Interpret
            },
        }
    }

    /// Drops the function code (see [`retired_state`]).
    pub fn retire_fn(&mut self)
        requires
            old(self).wf(),
        ensures
            final(self).wf(),
            retired_state(*old(self), *final(self)),
            final(self).func.widen@ == old(self).func.widen@,
            final(self).calls == old(self).calls,
    {
        self.direct = Direct { entry: 0, size: 0, code: 0 };
        let old_code = self.func.code.take();
        if let Some(n) = old_code {
            self.func.retired.push(n);
        }
        self.func.entry_fails = 0;
        self.func.deopts = Vec::new();
        self.fstate = if self.func.compiles >= MAX_COMPILES {
            FnTier::Dead
        } else {
            FnTier::Pending
        };
    }

    /// The function code's entry guards failed: after enough failures, recompile with the slots
    /// whose kind moved kept boxed.
    pub fn fn_entry_failed(&mut self, slots: &[Value], native: &Native)
        requires
            old(self).wf(),
        ensures
            final(self).wf(),
            final(self).calls == old(self).calls,
            entry_failed_effect(*old(self), *final(self), slots@, native.kinds@),
    {
        if self.func.entry_fails + 1 < MAX_ENTRY_FAILS {
            self.func.entry_fails = self.func.entry_fails + 1;
            return;
        }
        let n: usize = native.kinds.len();
        self.func.grow_widen(n);
        let ghost g = self.func.widen@;
        let ghost w0 = old(self).func.widen@;
        let mut s: usize = 0;
        while s < n
            invariant
                s <= n,
                n == native.kinds@.len(),
                g == grown(w0, n as nat),
                self.func.widen@.len() == g.len(),
                g.len() >= n,
                w0 == old(self).func.widen@,
                forall|j: int|
                    0 <= j < g.len() ==> #[trigger] self.func.widen@[j] == (g[j] || (j < s
                        && kind_moved(native.kinds@, slots@, j))),
                *self == (ChunkJit {
                    func: FuncState { widen: self.func.widen, ..old(self).func },
                    ..*old(self)
                }),
            decreases n - s,
        {
            if native.kinds[s] != Kind::Boxed && s < slots.len() && Kind::of(&slots[s])
                != native.kinds[s] {
                self.func.widen.set(s, true);
            }
            s = s + 1;
        }
        assert(self.func.widen@ =~= widened_by_entry(w0, native.kinds@, slots@));
        self.retire_fn();
    }

    /// A resume exit of function code at `pc`. `used` are the slots that the op at `pc` and the
    /// op before it use. An `await` always exits, and says nothing. A guarded site that stopped
    /// holding retires the code that still stands; otherwise the exits are counted, and the
    /// one that reaches the limit widens the slots used there, if that changes anything.
    pub fn fn_deopt(
        &mut self,
        ops: &Vec<Op>,
        pc: u32,
        native: &Native,
        notes: &ExitNotes,
        used: &Vec<u32>,
    )
        requires
            old(self).wf(),
            native.kinds@.len() <= u32::MAX,
        ensures
            final(self).wf(),
            final(self).calls == old(self).calls,
            deopt_effect(*old(self), *final(self), ops@, pc, *native, *notes, used@),
    {
        let at: usize = pc as usize;
        if at < ops.len() {
            if let Op::Await = ops[at] {
                return;
            }
        }
        let current = match &self.func.code {
            Some(c) => c.id == native.id,
            None => false,
        };
        if stopped(native, at, notes) && current {
            self.retire_fn();
            return;
        }
        let count = self.func.count_exit(pc);
        let c: u32 = match count {
            Some(c) => c,
            None => {
                return;
            },
        };
        if c != DEOPT_LIMIT {
            return;
        }
        let n: usize = native.kinds.len();
        self.func.grow_widen(n);
        let ghost w0 = old(self).func.widen@;
        let ghost g = self.func.widen@;
        let ghost after = *self;
        let mut widened = false;
        let mut s: usize = 0;
        while s < n
            invariant
                s <= n,
                n == native.kinds@.len(),
                n <= u32::MAX,
                g == grown(w0, n as nat),
                g.len() >= n,
                self.func.widen@.len() == g.len(),
                *self == (ChunkJit {
                    func: FuncState { widen: self.func.widen, ..after.func },
                    ..after
                }),
                forall|j: int|
                    0 <= j < g.len() ==> #[trigger] self.func.widen@[j] == (g[j] || (j < s
                        && speculated(native.kinds@, j) && used@.contains(j as u32))),
                widened <==> exists|j: int|
                    0 <= j < s && #[trigger] speculated(native.kinds@, j) && used@.contains(
                        j as u32,
                    ) && !g[j],
            decreases n - s,
        {
            let hit = native.kinds[s] != Kind::Boxed && contains_slot(used, s as u32);
            assert(hit == (speculated(native.kinds@, s as int) && used@.contains(s as u32)));
            if hit && !self.func.widen[s] {
                self.func.widen.set(s, true);
                widened = true;
                assert(speculated(native.kinds@, s as int) && !g[s as int]);
            }
            s = s + 1;
        }
        assert(self.func.widen@ =~= widened_by_use(w0, native.kinds@, used@));
        proof {
            if widened {
                let j = choose|j: int|
                    0 <= j < s && #[trigger] speculated(native.kinds@, j) && used@.contains(
                        j as u32,
                    ) && !g[j];
                assert(widened_by_use(w0, native.kinds@, used@)[j] != g[j]);
            } else {
                assert(widened_by_use(w0, native.kinds@, used@) =~= g);
            }
        }
        if widened {
            self.retire_fn();
        }
    }

    /// Whether an async body continuing at `pc` may enter its function code there.
    pub fn resume_due(&self, ops: &Vec<Op>, pc: usize) -> (r: bool)
        ensures
            r == (self.fstate == FnTier::Code && 0 < pc <= ops@.len() && ops@[pc - 1]
                == Op::Await),
    {
        if self.fstate != FnTier::Code || pc == 0 || pc - 1 >= ops.len() {
            return false;
        }
        match ops[pc - 1] {
            Op::Await => true,
            _ => false,
        }
    }

    /// The resume point of the function code at `pc` with `depth` operands: 1 plus its index.
    pub fn on_resume(&self, pc: usize, depth: usize) -> (r: Option<u64>)
        ensures
            match self.func.code {
                None => r is None,
                Some(n) => match r {
                    Some(k) => {
                        &&& 1 <= k <= n.resumes@.len()
                        &&& n.resumes@[k - 1] == (pc, depth)
                        &&& forall|i: int| 0 <= i < k - 1 ==> n.resumes@[i] != (pc, depth)
                    },
                    None => !n.resumes@.contains((pc, depth)),
                },
            },
    {
        match &self.func.code {
            None => None,
            Some(n) => {
                let mut k: usize = 0;
                while k < n.resumes.len()
                    invariant
                        k <= n.resumes@.len(),
                        self.func.code == Some(*n),
                        forall|i: int| 0 <= i < k ==> n.resumes@[i] != (pc, depth),
                    decreases n.resumes@.len() - k,
                {
                    let (q, d) = n.resumes[k];
                    if q == pc && d == depth {
                        return Some(k as u64 + 1);
                    }
                    k = k + 1;
                }
                None
            },
        }
    }

    /// The function code when a native call helper can run it: compiled, with slots few enough
    /// for the machine stack.
    pub fn native_code(&self, n_slots: usize, limit: usize) -> (r: Option<&Native>)
        ensures
            match r {
                Some(n) => self.fstate == FnTier::Code && n_slots <= limit && self.func.code
                    == Some(*n),
                None => self.fstate != FnTier::Code || n_slots > limit || self.func.code is None,
            },
    {
        if self.fstate != FnTier::Code || n_slots > limit {
            return None;
        }
        match &self.func.code {
            Some(n) => Some(n),
            None => None,
        }
    }

    /// The code whose entry is `entry`, current or retired.
    pub fn find_native(&self, entry: u64) -> (r: Option<&Native>)
        ensures
            match r {
                Some(n) => n.entry == entry && (self.func.code == Some(*n)
                    || self.func.retired@.contains(*n)),
                None => (match self.func.code {
                    Some(n) => n.entry != entry,
                    None => true,
                }) && forall|i: int|
                    0 <= i < self.func.retired@.len() ==> (#[trigger] self.func.retired@[i]).entry
                        != entry,
            },
            match self.func.code {
                Some(n) => n.entry == entry ==> r == Some(&n),
                None => true,
            },
    {
        if let Some(n) = &self.func.code {
            if n.entry == entry {
                return Some(n);
            }
        }
        let mut i: usize = 0;
        while i < self.func.retired.len()
            invariant
                i <= self.func.retired@.len(),
                match self.func.code {
                    Some(n) => n.entry != entry,
                    None => true,
                },
                forall|j: int|
                    0 <= j < i ==> (#[trigger] self.func.retired@[j]).entry != entry,
            decreases self.func.retired@.len() - i,
        {
            if self.func.retired[i].entry == entry {
                assert(self.func.retired@.contains(self.func.retired@[i as int]));
                return Some(&self.func.retired[i]);
            }
            i = i + 1;
        }
        None
    }
}

/// What a failed entry guard does to the function tier.
pub open spec fn entry_failed_effect(
    j: ChunkJit,
    k: ChunkJit,
    slots: Seq<Value>,
    kinds: Seq<Kind>,
) -> bool {
    if j.func.entry_fails + 1 < MAX_ENTRY_FAILS {
        k == ChunkJit {
            func: FuncState { entry_fails: (j.func.entry_fails + 1) as u32, ..j.func },
            ..j
        }
    } else {
        retired_state(j, k) && k.func.widen@ == widened_by_entry(j.func.widen@, kinds, slots)
    }
}

/// What a resume exit does to the function tier.
pub open spec fn deopt_effect(
    j: ChunkJit,
    k: ChunkJit,
    ops: Seq<Op>,
    pc: u32,
    native: Native,
    notes: ExitNotes,
    used: Seq<u32>,
) -> bool {
    let current = j.func.code matches Some(c) && c.id == native.id;
    let w = widened_by_use(j.func.widen@, native.kinds@, used);
    if pc < ops.len() && ops[pc as int] == Op::Await {
        k == j
    } else if site_stopped(native, pc as usize, notes) && current {
        retired_state(j, k) && k.func.widen@ == j.func.widen@
    } else {
        match counted(j.func.deopts@, pc) {
            None => k.func.deopts@ == j.func.deopts@ && k == ChunkJit {
                func: FuncState { deopts: k.func.deopts, ..j.func },
                ..j
            },
            Some((d, c)) => if c != DEOPT_LIMIT {
                &&& k.func.deopts@ == d
                &&& k == ChunkJit { func: FuncState { deopts: k.func.deopts, ..j.func }, ..j }
            } else if w != grown(j.func.widen@, native.kinds@.len()) {
                retired_state(j, k) && k.func.widen@ == w
            } else {
                &&& k.func.deopts@ == d
                &&& k.func.widen@ == w
                &&& k == ChunkJit {
                    func: FuncState { deopts: k.func.deopts, widen: k.func.widen, ..j.func },
                    ..j
                }
            },
        }
    }
}

/// A function is compiled at most a fixed number of times: a compile is counted and happens below
/// that number only; once they are used up and the code is retired the function is dead, and a
/// dead function is never compiled again.
pub proof fn lemma_compiles_are_bounded(
    j: ChunkJit,
    k: ChunkJit,
    n_ops: usize,
    pc: usize,
    stack_empty: bool,
    enabled: bool,
    eager: bool,
)
    requires
        j.wf(),
    ensures
        j.entered(n_ops, pc, stack_empty, enabled, eager).0 == Plan::Compile
            ==> j.entered(n_ops, pc, stack_empty, enabled, eager).1.func.compiles
            == j.func.compiles + 1 && j.func.compiles < MAX_COMPILES,
        j.func.compiles == MAX_COMPILES && retired_state(j, k) ==> k.fstate == FnTier::Dead,
        j.fstate == FnTier::Dead ==> j.entered(n_ops, pc, stack_empty, enabled, eager) == (
            Plan::Interpret,
            j,
        ),
{
}

} // verus!
