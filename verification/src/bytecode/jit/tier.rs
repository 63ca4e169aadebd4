//! The tier state of one chunk: which loops and whether the whole function have native code,
//! when they are looked at, and when code is retired.

use crate::value::Value;
use vstd::prelude::*;

verus! {

/// Backward jumps a chunk takes between looks at its loops, less one.
pub const TICK_MASK: u32 = 1023;

/// Entry-guard failures before code is recompiled for the new kinds.
pub const MAX_ENTRY_FAILS: u32 = 16;

/// Compilations a loop or a function gets before it stays interpreted.
pub const MAX_COMPILES: u32 = 3;

/// Calls between looks at compiling a whole function, less one.
pub const CALL_MASK: u32 = 1023;

/// Calls per bytecode op that a function makes before its first compile.
pub const FN_CALLS_PER_OP: u32 = 16;

/// Resume exits at one pc of function code before its speculation there is widened.
pub const DEOPT_LIMIT: u32 = 32;

/// The pcs at which resume exits are counted.
pub const MAX_DEOPT_PCS: usize = 64;

/// The feedback entries that a chunk keeps.
pub const MAX_FEEDBACK: usize = 256;

/// How a local or an operand is represented in native code.
#[derive(Clone, Copy, Debug, PartialEq, Eq, Structural)]
pub enum Kind {
    /// An unboxed double.
    Num,
    /// An unboxed 0 or 1.
    Bool,
    /// A value in memory.
    Boxed,
}

impl Kind {
    /// The representation that suits `v`.
    pub open spec fn spec_of(v: Value) -> Kind {
        match v {
            Value::Num(_) => Kind::Num,
            Value::Bool(_) => Kind::Bool,
            _ => Kind::Boxed,
        }
    }

    /// The representation that suits `v`.
    pub fn of(v: &Value) -> (r: Kind)
        ensures
            r == Kind::spec_of(*v),
    {
        match v {
            Value::Num(_) => Kind::Num,
            Value::Bool(_) => Kind::Bool,
            _ => Kind::Boxed,
        }
    }
}

/// The whole-function tier's state.
#[derive(Clone, Copy, Debug, PartialEq, Eq, Structural)]
pub enum FnTier {
    Cold,
    /// Native code exists: every entry runs it.
    Code,
    /// Compile at the next entry.
    Pending,
    /// Never compile.
    Dead,
}

/// Native code, as the tier knows it.
#[derive(Debug)]
pub struct Native {
    /// The identity of the compilation.
    pub id: u64,
    /// The entry's address.
    pub entry: u64,
    pub max_stack: usize,
    /// The handler sets of the region, each `(catch pc, stack depth)` outermost first.
    pub hsets: Vec<Vec<(usize, usize)>>,
    /// The representation of each slot that the code was compiled for.
    pub kinds: Vec<Kind>,
    /// The pcs of call sites guarded at every call.
    pub guarded: Vec<usize>,
    /// The resume points `(pc, operand depth)` of function code.
    pub resumes: Vec<(usize, usize)>,
    /// The pcs at which a number speculation exits.
    pub num_exits: Vec<usize>,
}

/// One loop of a chunk.
pub struct LoopState {
    pub header: u32,
    pub backedge: u32,
    pub code: Option<Native>,
    pub compiles: u32,
    pub entry_fails: u32,
}

/// The whole-function tier of one chunk.
pub struct FuncState {
    pub code: Option<Native>,
    pub compiles: u32,
    pub entry_fails: u32,
    /// The slots kept boxed on the next compile.
    pub widen: Vec<bool>,
    /// Resume exits per pc since the last compile, `(pc, count)`.
    pub deopts: Vec<(u32, u32)>,
    /// Code that directly called frames may still be running.
    pub retired: Vec<Native>,
}

/// The direct-call view of function code.
#[derive(Clone, Copy, Debug, PartialEq, Eq, Structural)]
pub struct Direct {
    /// The entry's address; 0 without code.
    pub entry: u64,
    /// The frame's size on the shadow stack, in bytes.
    pub size: usize,
    /// The identity of the code; 0 without code.
    pub code: u64,
}

/// What a compile learned about a site: the kind of the fact and the fact.
#[derive(Clone, Copy, Debug, PartialEq, Eq, Structural)]
pub struct Feedback {
    pub pc: usize,
    pub kind: u32,
    pub fact: u64,
}

/// The tier state of a chunk.
pub struct ChunkJit {
    pub ticks: u32,
    /// Whether some loop has native code.
    pub has_code: bool,
    pub loops: Vec<LoopState>,
    /// Function entries.
    pub calls: u32,
    pub fstate: FnTier,
    pub func: FuncState,
    pub direct: Direct,
    pub site_fb: Vec<Feedback>,
}

pub open spec fn no_direct() -> Direct {
    Direct { entry: 0, size: 0, code: 0 }
}

/// Whether the counter stands on a boundary.
pub open spec fn on_tick(t: u32) -> bool {
    t & TICK_MASK == 0
}

pub open spec fn is_loop(l: LoopState, header: u32, backedge: u32) -> bool {
    l.header == header && l.backedge == backedge
}

/// The index of the loop, or the length when it is not listed.
pub open spec fn loop_index(loops: Seq<LoopState>, header: u32, backedge: u32) -> nat
    decreases loops.len(),
{
    if loops.len() == 0 {
        0
    } else if is_loop(loops[0], header, backedge) {
        0
    } else {
        1 + loop_index(loops.drop_first(), header, backedge)
    }
}

pub open spec fn fresh_loop(header: u32, backedge: u32) -> LoopState {
    LoopState { header, backedge, code: None, compiles: 0, entry_fails: 0 }
}

/// The loops with the given one listed.
pub open spec fn listed(loops: Seq<LoopState>, header: u32, backedge: u32) -> Seq<LoopState> {
    if loop_index(loops, header, backedge) < loops.len() {
        loops
    } else {
        loops.push(fresh_loop(header, backedge))
    }
}

/// The loops after the entry guards of the given one failed.
pub open spec fn failed_loops(loops: Seq<LoopState>, header: u32, backedge: u32) -> Seq<
    LoopState,
> {
    let k = loop_index(loops, header, backedge) as int;
    if k < loops.len() {
        loops.update(
            k,
            LoopState {
                entry_fails: (loops[k].entry_fails + 1) as u32,
                code: if loops[k].entry_fails + 1 >= MAX_ENTRY_FAILS {
                    None
                } else {
                    loops[k].code
                },
                ..loops[k]
            },
        )
    } else {
        loops
    }
}

/// The loops without the code of the given one.
pub open spec fn retired_loops(loops: Seq<LoopState>, header: u32, backedge: u32) -> Seq<
    LoopState,
> {
    let k = loop_index(loops, header, backedge) as int;
    if k < loops.len() {
        loops.update(k, LoopState { code: None, ..loops[k] })
    } else {
        loops
    }
}

/// The given loop is listed with code, if it is listed.
pub open spec fn runs_loop(loops: Seq<LoopState>, header: u32, backedge: u32) -> bool {
    let k = loop_index(loops, header, backedge) as int;
    k < loops.len() ==> loops[k].code is Some
}

/// What the interpreter does at a backward jump.
#[derive(Clone, Copy, Debug, PartialEq, Eq, Structural)]
pub enum Plan {
    Interpret,
    /// Compile first; `loop_built` or `fn_built` takes what comes of it.
    Compile,
    Run,
}

pub proof fn lemma_loop_index(loops: Seq<LoopState>, header: u32, backedge: u32)
    ensures
        loop_index(loops, header, backedge) <= loops.len(),
        loop_index(loops, header, backedge) < loops.len() ==> is_loop(
            loops[loop_index(loops, header, backedge) as int],
            header,
            backedge,
        ),
        forall|i: int|
            0 <= i < loop_index(loops, header, backedge) ==> !is_loop(
                #[trigger] loops[i],
                header,
                backedge,
            ),
    decreases loops.len(),
{
    if loops.len() > 0 && !is_loop(loops[0], header, backedge) {
        lemma_loop_index(loops.drop_first(), header, backedge);
        let k = loop_index(loops.drop_first(), header, backedge);
        assert forall|i: int| 0 <= i < k + 1 implies !is_loop(
            #[trigger] loops[i],
            header,
            backedge,
        ) by {
            if i > 0 {
                assert(loops.drop_first()[i - 1] == loops[i]);
            }
        }
    }
}

proof fn lemma_loop_index_is(loops: Seq<LoopState>, header: u32, backedge: u32, k: int)
    requires
        0 <= k <= loops.len(),
        k < loops.len() ==> is_loop(loops[k], header, backedge),
        forall|i: int| 0 <= i < k ==> !is_loop(#[trigger] loops[i], header, backedge),
    ensures
        loop_index(loops, header, backedge) == k,
{
    lemma_loop_index(loops, header, backedge);
    let j = loop_index(loops, header, backedge);
    if j < k {
        assert(!is_loop(loops[j as int], header, backedge));
    } else if j > k {
        assert(!is_loop(loops[k], header, backedge));
    }
}

impl LoopState {
    /// Its counters are within their limits.
    pub open spec fn wf(self) -> bool {
        &&& self.compiles <= MAX_COMPILES
        &&& self.entry_fails <= MAX_ENTRY_FAILS
        &&& self.code is Some ==> self.entry_fails < MAX_ENTRY_FAILS
    }
}

impl ChunkJit {
    /// The counters are within their limits, code exists exactly in the state that says so, and
    /// the direct view is of that code.
    pub open spec fn wf(self) -> bool {
        &&& forall|i: int| 0 <= i < self.loops@.len() ==> (#[trigger] self.loops@[i]).wf()
        &&& self.func.compiles <= MAX_COMPILES
        &&& self.func.entry_fails < MAX_ENTRY_FAILS
        &&& self.func.deopts@.len() <= MAX_DEOPT_PCS
        &&& self.site_fb@.len() <= MAX_FEEDBACK
        &&& self.fstate == FnTier::Code <==> self.func.code is Some
        &&& match self.func.code {
            Some(n) => self.direct.entry == n.entry && self.direct.code == n.id,
            None => self.direct == no_direct(),
        }
    }

    /// A chunk that has never run.
    pub fn new() -> (r: ChunkJit)
        ensures
            r.wf(),
            r.fstate == FnTier::Cold,
            r.ticks == 0,
            r.calls == 0,
            !r.has_code,
            r.loops@.len() == 0,
            r.site_fb@.len() == 0,
            r.func.compiles == 0,
            r.func.widen@.len() == 0,
            r.func.deopts@.len() == 0,
            r.func.retired@.len() == 0,
    {
        ChunkJit {
            ticks: 0,
            has_code: false,
            loops: Vec::new(),
            calls: 0,
            fstate: FnTier::Cold,
            func: FuncState {
                code: None,
                compiles: 0,
                entry_fails: 0,
                widen: Vec::new(),
                deopts: Vec::new(),
                retired: Vec::new(),
            },
            direct: Direct { entry: 0, size: 0, code: 0 },
            site_fb: Vec::new(),
        }
    }

    /// The check at a backward jump: counts it and says whether there is anything to do.
    pub fn backedge_due(&mut self, eager: bool) -> (r: bool)
        ensures
            *final(self) == (ChunkJit {
                ticks: old(self).ticks.wrapping_add(1),
                ..*old(self)
            }),
            r == (on_tick(final(self).ticks) || old(self).has_code || eager),
    {
        let t: u32 = self.ticks.wrapping_add(1);
        self.ticks = t;
        t & TICK_MASK == 0 || self.has_code || eager
    }

    /// The index of the loop, or the length when it is not listed.
    fn find_loop(&self, header: u32, backedge: u32) -> (k: usize)
        ensures
            k == loop_index(self.loops@, header, backedge),
            k <= self.loops@.len(),
    {
        let mut k: usize = 0;
        while k < self.loops.len() && !(self.loops[k].header == header && self.loops[k].backedge
            == backedge)
            invariant
                k <= self.loops@.len(),
                forall|i: int|
                    0 <= i < k ==> !is_loop(#[trigger] self.loops@[i], header, backedge),
            decreases self.loops@.len() - k,
        {
            k = k + 1;
        }
        proof {
            lemma_loop_index_is(self.loops@, header, backedge, k as int);
        }
        k
    }

    /// The hook at a backward jump from `backedge` to `header`. A loop entered with operands
    /// pending cannot run natively: on a tick the whole function is asked for instead.
    /// `Compile` counts the attempt; it is due on a tick, while the loop has compiles left.
    pub fn on_backedge(
        &mut self,
        header: u32,
        backedge: u32,
        stack_empty: bool,
        enabled: bool,
        eager: bool,
    ) -> (r: Plan)
        requires
            old(self).wf(),
        ensures
            final(self).wf(),
            ({
                let tick = eager || on_tick(old(self).ticks);
                let k = loop_index(old(self).loops@, header, backedge) as int;
                let loops = listed(old(self).loops@, header, backedge);
                if !stack_empty || !enabled {
                    &&& r == Plan::Interpret
                    &&& *final(self) == ChunkJit {
                        fstate: if !stack_empty && enabled && tick && old(self).fstate
                            == FnTier::Cold {
                            FnTier::Pending
                        } else {
                            old(self).fstate
                        },
                        ..*old(self)
                    }
                } else {
                    &&& r == if loops[k].code is Some {
                        Plan::Run
                    } else if loops[k].compiles < MAX_COMPILES && tick {
                        Plan::Compile
                    } else {
                        Plan::Interpret
                    }
                    &&& final(self).loops@ == if r == Plan::Compile {
                        loops.update(
                            k,
                            LoopState { compiles: (loops[k].compiles + 1) as u32, ..loops[k] },
                        )
                    } else {
                        loops
                    }
                    &&& same_but_loops(*final(self), *old(self))
                    &&& final(self).has_code == old(self).has_code
                }
            }),
    {
        let t: u32 = if eager {
            0
        } else {
            self.ticks
        };
        assert(0u32 & 1023u32 == 0) by (bit_vector);
        if !stack_empty || !enabled {
            if !stack_empty && enabled && t & TICK_MASK == 0 && self.fstate == FnTier::Cold {
                self.fstate = FnTier::Pending;
            }
            return Plan::Interpret;
        }
        let idx: usize = self.find_loop(header, backedge);
        if idx == self.loops.len() {
            self.loops.push(
                LoopState { header, backedge, code: None, compiles: 0, entry_fails: 0 },
            );
        }
        if self.loops[idx].code.is_some() {
            return Plan::Run;
        }
        if self.loops[idx].compiles >= MAX_COMPILES || t & TICK_MASK != 0 {
            return Plan::Interpret;
        }
        let c: u32 = self.loops[idx].compiles + 1;
        self.loops[idx].compiles = c;
        Plan::Compile
    }

    /// What came of compiling the loop: its code, or none, after which it stays interpreted.
    pub fn loop_built(&mut self, header: u32, backedge: u32, built: Option<Native>) -> (r: Plan)
        requires
            old(self).wf(),
            loop_index(old(self).loops@, header, backedge) < old(self).loops@.len(),
        ensures
            final(self).wf(),
            same_but_loops(*final(self), *old(self)),
            ({
                let k = loop_index(old(self).loops@, header, backedge) as int;
                let l = old(self).loops@[k];
                match built {
                    Some(n) => {
                        &&& r == Plan::Run
                        &&& final(self).has_code
                        &&& final(self).loops@ == old(self).loops@.update(
                            k,
                            LoopState { code: built, entry_fails: 0, ..l },
                        )
                    },
                    None => {
                        &&& r == Plan::Interpret
                        &&& final(self).has_code == old(self).has_code
                        &&& final(self).loops@ == old(self).loops@.update(
                            k,
                            LoopState { compiles: MAX_COMPILES, ..l },
                        )
                    },
                }
            }),
    {
        let idx: usize = self.find_loop(header, backedge);
        match built {
            Some(n) => {
                self.loops[idx].code = Some(n);
                self.loops[idx].entry_fails = 0;
                self.has_code = true;
                Plan::Run
            },
            None => {
                self.loops[idx].compiles = MAX_COMPILES;
                Plan::Interpret
            },
        }
    }

    /// The loop's entry guards failed. After enough failures its code is dropped, to be compiled
    /// for the new kinds at the next tick.
    pub fn loop_entry_failed(&mut self, header: u32, backedge: u32)
        requires
            old(self).wf(),
            runs_loop(old(self).loops@, header, backedge),
        ensures
            final(self).wf(),
            same_but_loops(*final(self), *old(self)),
            final(self).has_code == old(self).has_code,
            final(self).loops@ == failed_loops(old(self).loops@, header, backedge),
    {
        let idx: usize = self.find_loop(header, backedge);
        if idx < self.loops.len() {
            let fails: u32 = self.loops[idx].entry_fails + 1;
            self.loops[idx].entry_fails = fails;
            if fails >= MAX_ENTRY_FAILS {
                self.loops[idx].code = None;
            }
        }
    }

    /// Drops the loop's code, to be recompiled without what stopped holding.
    pub fn retire_loop(&mut self, header: u32, backedge: u32)
        requires
            old(self).wf(),
        ensures
            final(self).wf(),
            same_but_loops(*final(self), *old(self)),
            final(self).has_code == old(self).has_code,
            final(self).loops@ == retired_loops(old(self).loops@, header, backedge),
    {
        let idx: usize = self.find_loop(header, backedge);
        if idx < self.loops.len() {
            self.loops[idx].code = None;
        }
    }

    /// The feedback of kind `kind` recorded for the site at `pc`.
    pub fn fb_get(&self, pc: usize, kind: u32) -> (r: Option<u64>)
        ensures
            r == feedback(self.site_fb@, pc, kind),
    {
        let mut i: usize = self.site_fb.len();
        assert(self.site_fb@.take(i as int) =~= self.site_fb@);
        while i > 0
            invariant
                i <= self.site_fb@.len(),
                feedback(self.site_fb@, pc, kind) == feedback(
                    self.site_fb@.take(i as int),
                    pc,
                    kind,
                ),
            decreases i,
        {
            let f = &self.site_fb[i - 1];
            assert(self.site_fb@.take(i as int).last() == self.site_fb@[i - 1]);
            assert(self.site_fb@.take(i as int).drop_last() =~= self.site_fb@.take(i - 1));
            if f.pc == pc && f.kind == kind {
                return Some(f.fact);
            }
            i = i - 1;
        }
        None
    }

    /// Records feedback for the site at `pc`, replacing any of its kind. A full table takes no
    /// new entry.
    pub fn fb_put(&mut self, pc: usize, kind: u32, fact: u64)
        requires
            old(self).wf(),
        ensures
            final(self).wf(),
            final(self).site_fb@ == ({
                let kept = without_feedback(old(self).site_fb@, pc, kind);
                if kept.len() < MAX_FEEDBACK {
                    kept.push(Feedback { pc, kind, fact })
                } else {
                    kept
                }
            }),
            *final(self) == (ChunkJit { site_fb: final(self).site_fb, ..*old(self) }),
    {
        let mut kept: Vec<Feedback> = Vec::new();
        let mut i: usize = 0;
        assert(without_feedback(self.site_fb@.take(0), pc, kind) =~= Seq::<Feedback>::empty());
        while i < self.site_fb.len()
            invariant
                i <= self.site_fb@.len(),
                kept@ == without_feedback(self.site_fb@.take(i as int), pc, kind),
                kept@.len() <= i,
            decreases self.site_fb@.len() - i,
        {
            let f: Feedback = self.site_fb[i];
            assert(self.site_fb@.take(i + 1).last() == self.site_fb@[i as int]);
            assert(self.site_fb@.take(i + 1).drop_last() =~= self.site_fb@.take(i as int));
            if !(f.pc == pc && f.kind == kind) {
                kept.push(f);
            }
            i = i + 1;
        }
        assert(self.site_fb@.take(i as int) =~= self.site_fb@);
        if kept.len() < MAX_FEEDBACK {
            kept.push(Feedback { pc, kind, fact });
        }
        self.site_fb = kept;
    }
}

/// The two states agree on everything but the loops and whether one has code.
pub open spec fn same_but_loops(a: ChunkJit, b: ChunkJit) -> bool {
    a == ChunkJit { loops: a.loops, has_code: a.has_code, ..b }
}

/// The latest feedback of a kind recorded for a site.
pub open spec fn feedback(fb: Seq<Feedback>, pc: usize, kind: u32) -> Option<u64>
    decreases fb.len(),
{
    if fb.len() == 0 {
        None
    } else if fb.last().pc == pc && fb.last().kind == kind {
        Some(fb.last().fact)
    } else {
        feedback(fb.drop_last(), pc, kind)
    }
}

/// The table without the feedback of a kind for a site.
pub open spec fn without_feedback(fb: Seq<Feedback>, pc: usize, kind: u32) -> Seq<Feedback>
    decreases fb.len(),
{
    if fb.len() == 0 {
        fb
    } else if fb.last().pc == pc && fb.last().kind == kind {
        without_feedback(fb.drop_last(), pc, kind)
    } else {
        without_feedback(fb.drop_last(), pc, kind).push(fb.last())
    }
}

proof fn lemma_without_feedback(fb: Seq<Feedback>, pc: usize, kind: u32, q: usize, other: u32)
    ensures
        feedback(without_feedback(fb, pc, kind), q, other) == if q == pc && other == kind {
            None
        } else {
            feedback(fb, q, other)
        },
    decreases fb.len(),
{
    if fb.len() > 0 {
        lemma_without_feedback(fb.drop_last(), pc, kind, q, other);
        let w = without_feedback(fb.drop_last(), pc, kind);
        if !(fb.last().pc == pc && fb.last().kind == kind) {
            assert(w.push(fb.last()).drop_last() =~= w);
        }
    }
}

/// Recorded feedback reads back while the table has room, and leaves every other site and kind
/// as it was.
pub proof fn lemma_feedback_reads_back(
    fb: Seq<Feedback>,
    pc: usize,
    kind: u32,
    fact: u64,
    q: usize,
    other: u32,
)
    ensures
        feedback(
            without_feedback(fb, pc, kind).push(Feedback { pc, kind, fact }),
            q,
            other,
        ) == if q == pc && other == kind {
            Some(fact)
        } else {
            feedback(fb, q, other)
        },
{
    lemma_without_feedback(fb, pc, kind, q, other);
    let w = without_feedback(fb, pc, kind);
    assert(w.push(Feedback { pc, kind, fact }).drop_last() =~= w);
}

} // verus!
