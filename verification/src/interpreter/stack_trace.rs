//! Error stack traces: the call stack is captured when an error is made and turned into text on
//! the first read of its `stack`.
//!
//! A function frame's site becomes a position through the function's code, and a line and column
//! through its source's line table. Top-level code has no function and is resolved at capture.

use crate::ast::NO_POS;
use crate::bytecode::chunk::Chunk;
use crate::bytecode::jit::records::{full_stack, pending_of};
use crate::bytecode::positions::{lookup as lookup_position, position_at};
use crate::interpreter::call_cx::CallCx;
use crate::interpreter::frames::{
    pos_of_site, site_is_native, site_pos, tagged_native, FnFrame, NativeCtx, NO_SITE, RECV_OBJ,
    RECV_PRIM, SITE_PC,
};
use crate::interpreter::native_names::{
    captures, frame_name, is_capturing_builtin, native_frame_name, own_text, NativeNames,
};
use crate::interpreter::sources::{position, Sources};
use crate::object::{data_of, Callable, Heap};
use crate::value::Value;
use std::collections::{HashMap, HashSet};
use vstd::arithmetic::power2::{lemma_pow2_adds, lemma_pow2_pos, pow2};
use vstd::prelude::*;

verus! {

broadcast use vstd::std_specs::hash::group_hash_axioms;

/// What a trace needs of a function's code.
pub struct FnInfo {
    pub is_strict: bool,
    /// It was made from texts, as `new Function(...)` makes one.
    pub dynamic: bool,
    /// The source that its positions are offsets into.
    pub src: Option<u64>,
    pub code: Option<Chunk>,
}

/// The array callbacks that were inlined around a call site: the position inside the innermost
/// one, and for each the position of its method call and the method's name.
pub struct Inlined {
    pub src: Option<u64>,
    pub pos: u32,
    pub regions: Vec<(u32, String)>,
}

/// What a capture reads.
pub struct TraceCx<'a> {
    pub heap: &'a Heap,
    pub global: u64,
    /// The user functions by their code.
    pub funcs: &'a HashMap<u64, FnInfo>,
    /// The sources that are alive.
    pub alive: &'a HashSet<u64>,
    /// For each frame, what was inlined around its call site.
    pub inlined: &'a Vec<Option<Inlined>>,
}

/// A frame as it is captured.
pub enum RawFrame {
    /// A running builtin, by its text.
    Builtin(String),
    /// Top-level code: its file, or for eval code where the call stands.
    Code { line: Option<(u32, u32)>, eval: bool, file: String },
    /// A function and the site it was at.
    Function { callee: u64, site: u32, construct: bool },
}

pub enum RawView {
    Builtin(Seq<char>),
    Code { line: Option<(u32, u32)>, eval: bool, file: Seq<char> },
    Function { callee: u64, site: u32, construct: bool },
}

impl View for RawFrame {
    type V = RawView;

    open spec fn view(&self) -> RawView {
        match *self {
            RawFrame::Builtin(s) => RawView::Builtin(s@),
            RawFrame::Code { line, eval, file } => RawView::Code { line, eval, file: file@ },
            RawFrame::Function { callee, site, construct } => RawView::Function {
                callee,
                site,
                construct,
            },
        }
    }
}

pub open spec fn raw_views(s: Seq<RawFrame>) -> Seq<RawView> {
    Seq::new(s.len(), |i: int| s[i]@)
}

/// What a capture reads, as a whole.
pub struct TraceEnv {
    pub frames: Seq<FnFrame>,
    /// The running natives, innermost first.
    pub natives: Seq<NativeCtx>,
    pub cur_site: u32,
    pub names: NativeNames,
    pub heap: Heap,
    pub global: u64,
    pub funcs: Map<u64, FnInfo>,
    pub sources: Sources,
    pub alive: Set<u64>,
    pub inlined: Seq<Option<Inlined>>,
}

/// What a source is called, and the line and column of a position in it.
pub struct Place {
    pub file: Seq<char>,
    pub line: Option<(u32, u32)>,
    pub wrapper: u64,
}

/// Where a position of a source is.
pub open spec fn place_of(sources: Sources, alive: Set<u64>, src: Option<u64>, pos: u32) -> Place {
    match src {
        Some(s) => if s < sources.texts@.len() && alive.contains(s) {
            let f = sources.facts(s);
            Place { file: f.name, line: position(f, pos), wrapper: f.wrapper }
        } else {
            Place { file: "<anonymous>"@, line: None, wrapper: 0 }
        },
        None => Place { file: "<anonymous>"@, line: None, wrapper: 0 },
    }
}

fn place(sources: &mut Sources, alive: &HashSet<u64>, src: Option<u64>, pos: u32) -> (r: (
    String,
    Option<(u32, u32)>,
    u64,
))
    requires
        old(sources).wf(),
    ensures
        final(sources).wf(),
        old(sources).same_facts(*final(sources), alive@),
        ({
            let p = place_of(*old(sources), alive@, src, pos);
            r.0@ == p.file && r.1 == p.line && r.2 == p.wrapper
        }),
{
    if let Some(s) = src {
        if s < sources.texts.len() as u64 && alive.contains(&s) {
            return sources.describe(s, pos, alive);
        }
    }
    ("<anonymous>".to_owned(), None, 0)
}

/// The source position of a site that is one.
pub open spec fn script_pos(site: u32) -> u32 {
    if site == NO_SITE || site & SITE_PC != 0 {
        NO_POS
    } else {
        site
    }
}

/// What a frame is.
#[derive(Clone, Copy, Debug, PartialEq, Eq, Structural)]
pub enum FrameKind {
    Function { construct: bool },
    TopLevel,
    Eval,
    Builtin,
}

/// One frame, resolved for display.
pub struct Resolved {
    pub func: Value,
    pub name: Option<String>,
    /// The file; for eval code where the call stands; for a builtin its text.
    pub file: String,
    pub line: Option<(u32, u32)>,
    pub kind: FrameKind,
    /// A module's wrapper function.
    pub wrapper: bool,
    pub strict: bool,
}

pub struct ResolvedView {
    pub func: Value,
    pub name: Option<Seq<char>>,
    pub file: Seq<char>,
    pub line: Option<(u32, u32)>,
    pub kind: FrameKind,
    pub wrapper: bool,
    pub strict: bool,
}

impl View for Resolved {
    type V = ResolvedView;

    open spec fn view(&self) -> ResolvedView {
        ResolvedView {
            func: self.func,
            name: match self.name {
                Some(n) => Some(n@),
                None => None,
            },
            file: self.file@,
            line: self.line,
            kind: self.kind,
            wrapper: self.wrapper,
            strict: self.strict,
        }
    }
}

impl ResolvedView {
    /// `file:line:column`, as far as it is known.
    pub open spec fn location(self) -> Seq<char> {
        let file = if self.kind == FrameKind::Eval {
            "<anonymous>"@
        } else {
            self.file
        };
        match self.line {
            Some((l, c)) => file + ":"@ + crate::text::dec_digits(l as nat) + ":"@
                + crate::text::dec_digits(c as nat),
            None => file,
        }
    }

    /// The frame's text after `at `.
    pub open spec fn text(self) -> Seq<char> {
        let loc = self.location();
        match self.kind {
            FrameKind::Eval => "eval ("@ + self.file + ", "@ + loc + ")"@,
            FrameKind::Builtin => self.file + " (<anonymous>)"@,
            FrameKind::TopLevel => loc,
            FrameKind::Function { construct } => {
                let name = if self.wrapper {
                    Some("Object.<anonymous>"@)
                } else {
                    self.name
                };
                match (construct, name) {
                    (true, Some(n)) => "new "@ + n + " ("@ + loc + ")"@,
                    (true, None) => "new <anonymous> ("@ + loc + ")"@,
                    (false, Some(n)) => n + " ("@ + loc + ")"@,
                    (false, None) => loc,
                }
            },
        }
    }
}

impl Resolved {
    /// `file:line:column`, as far as it is known.
    pub fn location(&self) -> (r: String)
        ensures
            r@ == self@.location(),
    {
        let mut out = if self.kind == FrameKind::Eval {
            "<anonymous>".to_owned()
        } else {
            self.file.clone()
        };
        match self.line {
            Some((l, c)) => {
                out.append(":");
                crate::text::push_dec(&mut out, l as u64);
                out.append(":");
                crate::text::push_dec(&mut out, c as u64);
            },
            None => {},
        }
        out
    }

    /// The frame's text after `at `.
    pub fn text(&self) -> (r: String)
        ensures
            r@ == self@.text(),
    {
        let loc = self.location();
        match self.kind {
            FrameKind::Eval => {
                let mut out = "eval (".to_owned();
                out.append(self.file.as_str());
                out.append(", ");
                out.append(loc.as_str());
                out.append(")");
                out
            },
            FrameKind::Builtin => {
                let mut out = self.file.clone();
                out.append(" (<anonymous>)");
                out
            },
            FrameKind::TopLevel => loc,
            FrameKind::Function { construct } => {
                let name: Option<String> = if self.wrapper {
                    Some("Object.<anonymous>".to_owned())
                } else {
                    match &self.name {
                        Some(n) => Some(n.clone()),
                        None => None,
                    }
                };
                let mut out = if construct {
                    match name {
                        Some(n) => {
                            let mut s = "new ".to_owned();
                            s.append(n.as_str());
                            s.append(" (");
                            s
                        },
                        None => "new <anonymous> (".to_owned(),
                    }
                } else {
                    match name {
                        Some(n) => {
                            let mut s = n;
                            s.append(" (");
                            s
                        },
                        None => {
                            return loc;
                        },
                    }
                };
                out.append(loc.as_str());
                out.append(")");
                out
            },
        }
    }
}

/// The position of a site in a function's code.
pub open spec fn fn_pos(f: FnInfo, site: u32) -> u32 {
    if site == NO_SITE {
        NO_POS
    } else if site & SITE_PC != 0 {
        match f.code {
            Some(c) => position_at(c.ops@, c.positions@, (site & !SITE_PC) as usize as int),
            None => NO_POS,
        }
    } else {
        site
    }
}

/// A function frame, resolved.
pub open spec fn resolved_fn(
    heap: Heap,
    funcs: Map<u64, FnInfo>,
    sources: Sources,
    alive: Set<u64>,
    callee: u64,
    site: u32,
    construct: bool,
) -> ResolvedView {
    let bare = ResolvedView {
        func: Value::Obj(callee),
        name: own_text(heap, callee, "name"@),
        file: "<anonymous>"@,
        line: None,
        kind: FrameKind::Function { construct },
        wrapper: false,
        strict: false,
    };
    if !heap.has(callee) {
        bare
    } else {
        match heap.at(callee).call {
            Callable::User(code) => if funcs.contains_key(code) {
                let f = funcs[code];
                let p = place_of(sources, alive, f.src, fn_pos(f, site));
                ResolvedView {
                    file: p.file,
                    line: p.line,
                    wrapper: p.wrapper != 0 && p.wrapper == callee,
                    strict: f.is_strict,
                    ..bare
                }
            } else {
                bare
            },
            _ => bare,
        }
    }
}

/// Resolves a function frame: the callee and the site it was at.
pub fn resolve_fn(
    t: &TraceCx,
    sources: &mut Sources,
    callee: u64,
    site: u32,
    construct: bool,
) -> (r: Resolved)
    requires
        old(sources).wf(),
    ensures
        final(sources).wf(),
        old(sources).same_facts(*final(sources), t.alive@),
        r@ == resolved_fn(
            *t.heap,
            t.funcs@,
            *old(sources),
            t.alive@,
            callee,
            site,
            construct,
        ),
{
    let mut r = Resolved {
        func: Value::Obj(callee),
        name: None,
        file: "<anonymous>".to_owned(),
        line: None,
        kind: FrameKind::Function { construct },
        wrapper: false,
        strict: false,
    };
    if !t.heap.holds(callee) {
        return r;
    }
    match t.heap.get(callee).props.get_data("name") {
        Some(Value::Str(s)) => {
            if !s.as_str().is_empty() {
                r.name = Some(s);
            }
        },
        _ => {},
    }
    let code: u64 = match t.heap.get(callee).call {
        Callable::User(c) => c,
        _ => {
            return r;
        },
    };
    let f = match t.funcs.get(&code) {
        Some(f) => f,
        None => {
            return r;
        },
    };
    r.strict = f.is_strict;
    let pos: u32 = if site == NO_SITE {
        NO_POS
    } else if site & SITE_PC != 0 {
        match &f.code {
            Some(c) => lookup_position(
                c.ops.as_slice(),
                c.positions.as_slice(),
                (site & !SITE_PC) as usize,
            ),
            None => NO_POS,
        }
    } else {
        site
    };
    let (file, line, wrapper) = place(sources, t.alive, f.src, pos);
    r.file = file;
    r.line = line;
    r.wrapper = wrapper != 0 && wrapper == callee;
    r
}

impl TraceEnv {
    /// The site that the frame `k` is at.
    pub open spec fn site(self, k: int) -> u32 {
        pos_of_site(
            if k + 1 == self.frames.len() {
                self.cur_site
            } else {
                self.frames[k + 1].caller_site
            },
        )
    }

    pub open spec fn place(self, src: Option<u64>, pos: u32) -> Place {
        place_of(self.sources, self.alive, src, pos)
    }

    pub open spec fn resolved(self, callee: u64, site: u32) -> ResolvedView {
        resolved_fn(self.heap, self.funcs, self.sources, self.alive, callee, site, false)
    }

    /// `eval at <caller> (<location>)` for the eval code of the frame `k`.
    pub open spec fn eval_origin(self, k: int) -> Seq<char> {
        let site = pos_of_site(self.frames[k].caller_site);
        if k <= 0 {
            "eval at <anonymous>"@
        } else {
            let fr = self.frames[k - 1];
            if fr.fn_ptr != 0 {
                origin_text(self.resolved(fr.fn_ptr, site))
            } else {
                match fr.extra {
                    Some(x) => match x.script {
                        Some(sf) => {
                            let p = self.place(Some(sf.src), script_pos(site));
                            origin_text(top_level_view(p.file, p.line))
                        },
                        None => "eval at <anonymous>"@,
                    },
                    None => "eval at <anonymous>"@,
                }
            }
        }
    }

    /// What an inlined callback adds: its own frame, and the builtin's.
    pub open spec fn inlined_frames(self, x: Inlined, n: int) -> Seq<RawView>
        decreases n,
    {
        if n <= 0 {
            Seq::empty()
        } else {
            let pos = if n == 1 {
                x.pos
            } else {
                x.regions@[n - 2].0
            };
            let p = self.place(x.src, pos);
            self.inlined_frames(x, n - 1).push(
                RawView::Code { line: p.line, eval: false, file: p.file },
            ).push(RawView::Builtin(x.regions@[n - 1].1@))
        }
    }

    /// The frames of the frame `k` itself.
    pub open spec fn own_frames(self, k: int) -> Seq<RawView> {
        let fr = self.frames[k];
        let site = self.site(k);
        if fr.fn_ptr == 0 {
            match fr.extra {
                Some(x) => match x.script {
                    Some(sf) => {
                        let p = self.place(Some(sf.src), script_pos(site));
                        seq![
                            RawView::Code {
                                line: p.line,
                                eval: sf.eval,
                                file: if sf.eval {
                                    self.eval_origin(k)
                                } else {
                                    p.file
                                },
                            },
                        ]
                    },
                    None => Seq::empty(),
                },
                None => Seq::empty(),
            }
        } else {
            let here = k < self.inlined.len() && self.inlined[k] is Some && site != NO_SITE && site
                & SITE_PC != 0;
            if here {
                let x = self.inlined[k]->0;
                let n = x.regions@.len() as int;
                let pos = if n == 0 {
                    x.pos
                } else {
                    x.regions@[n - 1].0
                };
                self.inlined_frames(x, n).push(
                    RawView::Function {
                        callee: fr.fn_ptr,
                        site: if pos == NO_POS {
                            NO_SITE
                        } else {
                            pos
                        },
                        construct: fr.construct,
                    },
                )
            } else {
                seq![
                    RawView::Function { callee: fr.fn_ptr, site, construct: fr.construct },
                ]
            }
        }
    }

    /// The end of the run of natives from `at` on that other natives called.
    pub open spec fn run_end(self, at: int) -> int
        decreases self.natives.len() - at,
    {
        if 0 <= at < self.natives.len() && tagged_native(self.natives[at].site) {
            self.run_end(at + 1)
        } else {
            at
        }
    }

    /// Past the natives from `at` on that a frame is calling from a position: runs of natives
    /// that other natives called, each ending in one that the frame called there.
    pub open spec fn natives_end(self, at: int, pos: u32) -> int
        decreases self.natives.len() - at,
    {
        let e = self.run_end(at);
        if at <= e < self.natives.len() && pos_of_site(self.natives[e].site) == pos {
            self.natives_end(e + 1, pos)
        } else {
            at
        }
    }

    /// The frames of the natives from `from` to `to`; the builtin that makes the error is left
    /// out.
    pub open spec fn native_frames(self, from: int, to: int, top: bool) -> Seq<RawView>
        decreases to - from,
    {
        if to <= from {
            Seq::empty()
        } else {
            let before = self.native_frames(from, to - 1, top);
            match frame_name(self.names, self.heap, self.global, self.natives[to - 1]) {
                Some(n) => if to == 1 && top && captures(n) {
                    before
                } else {
                    before.push(RawView::Builtin(n))
                },
                None => before,
            }
        }
    }

    /// Where the natives of the frame `k` end.
    pub open spec fn cursor_after(self, k: int, cursor: int) -> int {
        if cursor < self.natives.len() && self.site(k) != NO_SITE {
            self.natives_end(cursor, self.site(k))
        } else {
            cursor
        }
    }

    /// The trace of the lowest `k` frames, innermost first, when the natives before `cursor` are
    /// done, and frames up to and including the innermost call of `skipping` are left out.
    pub open spec fn trace(self, k: int, cursor: int, skipping: Option<u64>) -> Seq<RawView>
        decreases k,
    {
        if k <= 0 {
            Seq::empty()
        } else {
            let c = self.cursor_after(k - 1, cursor);
            match skipping {
                Some(p) => self.trace(
                    k - 1,
                    c,
                    if self.frames[k - 1].fn_ptr == p {
                        None
                    } else {
                        Some(p)
                    },
                ),
                None => self.native_frames(cursor, c, k == self.frames.len()) + self.own_frames(
                    k - 1,
                ) + self.trace(k - 1, c, None),
            }
        }
    }

    /// Naming one of the natives from `from` to `to` asks for something, when `done` frames stand
    /// before them and no more than `limit` are wanted.
    pub open spec fn natives_want(
        self,
        what: Asked,
        from: int,
        to: int,
        top: bool,
        done: nat,
        limit: nat,
    ) -> bool {
        exists|j: int|
            from <= j < to && done + self.native_frames(from, j, top).len() < limit
                && #[trigger] self.asks(what, j)
    }

    /// The native `j` has a frame that names its object receiver, and the receiver is not held.
    pub open spec fn wants_receiver(self, j: int) -> bool {
        let c = self.natives[j];
        frame_name(self.names, self.heap, self.global, c) is Some && !c.construct && c.recv_kind
            == RECV_OBJ && c.this is None
    }

    /// Naming the native `j` scans the global object.
    pub open spec fn wants_scan(self, j: int) -> bool {
        let c = self.natives[j];
        !c.hidden && self.names.rescans(self.heap, self.global, c.id)
    }

    /// Naming the native `j` asks for something.
    pub open spec fn asks(self, what: Asked, j: int) -> bool {
        match what {
            Asked::Receiver => self.wants_receiver(j),
            Asked::Names => self.wants_scan(j),
        }
    }

    /// Naming a frame of [`Self::trace`] asks for something, when `done` frames stand before the
    /// trace and no more than `limit` are wanted in all.
    pub open spec fn trace_wants(
        self,
        what: Asked,
        k: int,
        cursor: int,
        skipping: Option<u64>,
        done: nat,
        limit: nat,
    ) -> bool
        decreases k,
    {
        if k <= 0 {
            false
        } else {
            let c = self.cursor_after(k - 1, cursor);
            let top = k == self.frames.len();
            match skipping {
                Some(p) => self.trace_wants(
                    what,
                    k - 1,
                    c,
                    if self.frames[k - 1].fn_ptr == p {
                        None
                    } else {
                        Some(p)
                    },
                    done,
                    limit,
                ),
                None => self.natives_want(what, cursor, c, top, done, limit) || self.trace_wants(
                    what,
                    k - 1,
                    c,
                    None,
                    done + self.native_frames(cursor, c, top).len() + self.own_frames(k - 1).len(),
                    limit,
                ),
            }
        }
    }

    /// What the whole trace leaves out: with `must`, everything when the function is not on the
    /// stack, else nothing.
    pub open spec fn skipped(self, skip: Option<(u64, bool)>) -> Option<u64> {
        match skip {
            Some((p, must)) => if must || exists|i: int|
                0 <= i < self.frames.len() && (#[trigger] self.frames[i]).fn_ptr == p {
                Some(p)
            } else {
                None
            },
            None => None,
        }
    }

    /// The whole trace.
    pub open spec fn whole(self, skip: Option<(u64, bool)>) -> Seq<RawView> {
        self.trace(self.frames.len() as int, 0, self.skipped(skip))
    }

    /// Naming the builtins of the first `limit` frames of the whole trace asks for something.
    pub open spec fn whole_wants(self, what: Asked, skip: Option<(u64, bool)>, limit: nat) -> bool {
        self.trace_wants(what, self.frames.len() as int, 0, self.skipped(skip), 0, limit)
    }
}

/// The view of a top-level frame.
pub open spec fn top_level_view(file: Seq<char>, line: Option<(u32, u32)>) -> ResolvedView {
    ResolvedView {
        func: Value::Undefined,
        name: None,
        file,
        line,
        kind: FrameKind::TopLevel,
        wrapper: false,
        strict: false,
    }
}

/// Where eval code was called from.
pub open spec fn origin_text(r: ResolvedView) -> Seq<char> {
    let name = if r.wrapper {
        "Object.<anonymous>"@
    } else {
        match r.name {
            Some(n) => n,
            None => "<anonymous>"@,
        }
    };
    "eval at "@ + name + " ("@ + r.location() + ")"@
}

/// The first `limit` frames.
pub open spec fn limited(s: Seq<RawView>, limit: nat) -> Seq<RawView> {
    if s.len() <= limit {
        s
    } else {
        s.take(limit as int)
    }
}

/// The natives of a call state, innermost first.
pub open spec fn innermost_first(ns: Seq<NativeCtx>) -> Seq<NativeCtx> {
    Seq::new(ns.len(), |i: int| ns[ns.len() - 1 - i])
}

/// What a capture reads of an engine's state.
pub open spec fn env_of(cx: CallCx, t: TraceCx, names: NativeNames, sources: Sources) -> TraceEnv {
    TraceEnv {
        frames: full_stack(cx.calls),
        natives: innermost_first(cx.natives@),
        cur_site: cx.cur_site,
        names,
        heap: *t.heap,
        global: t.global,
        funcs: t.funcs@,
        sources,
        alive: t.alive@,
        inlined: t.inlined@,
    }
}

/// What naming a builtin can ask for.
pub enum Asked {
    /// An object receiver that is not held.
    Receiver,
    /// A scan of the global object for names.
    Names,
}

/// The names and sources say what they said when the capture began.
pub open spec fn steady(env: TraceEnv, names: NativeNames, sources: Sources) -> bool {
    &&& sources.wf()
    &&& env.sources.same_facts(sources, env.alive)
    &&& forall|q: u64| #[trigger]
        names.answer(env.heap, env.global, q) == env.names.answer(env.heap, env.global, q)
}

/// The state that a capture walks.
struct Walk<'a> {
    cx: &'a CallCx,
    pending: Vec<FnFrame>,
    t: &'a TraceCx<'a>,
}

impl<'a> Walk<'a> {
    spec fn of(self, env: TraceEnv) -> bool {
        &&& self.pending@ == pending_of(self.cx.calls.recs@)
        &&& env.frames == self.cx.calls.fn_frames@ + self.pending@
        &&& env.natives == innermost_first(self.cx.natives@)
        &&& env.cur_site == self.cx.cur_site
        &&& env.heap == *self.t.heap
        &&& env.global == self.t.global
        &&& env.heap.has(env.global)
        &&& env.funcs == self.t.funcs@
        &&& env.alive == self.t.alive@
        &&& env.inlined == self.t.inlined@
        &&& forall|i: int|
            0 <= i < env.natives.len() ==> (#[trigger] env.natives[i]).recv_kind <= RECV_PRIM + 4
    }

    fn frame(&self, k: usize, Ghost(env): Ghost<TraceEnv>) -> (r: &FnFrame)
        requires
            self.of(env),
            k < env.frames.len(),
        ensures
            *r == env.frames[k as int],
    {
        let n: usize = self.cx.calls.fn_frames.len();
        if k < n {
            &self.cx.calls.fn_frames[k]
        } else {
            &self.pending[k - n]
        }
    }

    fn count(&self, Ghost(env): Ghost<TraceEnv>) -> (r: usize)
        requires
            self.of(env),
            env.frames.len() <= usize::MAX,
        ensures
            r == env.frames.len(),
    {
        self.cx.calls.fn_frames.len() + self.pending.len()
    }

    fn native(&self, j: usize, Ghost(env): Ghost<TraceEnv>) -> (r: &NativeCtx)
        requires
            self.of(env),
            j < env.natives.len(),
        ensures
            *r == env.natives[j as int],
    {
        let n: usize = self.cx.natives.len();
        &self.cx.natives[n - 1 - j]
    }

    fn site(&self, k: usize, n: usize, Ghost(env): Ghost<TraceEnv>) -> (r: u32)
        requires
            self.of(env),
            k < n,
            n == env.frames.len(),
        ensures
            r == env.site(k as int),
    {
        site_pos(
            if k + 1 == n {
                self.cx.cur_site
            } else {
                self.frame(k + 1, Ghost(env)).caller_site
            },
        )
    }

    fn run_end(&self, at: usize, Ghost(env): Ghost<TraceEnv>) -> (r: usize)
        requires
            self.of(env),
            at <= env.natives.len(),
        ensures
            r == env.run_end(at as int),
            at <= r <= env.natives.len(),
    {
        let n: usize = self.cx.natives.len();
        let mut e: usize = at;
        while e < n && site_is_native(self.native(e, Ghost(env)).site)
            invariant
                self.of(env),
                n == env.natives.len(),
                at <= e <= n,
                env.run_end(e as int) == env.run_end(at as int),
            decreases n - e,
        {
            e = e + 1;
        }
        e
    }

    fn natives_end(&self, at: usize, pos: u32, Ghost(env): Ghost<TraceEnv>) -> (r: usize)
        requires
            self.of(env),
            at <= env.natives.len(),
        ensures
            r == env.natives_end(at as int, pos),
            at <= r <= env.natives.len(),
    {
        let n: usize = self.cx.natives.len();
        let mut c: usize = at;
        loop
            invariant
                self.of(env),
                n == env.natives.len(),
                at <= c <= n,
                env.natives_end(c as int, pos) == env.natives_end(at as int, pos),
            decreases n - c,
        {
            let e = self.run_end(c, Ghost(env));
            if e < n && site_pos(self.native(e, Ghost(env)).site) == pos {
                c = e + 1;
            } else {
                return c;
            }
        }
    }

    fn emit_natives(
        &self,
        names: &mut NativeNames,
        from: usize,
        to: usize,
        top: bool,
        out: &mut Vec<RawFrame>,
        limit: usize,
        Ghost(env): Ghost<TraceEnv>,
        Ghost(sources): Ghost<Sources>,
        Ghost(again): Ghost<bool>,
    ) -> (unheld: bool)
        requires
            self.of(env),
            from <= to <= env.natives.len(),
            steady(env, *old(names), sources),
            env.names.scans(*old(names), env.heap, env.global, again),
            old(out)@.len() <= limit,
        ensures
            steady(env, *final(names), sources),
            final(out)@.len() <= limit,
            raw_views(final(out)@) == limited(
                raw_views(old(out)@) + env.native_frames(from as int, to as int, top),
                limit as nat,
            ),
            env.names.scans(
                *final(names),
                env.heap,
                env.global,
                again || env.natives_want(
                    Asked::Names,
                    from as int,
                    to as int,
                    top,
                    old(out)@.len(),
                    limit as nat,
                ),
            ),
            unheld == env.natives_want(
                Asked::Receiver,
                from as int,
                to as int,
                top,
                old(out)@.len(),
                limit as nat,
            ),
    {
        let ghost base = raw_views(out@);
        let mut unheld = false;
        let mut j: usize = from;
        assert(base + env.native_frames(from as int, from as int, top) =~= base);
        while j < to
            invariant
                self.of(env),
                base == raw_views(old(out)@),
                env.names.scans(
                    *names,
                    env.heap,
                    env.global,
                    again || env.natives_want(
                        Asked::Names,
                        from as int,
                        j as int,
                        top,
                        old(out)@.len(),
                        limit as nat,
                    ),
                ),
                unheld == env.natives_want(
                    Asked::Receiver,
                    from as int,
                    j as int,
                    top,
                    old(out)@.len(),
                    limit as nat,
                ),
                from <= j <= to <= env.natives.len(),
                steady(env, *names, sources),
                out@.len() <= limit,
                raw_views(out@) == limited(
                    base + env.native_frames(from as int, j as int, top),
                    limit as nat,
                ),
            decreases to - j,
        {
            if out.len() >= limit {
                proof {
                    lemma_frames_grow(env, from as int, j as int, to as int, top);
                    let a = base + env.native_frames(from as int, j as int, top);
                    let b = base + env.native_frames(from as int, to as int, top);
                    assert(b.take(a.len() as int) =~= a);
                    assert(raw_views(out@).len() == limit);
                    lemma_limited_prefix(a, b, limit as nat);
                    lemma_full_wants_nothing(
                        env,
                        Asked::Receiver,
                        from as int,
                        j as int,
                        to as int,
                        top,
                        base.len(),
                        limit as nat,
                    );
                    lemma_full_wants_nothing(
                        env,
                        Asked::Names,
                        from as int,
                        j as int,
                        to as int,
                        top,
                        base.len(),
                        limit as nat,
                    );
                }
                return unheld;
            }
            let ghost before = env.native_frames(from as int, j as int, top);
            let ghost full = base + before;
            assert(full.len() <= limit) by {
                if full.len() > limit {
                    assert(full.take(limit as int).len() == limit);
                }
            }
            let c = self.native(j, Ghost(env));
            let ghost names0 = *names;
            let (name, wanted) = native_frame_name(names, self.t.heap, self.t.global, c);
            proof {
                assert(names0.answer(env.heap, env.global, c.id) == env.names.answer(
                    env.heap,
                    env.global,
                    c.id,
                ));
                assert(frame_name(names0, env.heap, env.global, *c) == frame_name(
                    env.names,
                    env.heap,
                    env.global,
                    *c,
                ));
                assert forall|q: u64| #[trigger]
                    names.answer(env.heap, env.global, q) == env.names.answer(
                        env.heap,
                        env.global,
                        q,
                    ) by {
                    assert(names0.answer(env.heap, env.global, q) == env.names.answer(
                        env.heap,
                        env.global,
                        q,
                    ));
                }
            }
            assert(wanted == env.asks(Asked::Receiver, j as int));
            assert(env.asks(Asked::Names, j as int) == env.wants_scan(j as int));
            unheld = unheld || wanted;
            if let Some(n) = name {
                if !(j == 0 && top && is_capturing_builtin(n.as_str())) {
                    let ghost view = RawView::Builtin(n@);
                    let ghost prior = out@;
                    out.push(RawFrame::Builtin(n));
                    assert(raw_views(out@) =~= raw_views(prior).push(view));
                    assert(base + before.push(view) =~= (base + before).push(view));
                }
            }
            j = j + 1;
        }
        unheld
    }

    fn eval_origin(
        &self,
        sources: &mut Sources,
        k: usize,
        Ghost(env): Ghost<TraceEnv>,
        Ghost(names): Ghost<NativeNames>,
    ) -> (r: String)
        requires
            self.of(env),
            k < env.frames.len(),
            steady(env, names, *old(sources)),
        ensures
            steady(env, names, *final(sources)),
            r@ == env.eval_origin(k as int),
    {
        let site: u32 = site_pos(self.frame(k, Ghost(env)).caller_site);
        if k == 0 {
            return "eval at <anonymous>".to_owned();
        }
        let fr = self.frame(k - 1, Ghost(env));
        let caller: Resolved = if fr.fn_ptr != 0 {
            let ghost before = *sources;
            let c = resolve_fn(self.t, sources, fr.fn_ptr, site, false);
            proof {
                lemma_steady(env, names, before, *sources);
                lemma_same_places(env, before);
            }
            c
        } else {
            match &fr.extra {
                Some(x) => match &x.script {
                    Some(sf) => {
                        let pos: u32 = if site == NO_SITE || site & SITE_PC != 0 {
                            NO_POS
                        } else {
                            site
                        };
                        let ghost before = *sources;
                        let (file, line, _) = place(sources, self.t.alive, Some(sf.src), pos);
                        proof {
                            lemma_steady(env, names, before, *sources);
                            lemma_same_places(env, before);
                        }
                        Resolved {
                            func: Value::Undefined,
                            name: None,
                            file,
                            line,
                            kind: FrameKind::TopLevel,
                            wrapper: false,
                            strict: false,
                        }
                    },
                    None => {
                        return "eval at <anonymous>".to_owned();
                    },
                },
                None => {
                    return "eval at <anonymous>".to_owned();
                },
            }
        };
        let mut out = "eval at ".to_owned();
        if caller.wrapper {
            out.append("Object.<anonymous>");
        } else {
            match &caller.name {
                Some(n) => out.append(n.as_str()),
                None => out.append("<anonymous>"),
            }
        }
        out.append(" (");
        let loc = caller.location();
        out.append(loc.as_str());
        out.append(")");
        out
    }
}

/// Adds a frame, unless the trace is full.
fn emit(out: &mut Vec<RawFrame>, f: RawFrame, limit: usize)
    requires
        old(out)@.len() <= limit,
    ensures
        final(out)@.len() <= limit,
        raw_views(final(out)@) == limited(raw_views(old(out)@).push(f@), limit as nat),
{
    let ghost before = raw_views(out@);
    if out.len() < limit {
        out.push(f);
        assert(raw_views(out@) =~= before.push(f@));
    } else {
        assert(before.push(f@).take(limit as int) =~= before);
    }
}

proof fn lemma_limited_push(a: Seq<RawView>, x: RawView, limit: nat)
    ensures
        limited(limited(a, limit).push(x), limit) == limited(a.push(x), limit),
{
    assert(limited(limited(a, limit).push(x), limit) =~= limited(a.push(x), limit));
}

impl<'a> Walk<'a> {
    fn emit_inlined(
        &self,
        sources: &mut Sources,
        x: &Inlined,
        out: &mut Vec<RawFrame>,
        limit: usize,
        Ghost(env): Ghost<TraceEnv>,
        Ghost(names): Ghost<NativeNames>,
    ) -> (r: u32)
        requires
            self.of(env),
            steady(env, names, *old(sources)),
            old(out)@.len() <= limit,
        ensures
            steady(env, names, *final(sources)),
            final(out)@.len() <= limit,
            raw_views(final(out)@) == limited(
                raw_views(old(out)@) + env.inlined_frames(*x, x.regions@.len() as int),
                limit as nat,
            ),
            r == if x.regions@.len() == 0 {
                x.pos
            } else {
                x.regions@.last().0
            },
    {
        let ghost base = raw_views(out@);
        let mut pos: u32 = x.pos;
        let mut i: usize = 0;
        assert(base + env.inlined_frames(*x, 0) =~= base);
        while i < x.regions.len()
            invariant
                self.of(env),
                i <= x.regions@.len(),
                base == raw_views(old(out)@),
                steady(env, names, *sources),
                out@.len() <= limit,
                pos == if i == 0 {
                    x.pos
                } else {
                    x.regions@[i - 1].0
                },
                raw_views(out@) == limited(
                    base + env.inlined_frames(*x, i as int),
                    limit as nat,
                ),
            decreases x.regions@.len() - i,
        {
            let ghost prior = env.inlined_frames(*x, i as int);
            let ghost before = *sources;
            let (file, line, _) = place(sources, self.t.alive, x.src, pos);
            proof {
                lemma_steady(env, names, before, *sources);
                lemma_same_places(env, before);
            }
            let f = RawFrame::Code { line, eval: false, file };
            let g = RawFrame::Builtin(x.regions[i].1.clone());
            let ghost fv = f@;
            let ghost gv = g@;
            emit(out, f, limit);
            emit(out, g, limit);
            proof {
                lemma_limited_push(base + prior, fv, limit as nat);
                lemma_limited_push((base + prior).push(fv), gv, limit as nat);
                assert((base + prior).push(fv).push(gv) =~= base + prior.push(fv).push(gv));
                assert(env.inlined_frames(*x, i + 1) == prior.push(fv).push(gv));
            }
            pos = x.regions[i].0;
            i = i + 1;
        }
        pos
    }

    fn emit_own(
        &self,
        sources: &mut Sources,
        k: usize,
        site: u32,
        out: &mut Vec<RawFrame>,
        limit: usize,
        Ghost(env): Ghost<TraceEnv>,
        Ghost(names): Ghost<NativeNames>,
    )
        requires
            self.of(env),
            k < env.frames.len(),
            site == env.site(k as int),
            steady(env, names, *old(sources)),
            old(out)@.len() <= limit,
        ensures
            steady(env, names, *final(sources)),
            final(out)@.len() <= limit,
            raw_views(final(out)@) == limited(
                raw_views(old(out)@) + env.own_frames(k as int),
                limit as nat,
            ),
    {
        let ghost base = raw_views(out@);
        let fr = self.frame(k, Ghost(env));
        if fr.fn_ptr == 0 {
            let sf = match &fr.extra {
                Some(x) => match &x.script {
                    Some(sf) => sf,
                    None => {
                        assert(base + env.own_frames(k as int) =~= base);
                        return;
                    },
                },
                None => {
                    assert(base + env.own_frames(k as int) =~= base);
                    return;
                },
            };
            let pos: u32 = if site == NO_SITE || site & SITE_PC != 0 {
                NO_POS
            } else {
                site
            };
            let ghost before = *sources;
            let (file, line, _) = place(sources, self.t.alive, Some(sf.src), pos);
            proof {
                lemma_steady(env, names, before, *sources);
                lemma_same_places(env, before);
            }
            let file = if sf.eval {
                self.eval_origin(sources, k, Ghost(env), Ghost(names))
            } else {
                file
            };
            let f = RawFrame::Code { line, eval: sf.eval, file };
            let ghost fv = f@;
            emit(out, f, limit);
            assert(base + seq![fv] =~= base.push(fv));
            assert(env.own_frames(k as int) =~= seq![fv]);
            return;
        }
        if site != NO_SITE && site & SITE_PC != 0 && k < self.t.inlined.len() {
            if let Some(x) = &self.t.inlined[k] {
                let pos = self.emit_inlined(sources, x, out, limit, Ghost(env), Ghost(names));
                let at: u32 = if pos == NO_POS {
                    NO_SITE
                } else {
                    pos
                };
                let f = RawFrame::Function { callee: fr.fn_ptr, site: at, construct: fr.construct };
                let ghost fv = f@;
                emit(out, f, limit);
                proof {
                    let items = env.inlined_frames(*x, x.regions@.len() as int);
                    lemma_limited_push(base + items, fv, limit as nat);
                    assert((base + items).push(fv) =~= base + items.push(fv));
                    assert(env.own_frames(k as int) =~= items.push(fv));
                }
                return;
            }
        }
        let f = RawFrame::Function { callee: fr.fn_ptr, site, construct: fr.construct };
        let ghost fv = f@;
        emit(out, f, limit);
        assert(base + seq![fv] =~= base.push(fv));
        assert(env.own_frames(k as int) =~= seq![fv]);
    }
}

/// Captures the call stack: at most `limit` frames, innermost first. With a function to skip,
/// the frames up to and including its innermost call are left out; when it is not on the stack,
/// everything is if `must`, else nothing. Says too whether naming a builtin wanted an object
/// receiver that was not held.
pub fn capture_trace(
    cx: &CallCx,
    t: &TraceCx,
    names: &mut NativeNames,
    sources: &mut Sources,
    limit: usize,
    skip: Option<(u64, bool)>,
) -> (r: (Vec<RawFrame>, bool))
    requires
        old(sources).wf(),
        t.heap.has(t.global),
        full_stack(cx.calls).len() <= usize::MAX,
        forall|i: int|
            0 <= i < cx.natives@.len() ==> (#[trigger] cx.natives@[i]).recv_kind <= RECV_PRIM + 4,
    ensures
        final(sources).wf(),
        old(sources).same_facts(*final(sources), t.alive@),
        raw_views(r.0@) == limited(
            env_of(*cx, *t, *old(names), *old(sources)).whole(skip),
            limit as nat,
        ),
        r.1 == env_of(*cx, *t, *old(names), *old(sources)).whole_wants(
            Asked::Receiver,
            skip,
            limit as nat,
        ),
        old(names).scans(
            *final(names),
            *t.heap,
            t.global,
            env_of(*cx, *t, *old(names), *old(sources)).whole_wants(
                Asked::Names,
                skip,
                limit as nat,
            ),
        ),
        forall|q: u64| #[trigger]
            final(names).answer(*t.heap, t.global, q) == old(names).answer(*t.heap, t.global, q),
{
    let ghost env = env_of(*cx, *t, *names, *sources);
    let pending = cx.calls.pending_frames();
    let w = Walk { cx, pending, t };
    assert(w.of(env)) by {
        assert forall|i: int| 0 <= i < env.natives.len() implies (
        #[trigger] env.natives[i]).recv_kind <= RECV_PRIM + 4 by {
            assert(env.natives[i] == cx.natives@[cx.natives@.len() - 1 - i]);
        }
    }
    let n: usize = w.count(Ghost(env));
    let mut skipping: Option<u64> = None;
    if let Some((p, must)) = skip {
        let mut found = must;
        let mut i: usize = 0;
        while i < n && !found
            invariant
                w.of(env),
                n == env.frames.len(),
                i <= n,
                !found ==> forall|j: int|
                    0 <= j < i ==> (#[trigger] env.frames[j]).fn_ptr != p,
                found ==> must || exists|j: int|
                    0 <= j < n && (#[trigger] env.frames[j]).fn_ptr == p,
                must ==> found,
            decreases n - i,
        {
            if w.frame(i, Ghost(env)).fn_ptr == p {
                assert(env.frames[i as int].fn_ptr == p);
                found = true;
            }
            i = i + 1;
        }
        if found {
            skipping = Some(p);
        }
    }
    assert(skipping == env.skipped(skip));
    let ghost goal = limited(env.whole(skip), limit as nat);
    let mut out: Vec<RawFrame> = Vec::new();
    let mut unheld = false;
    let mut cursor: usize = 0;
    let mut k: usize = n;
    let ghost mut done: nat = 0;
    let ghost mut again = false;
    assert(raw_views(out@) =~= Seq::<RawView>::empty());
    assert(raw_views(out@) + env.whole(skip) =~= env.whole(skip));
    while k > 0
        invariant
            w.of(env),
            env == env_of(*cx, *t, *old(names), *old(sources)),
            goal == limited(env.whole(skip), limit as nat),
            out@.len() == if done < limit {
                done
            } else {
                limit as nat
            },
            (unheld || env.trace_wants(
                Asked::Receiver,
                k as int,
                cursor as int,
                skipping,
                done,
                limit as nat,
            )) == env.whole_wants(Asked::Receiver, skip, limit as nat),
            (again || env.trace_wants(
                Asked::Names,
                k as int,
                cursor as int,
                skipping,
                done,
                limit as nat,
            )) == env.whole_wants(Asked::Names, skip, limit as nat),
            env.names.scans(*names, env.heap, env.global, again),
            n == env.frames.len(),
            k <= n,
            cursor <= env.natives.len(),
            steady(env, *names, *sources),
            out@.len() <= limit,
            limited(
                raw_views(out@) + env.trace(k as int, cursor as int, skipping),
                limit as nat,
            ) == goal,
        decreases k,
    {
        if out.len() >= limit {
            proof {
                let a = raw_views(out@);
                let b = a + env.trace(k as int, cursor as int, skipping);
                assert(b.take(a.len() as int) =~= a);
                lemma_limited_prefix(a, b, limit as nat);
                lemma_done_wants_nothing(
                    env,
                    Asked::Names,
                    k as int,
                    cursor as int,
                    skipping,
                    done,
                    limit as nat,
                );
                lemma_done_wants_nothing(
                    env,
                    Asked::Receiver,
                    k as int,
                    cursor as int,
                    skipping,
                    done,
                    limit as nat,
                );
            }
            return (out, unheld);
        }
        let site = w.site(k - 1, n, Ghost(env));
        let start = cursor;
        if cursor < w.cx.natives.len() && site != NO_SITE {
            cursor = w.natives_end(cursor, site, Ghost(env));
        }
        match skipping {
            Some(p) => {
                if w.frame(k - 1, Ghost(env)).fn_ptr == p {
                    skipping = None;
                }
            },
            None => {
                let ghost a = raw_views(out@);
                let ghost ns = env.native_frames(start as int, cursor as int, k == n);
                let ghost own = env.own_frames(k - 1);
                let ghost rest = env.trace(k - 1, cursor as int, None);
                let held = w.emit_natives(
                    names,
                    start,
                    cursor,
                    k == n,
                    &mut out,
                    limit,
                    Ghost(env),
                    Ghost(*sources),
                    Ghost(again),
                );
                proof {
                    again = again || env.natives_want(
                        Asked::Names,
                        start as int,
                        cursor as int,
                        k == n,
                        a.len(),
                        limit as nat,
                    );
                }
                unheld = unheld || held;
                w.emit_own(sources, k - 1, site, &mut out, limit, Ghost(env), Ghost(*names));
                proof {
                    let l = limit as nat;
                    lemma_limited_sum(a + ns, own, l);
                    assert(raw_views(out@) == limited(a + ns + own, l));
                    lemma_limited_sum(a + ns + own, rest, l);
                    assert(a + (ns + own + rest) =~= a + ns + own + rest);
                    done = done + ns.len() + own.len();
                    assert((a + ns + own).len() == done);
                    assert(raw_views(out@).len() == out@.len());
                }
            },
        }
        k = k - 1;
    }
    assert(raw_views(out@) + env.trace(0, cursor as int, skipping) =~= raw_views(out@));
    (out, unheld)
}

proof fn lemma_full_wants_nothing(
    env: TraceEnv,
    what: Asked,
    from: int,
    j: int,
    to: int,
    top: bool,
    done: nat,
    limit: nat,
)
    requires
        from <= j <= to,
        done + env.native_frames(from, j, top).len() >= limit,
    ensures
        env.natives_want(what, from, to, top, done, limit) == env.natives_want(
            what,
            from,
            j,
            top,
            done,
            limit,
        ),
{
    assert forall|i: int| j <= i < to implies done + (#[trigger] env.native_frames(
        from,
        i,
        top,
    )).len() >= limit by {
        lemma_frames_grow(env, from, j, i, top);
    }
    assert forall|i: int|
        j <= i < to && #[trigger] env.asks(what, i) implies done + env.native_frames(
        from,
        i,
        top,
    ).len() >= limit by {}
}

proof fn lemma_done_wants_nothing(
    env: TraceEnv,
    what: Asked,
    k: int,
    cursor: int,
    skipping: Option<u64>,
    done: nat,
    limit: nat,
)
    requires
        done >= limit,
    ensures
        !env.trace_wants(what, k, cursor, skipping, done, limit),
    decreases k,
{
    if k > 0 {
        let c = env.cursor_after(k - 1, cursor);
        let top = k == env.frames.len();
        match skipping {
            Some(p) => {
                lemma_done_wants_nothing(
                    env,
                    what,
                    k - 1,
                    c,
                    if env.frames[k - 1].fn_ptr == p {
                        None
                    } else {
                        Some(p)
                    },
                    done,
                    limit,
                );
            },
            None => {
                let more = done + env.native_frames(cursor, c, top).len() + env.own_frames(
                    k - 1,
                ).len();
                lemma_done_wants_nothing(env, what, k - 1, c, None, more, limit);
            },
        }
    }
}

proof fn lemma_limited_prefix(a: Seq<RawView>, b: Seq<RawView>, limit: nat)
    requires
        limit <= a.len() <= b.len(),
        b.take(a.len() as int) == a,
    ensures
        limited(b, limit) == limited(a, limit),
{
    assert(b.take(limit as int) =~= a.take(limit as int));
    assert(a.take(a.len() as int) =~= a);
    assert(b.take(b.len() as int) =~= b);
}

proof fn lemma_limited_sum(a: Seq<RawView>, b: Seq<RawView>, limit: nat)
    ensures
        limited(limited(a, limit) + b, limit) == limited(a + b, limit),
{
    assert(limited(limited(a, limit) + b, limit) =~= limited(a + b, limit));
}

proof fn lemma_steady(env: TraceEnv, names: NativeNames, before: Sources, after: Sources)
    requires
        steady(env, names, before),
        before.same_facts(after, env.alive),
        after.wf(),
    ensures
        steady(env, names, after),
{
    assert forall|q: u64| env.alive.contains(q) implies #[trigger] after.facts(q)
        == env.sources.facts(q) by {
        assert(before.facts(q) == env.sources.facts(q));
    }
}

proof fn lemma_same_places(env: TraceEnv, sources: Sources)
    requires
        env.sources.same_facts(sources, env.alive),
    ensures
        forall|src: Option<u64>, pos: u32| #[trigger]
            place_of(sources, env.alive, src, pos) == env.place(src, pos),
        forall|callee: u64, site: u32, construct: bool| #[trigger]
            resolved_fn(env.heap, env.funcs, sources, env.alive, callee, site, construct)
                == resolved_fn(
                env.heap,
                env.funcs,
                env.sources,
                env.alive,
                callee,
                site,
                construct,
            ),
{
    assert forall|src: Option<u64>, pos: u32| #[trigger]
        place_of(sources, env.alive, src, pos) == env.place(src, pos) by {
        if let Some(s) = src {
            if env.alive.contains(s) {
                assert(sources.facts(s) == env.sources.facts(s));
            }
        }
    }
    assert forall|callee: u64, site: u32, construct: bool| #[trigger]
        resolved_fn(env.heap, env.funcs, sources, env.alive, callee, site, construct)
            == resolved_fn(
            env.heap,
            env.funcs,
            env.sources,
            env.alive,
            callee,
            site,
            construct,
        ) by {
        if env.heap.has(callee) {
            if let Callable::User(code) = env.heap.at(callee).call {
                if env.funcs.contains_key(code) {
                    let f = env.funcs[code];
                    assert(place_of(sources, env.alive, f.src, fn_pos(f, site)) == env.place(
                        f.src,
                        fn_pos(f, site),
                    ));
                }
            }
        }
    }
}

proof fn lemma_frames_grow(env: TraceEnv, from: int, j: int, to: int, top: bool)
    requires
        from <= j <= to,
    ensures
        env.native_frames(from, j, top).len() <= env.native_frames(from, to, top).len(),
        env.native_frames(from, to, top).take(env.native_frames(from, j, top).len() as int)
            == env.native_frames(from, j, top),
    decreases to - j,
{
    let a = env.native_frames(from, j, top);
    if j < to {
        lemma_frames_grow(env, from, j, to - 1, top);
        let b = env.native_frames(from, to - 1, top);
        let c = env.native_frames(from, to, top);
        assert(c.take(a.len() as int) =~= b.take(a.len() as int));
    } else {
        assert(a.take(a.len() as int) =~= a);
    }
}

proof fn lemma_all_skipped(env: TraceEnv, k: int, cursor: int, p: u64)
    requires
        0 <= k <= env.frames.len(),
        forall|i: int| 0 <= i < k ==> (#[trigger] env.frames[i]).fn_ptr != p,
    ensures
        env.trace(k, cursor, Some(p)) == Seq::<RawView>::empty(),
    decreases k,
{
    if k > 0 {
        lemma_all_skipped(env, k - 1, env.cursor_after(k - 1, cursor), p);
    }
}

/// A trace up to a function that is not on the stack is empty when the function must be there,
/// and whole when it need not be.
pub proof fn lemma_trace_up_to_an_absent_function(env: TraceEnv, p: u64)
    requires
        forall|i: int| 0 <= i < env.frames.len() ==> (#[trigger] env.frames[i]).fn_ptr != p,
    ensures
        env.whole(Some((p, true))) == Seq::<RawView>::empty(),
        env.whole(Some((p, false))) == env.whole(None),
{
    lemma_all_skipped(env, env.frames.len() as int, 0, p);
}

/// A trace with a smaller limit is the beginning of one with a greater limit.
pub proof fn lemma_limits_cut_the_same_trace(s: Seq<RawView>, small: nat, great: nat)
    requires
        small <= great,
    ensures
        limited(limited(s, great), small) == limited(s, small),
        limited(s, small).len() <= small,
{
    assert(limited(limited(s, great), small) =~= limited(s, small));
}

/// The number of frames that `Error.stackTraceLimit` allows; none, and so no stack at all, when
/// it is no Number. Without an error constructor it is ten.
pub open spec fn trace_limit(heap: Heap, error_ctor: Option<u64>) -> Option<int> {
    match error_ctor {
        None => Some(10),
        Some(c) => if !heap.has(c) {
            None
        } else {
            match data_of(heap.at(c).props@, "stackTraceLimit"@) {
                Some(Value::Num(n)) => Some(
                    if crate::num::nan(n) || crate::num::negative(n) || crate::num::zero(n) {
                        0
                    } else if n >= BILLION {
                        usize::MAX as int
                    } else {
                        crate::num::integer_part(n)
                    },
                ),
                _ => None,
            }
        },
    }
}

/// The Number 10^9.
pub const BILLION: u64 = 0x41cd_cd65_0000_0000;

proof fn lemma_small_integer_part(n: u64)
    requires
        n < BILLION,
    ensures
        0 <= crate::num::integer_part(n) < 0x4000_0000,
{
    let e = crate::num::exponent(n);
    let f = crate::num::FRAC as int;
    assert(n as int / f <= BILLION as int / f) by (nonlinear_arith)
        requires
            0 <= n <= BILLION,
            f > 0,
    ;
    assert(BILLION as int / f == 1052);
    if e >= 1023 {
        let m = crate::num::significand(n);
        let k = (1075 - e) as nat;
        lemma_pow2_adds(23, (k - 23) as nat);
        lemma_pow2_pos((k - 23) as nat);
        assert(pow2(23) == 0x80_0000) by {
            vstd::arithmetic::power2::lemma2_to64();
        }
        let p = pow2(k) as int;
        assert(p >= 0x80_0000) by (nonlinear_arith)
            requires
                p == 0x80_0000 * pow2((k - 23) as nat),
                pow2((k - 23) as nat) > 0,
        ;
        assert(0 <= m < 0x20_0000_0000_0000);
        assert(0 <= m / p < 0x4000_0000) by (nonlinear_arith)
            requires
                0 <= m < 0x20_0000_0000_0000,
                p >= 0x80_0000,
        ;
    }
}

/// The number of frames that a trace may have.
pub fn stack_trace_limit(heap: &Heap, error_ctor: Option<u64>) -> (r: Option<usize>)
    ensures
        match trace_limit(*heap, error_ctor) {
            Some(n) => r matches Some(m) && m == n,
            None => r is None,
        },
{
    let c: u64 = match error_ctor {
        Some(c) => c,
        None => {
            return Some(10);
        },
    };
    if !heap.holds(c) {
        return None;
    }
    match heap.get(c).props.get_data("stackTraceLimit") {
        Some(Value::Num(n)) => {
            if crate::num::is_nan(n) || n >= crate::num::SIGN || crate::num::is_zero(n) {
                return Some(0);
            }
            if n >= BILLION {
                return Some(usize::MAX);
            }
            proof {
                lemma_small_integer_part(n);
            }
            Some(crate::num::to_uint32(n) as usize)
        },
        _ => None,
    }
}

} // verus!
