//! The frames of top-level code and of resumed coroutines, and how sources get their names.

use crate::bytecode::jit::records::{first_pending, full_stack, marked_from};
use crate::embed_convert::op_error::{new_error, OpError, OpErrorView};
use crate::interpreter::call_cx::{same_outside_call, CallCx};
use crate::interpreter::frames::{FnFrame, FrameExtra, ScriptFrame, NO_SITE};
use crate::interpreter::line_table::{byte_off, utf8_len, LazyTable};
use crate::interpreter::sources::{SourceFacts, Sources};
use crate::interpreter::stack_trace::FnInfo;
use crate::object::{Callable, Heap};
use crate::value::Value;
use std::collections::{HashMap, HashSet};
use vstd::prelude::*;

verus! {

broadcast use vstd::std_specs::hash::group_hash_axioms;

/// The frame of top-level code.
pub open spec fn script_frame(cx: CallCx, src: u64, eval: bool) -> FnFrame {
    FnFrame {
        fn_ptr: 0,
        coro: cx.cur_coro,
        caller_site: cx.cur_site,
        strict: false,
        construct: false,
        extra: Some(FrameExtra { reflect: None, script: Some(ScriptFrame { src, eval }) }),
    }
}

/// A frame was pushed at a depth.
pub open spec fn pushed(before: CallCx, after: CallCx, f: FnFrame, depth: usize) -> bool {
    &&& depth == full_stack(before.calls).len()
    &&& after.calls.fn_frames@ == full_stack(before.calls).push(f)
    &&& after.calls.recs@ == marked_from(before.calls.recs@, first_pending(before.calls.recs@))
    &&& after.cur_site == NO_SITE
    &&& after.flags == before.flags
    &&& same_outside_call(after, before)
}

/// The frames without the one at a depth, where that one is for the function.
pub open spec fn popped(before: CallCx, after: CallCx, depth: usize, fn_ptr: u64) -> bool {
    let fs = before.calls.fn_frames@;
    &&& after.flags == before.flags
    &&& same_outside_call(after, before)
    &&& after.calls.recs@ == before.calls.recs@
    &&& if depth < fs.len() && fs[depth as int].fn_ptr == fn_ptr {
        &&& after.calls.fn_frames@ == fs.remove(depth as int)
        &&& after.cur_site == fs[depth as int].caller_site
    } else {
        &&& after.calls.fn_frames@ == fs
        &&& after.cur_site == before.cur_site
    }
}

/// What a coroutine pushes as its frame each time it resumes.
pub enum ResumeFrame {
    Nothing,
    /// The function whose body it is. The first resume may run inside that function's own call,
    /// which has the frame.
    Function { f: u64, skip_first: bool },
    /// A module body with a top-level `await`.
    Script { src: u64 },
}

impl CallCx {
    /// Pushes the frame of top-level code, and gives its depth.
    pub fn push_script_frame(&mut self, src: u64, eval: bool) -> (r: usize)
        ensures
            pushed(*old(self), *final(self), script_frame(*old(self), src, eval), r),
    {
        self.calls.sync_frames();
        let depth: usize = self.calls.fn_frames.len();
        let f = FnFrame {
            fn_ptr: 0,
            coro: self.cur_coro,
            caller_site: self.cur_site,
            strict: false,
            construct: false,
            extra: Some(
                FrameExtra { reflect: None, script: Some(ScriptFrame { src, eval }) },
            ),
        };
        self.calls.fn_frames.push(f);
        self.cur_site = NO_SITE;
        depth
    }

    /// Pops the frame that was pushed at a depth for a function, and puts its caller's site back.
    /// It is left alone if something unbalanced the stack meanwhile.
    pub fn pop_pushed_frame(&mut self, depth: usize, fn_ptr: u64)
        ensures
            popped(*old(self), *final(self), depth, fn_ptr),
    {
        if depth < self.calls.fn_frames.len() && self.calls.fn_frames[depth].fn_ptr == fn_ptr {
            let f = self.calls.fn_frames.remove(depth);
            self.cur_site = f.caller_site;
        }
    }

    /// Pushes a resuming coroutine's frame. `strict` is that of the function; none when it is
    /// gone or no user function. Gives what [`CallCx::leave_resume_frame`] needs.
    pub fn enter_resume_frame(
        &mut self,
        frame: &ResumeFrame,
        started: bool,
        strict: Option<bool>,
    ) -> (r: Option<(usize, u64)>)
        ensures
            match *frame {
                ResumeFrame::Nothing => r is None && *final(self) == *old(self),
                ResumeFrame::Function { f, skip_first } => if (skip_first && !started) || strict
                    is None {
                    r is None && *final(self) == *old(self)
                } else {
                    r matches Some((depth, p)) && p == f && pushed(
                        *old(self),
                        *final(self),
                        FnFrame {
                            fn_ptr: f,
                            coro: old(self).cur_coro,
                            caller_site: old(self).cur_site,
                            strict: strict->0,
                            construct: false,
                            extra: None,
                        },
                        depth,
                    )
                },
                ResumeFrame::Script { src } => {
                    r matches Some((depth, p)) && p == 0 && pushed(
                        *old(self),
                        *final(self),
                        script_frame(*old(self), src, false),
                        depth,
                    )
                },
            },
    {
        match frame {
            ResumeFrame::Nothing => None,
            ResumeFrame::Function { f, skip_first } => {
                if *skip_first && !started {
                    return None;
                }
                match strict {
                    None => None,
                    Some(s) => {
                        self.calls.sync_frames();
                        let depth: usize = self.calls.fn_frames.len();
                        let fr = FnFrame {
                            fn_ptr: *f,
                            coro: self.cur_coro,
                            caller_site: self.cur_site,
                            strict: s,
                            construct: false,
                            extra: None,
                        };
                        self.calls.fn_frames.push(fr);
                        self.cur_site = NO_SITE;
                        Some((depth, *f))
                    },
                }
            },
            ResumeFrame::Script { src } => {
                let depth = self.push_script_frame(*src, false);
                Some((depth, 0))
            },
        }
    }

    /// Pops the frame of a coroutine that leaves again.
    pub fn leave_resume_frame(&mut self, entered: Option<(usize, u64)>)
        ensures
            match entered {
                Some((depth, p)) => popped(*old(self), *final(self), depth, p),
                None => *final(self) == *old(self),
            },
    {
        if let Some((depth, p)) = entered {
            self.pop_pushed_frame(depth, p);
        }
    }

    /// The resume frame of a coroutine made inside the call of a function: that function, if the
    /// innermost frame runs it.
    pub fn resume_frame_for(&self, heap: &Heap, code: u64, skip_first: bool) -> (r: ResumeFrame)
        ensures
            ({
                let fs = self.calls.fn_frames@;
                let same = fs.len() > 0 && fs.last().fn_ptr != 0 && heap.has(fs.last().fn_ptr)
                    && heap.at(fs.last().fn_ptr).call == Callable::User(code);
                r == if same {
                    ResumeFrame::Function { f: fs.last().fn_ptr, skip_first }
                } else {
                    ResumeFrame::Nothing
                }
            }),
    {
        let n: usize = self.calls.fn_frames.len();
        if n == 0 {
            return ResumeFrame::Nothing;
        }
        let p: u64 = self.calls.fn_frames[n - 1].fn_ptr;
        if p == 0 || !heap.holds(p) {
            return ResumeFrame::Nothing;
        }
        match heap.get(p).call {
            Callable::User(c) if c == code => ResumeFrame::Function { f: p, skip_first },
            _ => ResumeFrame::Nothing,
        }
    }

    /// The source that the innermost frame's positions are offsets into.
    pub fn innermost_source(&self, heap: &Heap, funcs: &HashMap<u64, FnInfo>) -> (r: Option<u64>)
        ensures
            r == source_of_frame(self.calls.fn_frames@, *heap, funcs@),
    {
        let n: usize = self.calls.fn_frames.len();
        if n == 0 {
            return None;
        }
        let fr = &self.calls.fn_frames[n - 1];
        if fr.fn_ptr == 0 {
            return match &fr.extra {
                Some(x) => match &x.script {
                    Some(sf) => Some(sf.src),
                    None => None,
                },
                None => None,
            };
        }
        if !heap.holds(fr.fn_ptr) {
            return None;
        }
        match heap.get(fr.fn_ptr).call {
            Callable::User(c) => match funcs.get(&c) {
                Some(f) => f.src,
                None => None,
            },
            _ => None,
        }
    }
}

/// The source that the last frame's positions are offsets into.
pub open spec fn source_of_frame(fs: Seq<FnFrame>, heap: Heap, funcs: Map<u64, FnInfo>) -> Option<
    u64,
> {
    if fs.len() == 0 {
        None
    } else if fs.last().fn_ptr == 0 {
        match fs.last().extra {
            Some(x) => match x.script {
                Some(sf) => Some(sf.src),
                None => None,
            },
            None => None,
        }
    } else if heap.has(fs.last().fn_ptr) {
        match heap.at(fs.last().fn_ptr).call {
            Callable::User(c) => if funcs.contains_key(c) {
                funcs[c].src
            } else {
                None
            },
            _ => None,
        }
    } else {
        None
    }
}

/// The resume frame of a module body.
pub fn resume_frame_script(src: Option<u64>) -> (r: ResumeFrame)
    ensures
        r == match src {
            Some(src) => ResumeFrame::Script { src },
            None => ResumeFrame::Nothing,
        },
{
    match src {
        Some(src) => ResumeFrame::Script { src },
        None => ResumeFrame::Nothing,
    }
}

/// Leaving a frame that was entered puts the call stack and the call site back as they were.
pub proof fn lemma_entered_frames_are_left(
    before: CallCx,
    during: CallCx,
    after: CallCx,
    f: FnFrame,
    depth: usize,
)
    requires
        pushed(before, during, f, depth),
        f.caller_site == before.cur_site,
        popped(during, after, depth, f.fn_ptr),
    ensures
        after.calls.fn_frames@ == full_stack(before.calls),
        after.cur_site == before.cur_site,
        after.flags == before.flags,
        same_outside_call(after, before),
{
    assert(full_stack(before.calls).push(f).remove(depth as int) =~= full_stack(before.calls));
}

/// What follows the parameters of a synthesized function: its body starts behind it.
pub const BODY_MARK: &'static str = "\n) {\n";

/// Whether a text occurs at an index.
pub open spec fn occurs_at(s: Seq<char>, pat: Seq<char>, i: int) -> bool {
    0 <= i && i + pat.len() <= s.len() && s.subrange(i, i + pat.len()) == pat
}

/// Where a text occurs first, from an index on.
pub open spec fn first_occurrence(s: Seq<char>, pat: Seq<char>, from: int) -> Option<int>
    decreases s.len() - from,
{
    if from < 0 || from + pat.len() > s.len() {
        None
    } else if occurs_at(s, pat, from) {
        Some(from)
    } else if from >= s.len() {
        None
    } else {
        first_occurrence(s, pat, from + 1)
    }
}

fn is_mark_at(cs: &Vec<char>, i: usize) -> (r: bool)
    ensures
        r == occurs_at(cs@, BODY_MARK@, i as int),
{
    proof {
        reveal_strlit("\n) {\n");
        assert(BODY_MARK@ =~= seq!['\n', ')', ' ', '{', '\n']);
    }
    if i > cs.len() || cs.len() - i < 5 {
        return false;
    }
    let ghost w = cs@.subrange(i as int, i + 5);
    assert(w[0] == cs@[i as int] && w[1] == cs@[i + 1] && w[2] == cs@[i + 2] && w[3] == cs@[i + 3]
        && w[4] == cs@[i + 4]);
    let r = cs[i] == '\n' && cs[i + 1] == ')' && cs[i + 2] == ' ' && cs[i + 3] == '{' && cs[i + 4]
        == '\n';
    assert(r ==> w =~= BODY_MARK@);
    r
}

/// Where the body of a synthesized function starts, as a byte offset.
pub open spec fn body_offset(s: Seq<char>) -> Option<u32> {
    match first_occurrence(s, BODY_MARK@, 0) {
        Some(i) => Some((byte_off(s, i) + 5) as u32),
        None => None,
    }
}

proof fn lemma_byte_off_at_least(s: Seq<char>, i: int, j: int)
    requires
        0 <= i <= j,
    ensures
        byte_off(s, i) + (j - i) <= byte_off(s, j),
    decreases j - i,
{
    if i < j {
        lemma_byte_off_at_least(s, i, j - 1);
    }
}

fn char_bytes(c: char) -> (r: u32)
    ensures
        r == utf8_len(c),
{
    let v: u32 = c as u32;
    if v < 0x80 {
        1
    } else if v < 0x800 {
        2
    } else if v < 0x1_0000 {
        3
    } else {
        4
    }
}

/// Where the body of a synthesized function starts, as a byte offset.
pub fn body_start(text: &str) -> (r: Option<u32>)
    requires
        byte_off(text@, text@.len() as int) < u32::MAX,
    ensures
        r == body_offset(text@),
{
    let cs = crate::text::chars_of(text);
    let ghost s = cs@;
    proof {
        reveal_strlit("\n) {\n");
    }
    let mut i: usize = 0;
    let mut at: u32 = 0;
    while i < cs.len()
        invariant
            cs@ == s,
            s == text@,
            i <= s.len(),
            BODY_MARK@.len() == 5,
            at == byte_off(s, i as int),
            byte_off(s, s.len() as int) < u32::MAX,
            first_occurrence(s, BODY_MARK@, 0) == first_occurrence(s, BODY_MARK@, i as int),
        decreases s.len() - i,
    {
        proof {
            lemma_byte_off_at_least(s, i + 1, s.len() as int);
            lemma_byte_off_at_least(s, i as int, s.len() as int);
        }
        if is_mark_at(&cs, i) {
            return Some(at + 5);
        }
        at = at + char_bytes(cs[i]);
        i = i + 1;
    }
    None
}

/// Names the source of a dynamic function after a file: its frames print as that file, with
/// lines and columns counted from the body that was passed, and a call of the function itself as
/// a module's wrapper. False when it is no such function; then no source is renamed.
pub fn name_function_source(
    sources: &mut Sources,
    heap: &Heap,
    funcs: &HashMap<u64, FnInfo>,
    f: &Value,
    filename: &str,
    alive: &HashSet<u64>,
) -> (r: bool)
    requires
        old(sources).wf(),
    ensures
        final(sources).wf(),
        r == (named_source(*heap, funcs@, *old(sources), alive@, *f) is Some),
        match named_source(*heap, funcs@, *old(sources), alive@, *f) {
            Some(src) => {
                let was = old(sources).facts(src);
                &&& final(sources).facts(src) == SourceFacts {
                    name: filename@,
                    body_start: match body_offset(old(sources).texts@[src as int]@) {
                        Some(b) => b,
                        None => was.body_start,
                    },
                    wrapper: if f->Obj_0 != 0 {
                        f->Obj_0
                    } else {
                        was.wrapper
                    },
                    table: was.table,
                }
                &&& final(sources).texts == old(sources).texts
                &&& forall|q: u64| alive@.contains(q) && q != src ==> #[trigger] final(
                    sources).facts(q) == old(sources).facts(q)
            },
            None => *final(sources) == *old(sources),
        },
{
    let o: u64 = match f {
        Value::Obj(o) => *o,
        _ => {
            return false;
        },
    };
    if !heap.holds(o) {
        return false;
    }
    let src: u64 = match heap.get(o).call {
        Callable::User(c) => match funcs.get(&c) {
            Some(i) => match i.src {
                Some(s) => {
                    if !i.dynamic {
                        return false;
                    }
                    s
                },
                None => {
                    return false;
                },
            },
            None => {
                return false;
            },
        },
        _ => {
            return false;
        },
    };
    if src >= sources.texts.len() as u64 || !alive.contains(&src) {
        return false;
    }
    assert(sources.texts.len() == sources.texts@.len());
    let start = body_start(sources.texts[src as usize].as_str());
    sources.register(src, Some(filename), start, o, None, alive);
    true
}

/// The source of a dynamic function.
pub open spec fn named_source(
    heap: Heap,
    funcs: Map<u64, FnInfo>,
    sources: Sources,
    alive: Set<u64>,
    f: Value,
) -> Option<u64> {
    match f {
        Value::Obj(o) => if heap.has(o) {
            match heap.at(o).call {
                Callable::User(c) => if funcs.contains_key(c) {
                    match funcs[c].src {
                        Some(s) => if funcs[c].dynamic && s < sources.texts@.len()
                            && alive.contains(s) {
                            Some(s)
                        } else {
                            None
                        },
                        None => None,
                    }
                } else {
                    None
                },
                _ => None,
            }
        } else {
            None
        },
        _ => None,
    }
}

/// Why a CommonJS module did not compile.
pub enum CjsFailure {
    /// It does not parse, for this reason.
    Script(String),
    /// It is TypeScript that does not parse: what was thrown for it.
    TypeScript(Option<Value>),
}

/// Compiles a CommonJS module to a function. `parsed` is the function that was made, with the
/// source that its text is a range of: positions are the file's, its frames print as the file,
/// and a call of the function itself as the module's wrapper. A failure is a `SyntaxError`, or
/// what was thrown for it.
pub fn compile_cjs_function(
    sources: &mut Sources,
    parsed: Result<(Value, Option<u64>), CjsFailure>,
    filename: &str,
    alive: &HashSet<u64>,
) -> (r: Result<Value, OpError>)
    requires
        old(sources).wf(),
        parsed matches Ok((_, Some(s))) ==> s < old(sources).texts@.len() && alive@.contains(s),
    ensures
        final(sources).wf(),
        final(sources).texts == old(sources).texts,
        match parsed {
            Ok((f, src)) => {
                &&& r == Ok::<Value, OpError>(f)
                &&& match (f, src) {
                    (Value::Obj(o), Some(s)) => {
                        let was = old(sources).facts(s);
                        &&& final(sources).facts(s) == SourceFacts {
                            name: filename@,
                            body_start: 0,
                            wrapper: if o != 0 {
                                o
                            } else {
                                was.wrapper
                            },
                            table: was.table,
                        }
                        &&& forall|q: u64| alive@.contains(q) && q != s ==> #[trigger] final(
                            sources).facts(q) == old(sources).facts(q)
                    },
                    _ => *final(sources) == *old(sources),
                }
            },
            Err(why) => {
                &&& *final(sources) == *old(sources)
                &&& r matches Err(e) && match why {
                    CjsFailure::Script(m) => e@ == new_error("SyntaxError"@, m@),
                    CjsFailure::TypeScript(Some(v)) => e@ == OpErrorView::Thrown(v),
                    CjsFailure::TypeScript(None) => e@ == OpErrorView::Thrown(Value::Undefined),
                }
            },
        },
{
    match parsed {
        Ok((f, src)) => {
            if let (Value::Obj(o), Some(s)) = (&f, src) {
                sources.register(s, Some(filename), Some(0), *o, None, alive);
            }
            Ok(f)
        },
        Err(CjsFailure::Script(m)) => Err(OpError::syntax_error(m.as_str())),
        Err(CjsFailure::TypeScript(Some(v))) => Err(OpError::thrown(v)),
        Err(CjsFailure::TypeScript(None)) => Err(OpError::thrown(Value::Undefined)),
    }
}

/// Registers the source that code was just parsed from, where there is anything to say of it.
pub fn adopt_parsed_source(
    sources: &mut Sources,
    parsed: Option<(u64, Option<LazyTable>)>,
    name: Option<&str>,
    body_start: u32,
    alive: &HashSet<u64>,
) -> (r: Option<u64>)
    requires
        old(sources).wf(),
        parsed matches Some((s, t)) ==> s < old(sources).texts@.len() && alive@.contains(s) && (
        t matches Some(t) ==> t.wf()),
    ensures
        final(sources).wf(),
        match parsed {
            None => r is None && *final(sources) == *old(sources),
            Some((s, table)) => {
                &&& r == Some(s)
                &&& if name is Some || table is Some || body_start != 0 {
                    let f = old(sources).facts(s);
                    final(sources).facts(s) == SourceFacts {
                        name: match name {
                            Some(n) => n@,
                            None => f.name,
                        },
                        body_start,
                        wrapper: f.wrapper,
                        table: match table {
                            Some(t) => t.table(),
                            None => f.table,
                        },
                    }
                } else {
                    *final(sources) == *old(sources)
                }
                &&& final(sources).texts == old(sources).texts
                &&& forall|q: u64| alive@.contains(q) && q != s ==> #[trigger] final(
                    sources).facts(q) == old(sources).facts(q)
            },
        },
{
    match parsed {
        None => None,
        Some((s, table)) => {
            if name.is_some() || table.is_some() || body_start != 0 {
                sources.register(s, name, Some(body_start), 0, table, alive);
            }
            Some(s)
        },
    }
}

} // verus!
