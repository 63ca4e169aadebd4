//! The text of a stack trace, the `stack` property, and call sites.

use crate::embed_convert::op_error::{new_error, OpError};
use crate::interpreter::native_names::starts_with;
use crate::interpreter::sources::Sources;
use crate::interpreter::stack_trace::{
    resolve_fn, resolved_fn, FrameKind, RawFrame, RawView, Resolved, ResolvedView, TraceCx,
};
use crate::object::{
    lookup, only_props_changed, put, Heap, PropKind, Property,
};
use crate::value::Value;
use std::collections::HashMap;
use vstd::prelude::*;

verus! {

broadcast use vstd::std_specs::hash::group_hash_axioms;

/// A captured frame, resolved.
pub open spec fn resolved_raw(t: TraceCx, sources: Sources, f: RawView) -> ResolvedView {
    match f {
        RawView::Builtin(n) => ResolvedView {
            func: Value::Undefined,
            name: None,
            file: n,
            line: None,
            kind: FrameKind::Builtin,
            wrapper: false,
            strict: false,
        },
        RawView::Code { line, eval, file } => ResolvedView {
            func: Value::Undefined,
            name: None,
            file,
            line,
            kind: if eval {
                FrameKind::Eval
            } else {
                FrameKind::TopLevel
            },
            wrapper: false,
            strict: false,
        },
        RawView::Function { callee, site, construct } => resolved_fn(
            *t.heap,
            t.funcs@,
            sources,
            t.alive@,
            callee,
            site,
            construct,
        ),
    }
}

pub open spec fn resolved_views(rs: Seq<Resolved>) -> Seq<ResolvedView> {
    Seq::new(rs.len(), |i: int| rs[i]@)
}

fn resolve_one(t: &TraceCx, sources: &mut Sources, f: &RawFrame) -> (r: Resolved)
    requires
        old(sources).wf(),
    ensures
        final(sources).wf(),
        old(sources).same_facts(*final(sources), t.alive@),
        r@ == resolved_raw(*t, *old(sources), f@),
{
    match f {
        RawFrame::Builtin(n) => Resolved {
            func: Value::Undefined,
            name: None,
            file: n.clone(),
            line: None,
            kind: FrameKind::Builtin,
            wrapper: false,
            strict: false,
        },
        RawFrame::Code { line, eval, file } => Resolved {
            func: Value::Undefined,
            name: None,
            file: file.clone(),
            line: *line,
            kind: if *eval {
                FrameKind::Eval
            } else {
                FrameKind::TopLevel
            },
            wrapper: false,
            strict: false,
        },
        RawFrame::Function { callee, site, construct } => resolve_fn(
            t,
            sources,
            *callee,
            *site,
            *construct,
        ),
    }
}

proof fn lemma_same_resolution(t: TraceCx, a: Sources, b: Sources, f: RawView)
    requires
        a.same_facts(b, t.alive@),
    ensures
        resolved_raw(t, b, f) == resolved_raw(t, a, f),
{
    if let RawView::Function { callee, site, construct } = f {
        if t.heap.has(callee) {
            if let crate::object::Callable::User(code) = t.heap.at(callee).call {
                if t.funcs@.contains_key(code) {
                    let i = t.funcs@[code];
                    if let Some(s) = i.src {
                        if t.alive@.contains(s) {
                            assert(b.facts(s) == a.facts(s));
                        }
                    }
                }
            }
        }
    }
}

/// Resolves a captured trace.
pub fn resolve_raw(t: &TraceCx, sources: &mut Sources, raw: &Vec<RawFrame>) -> (r: Vec<Resolved>)
    requires
        old(sources).wf(),
    ensures
        final(sources).wf(),
        old(sources).same_facts(*final(sources), t.alive@),
        r@.len() == raw@.len(),
        forall|i: int|
            0 <= i < raw@.len() ==> (#[trigger] r@[i])@ == resolved_raw(
                *t,
                *old(sources),
                raw@[i]@,
            ),
{
    let mut out: Vec<Resolved> = Vec::new();
    let mut i: usize = 0;
    while i < raw.len()
        invariant
            i <= raw@.len(),
            out@.len() == i,
            sources.wf(),
            old(sources).same_facts(*sources, t.alive@),
            forall|j: int|
                0 <= j < i ==> (#[trigger] out@[j])@ == resolved_raw(
                    *t,
                    *old(sources),
                    raw@[j]@,
                ),
        decreases raw@.len() - i,
    {
        let ghost before = *sources;
        let r = resolve_one(t, sources, &raw[i]);
        proof {
            lemma_same_resolution(*t, *old(sources), before, raw@[i as int]@);
            assert forall|q: u64| t.alive@.contains(q) implies #[trigger] sources.facts(q)
                == old(sources).facts(q) by {
                assert(before.facts(q) == old(sources).facts(q));
            }
        }
        out.push(r);
        i = i + 1;
    }
    out
}

/// The first line of a stack: the name and the message, `Error` where there is no name.
pub open spec fn header(name: Option<Seq<char>>, message: Option<Seq<char>>) -> Seq<char> {
    let n = match name {
        Some(n) => n,
        None => "Error"@,
    };
    let m = match message {
        Some(m) => m,
        None => ""@,
    };
    if m.len() == 0 {
        n
    } else if n.len() == 0 {
        m
    } else {
        n + ": "@ + m
    }
}

/// The first line of a stack, from the error's name and message; none for one that is
/// `undefined`.
pub fn stack_header(name: Option<String>, message: Option<String>) -> (r: String)
    ensures
        r@ == header(
            match name {
                Some(n) => Some(n@),
                None => None,
            },
            match message {
                Some(m) => Some(m@),
                None => None,
            },
        ),
{
    proof {
        reveal_strlit("");
    }
    let n = match name {
        Some(n) => n,
        None => "Error".to_owned(),
    };
    let m = match message {
        Some(m) => m,
        None => "".to_owned(),
    };
    if m.as_str().is_empty() {
        n
    } else if n.as_str().is_empty() {
        m
    } else {
        let mut out = n;
        out.append(": ");
        out.append(m.as_str());
        out
    }
}

/// The lines of a trace.
pub open spec fn frame_lines(rs: Seq<ResolvedView>) -> Seq<char>
    decreases rs.len(),
{
    if rs.len() == 0 {
        Seq::empty()
    } else {
        frame_lines(rs.drop_last()) + ("\n    at "@ + rs.last().text())
    }
}

/// The text of a stack: the header, then a line for each frame.
pub fn default_text(head: String, frames: &Vec<Resolved>) -> (r: String)
    ensures
        r@ == head@ + frame_lines(resolved_views(frames@)),
{
    let ghost h = head@;
    let ghost vs = resolved_views(frames@);
    let mut out = head;
    let mut i: usize = 0;
    assert(vs.take(0) =~= Seq::<ResolvedView>::empty());
    assert(out@ =~= h + frame_lines(vs.take(0)));
    while i < frames.len()
        invariant
            i <= frames@.len(),
            vs == resolved_views(frames@),
            out@ == h + frame_lines(vs.take(i as int)),
        decreases frames@.len() - i,
    {
        proof {
            assert(vs.take(i + 1).drop_last() =~= vs.take(i as int));
            assert(vs.take(i + 1).last() == frames@[i as int]@);
        }
        let t = frames[i].text();
        out.append("\n    at ");
        out.append(t.as_str());
        assert(out@ =~= h + frame_lines(vs.take(i + 1)));
        i = i + 1;
    }
    assert(vs.take(i as int) =~= vs);
    out
}

/// Whether `Error.prepareStackTrace` formats a trace: it is a function, and it is not running.
pub fn prepares(heap: &Heap, prepare: &Value, in_prepare: bool) -> (r: bool)
    ensures
        r == (!in_prepare && heap.spec_callable(*prepare)),
{
    !in_prepare && heap.is_callable(prepare)
}

/// The captured traces and formatted stacks of objects.
pub struct Stacks {
    pub raw: HashMap<u64, Vec<RawFrame>>,
    pub done: HashMap<u64, Value>,
}

/// What reading a `stack` finds.
pub enum StackRead {
    /// The formatted stack, or `undefined` without a trace.
    Ready(Value),
    /// A trace that is to be formatted now.
    Format,
}

impl Stacks {
    /// No traces.
    pub fn new() -> (r: Stacks)
        ensures
            r.raw@ == Map::<u64, Vec<RawFrame>>::empty(),
            r.done@ == Map::<u64, Value>::empty(),
    {
        Stacks { raw: HashMap::new(), done: HashMap::new() }
    }

    /// The `stack` of an object.
    pub open spec fn stack_at(self, o: u64) -> StackRead {
        if self.done@.contains_key(o) {
            StackRead::Ready(self.done@[o])
        } else if self.raw@.contains_key(o) {
            StackRead::Format
        } else {
            StackRead::Ready(Value::Undefined)
        }
    }

    /// The formatted stack of an object is kept, and its trace is let go.
    pub open spec fn kept(self, after: Stacks, o: u64, v: Value) -> bool {
        &&& after.done@ == self.done@.insert(o, v)
        &&& after.raw@ == self.raw@.remove(o)
    }

    /// An object has a new trace, which is to be formatted.
    pub open spec fn traced(self, after: Stacks, o: u64, trace: Vec<RawFrame>) -> bool {
        &&& after.done@ == self.done@.remove(o)
        &&& after.raw@ == self.raw@.insert(o, trace)
    }

    /// The `stack` of an object: the formatted one, else its trace is to be formatted.
    pub fn read_stack(&self, o: u64) -> (r: StackRead)
        ensures
            r == self.stack_at(o),
    {
        if let Some(v) = self.done.get(&o) {
            return StackRead::Ready(v.duplicate());
        }
        if self.raw.contains_key(&o) {
            StackRead::Format
        } else {
            StackRead::Ready(Value::Undefined)
        }
    }

    /// The `stack` of an object whose trace was formatted: it is kept, and the trace is let go.
    /// When formatting threw, the read throws that, and the trace is formatted on the next read.
    pub fn finish_read(&mut self, o: u64, formatted: Result<Value, Value>) -> (r: Result<
        Value,
        Value,
    >)
        ensures
            r == formatted,
            match formatted {
                Ok(v) => old(self).kept(*final(self), o, v),
                Err(_) => *final(self) == *old(self),
            },
    {
        match formatted {
            Err(e) => Err(e),
            Ok(v) => {
                self.done.insert(o, v.duplicate());
                self.raw.remove(&o);
                assert(self.raw@ =~= old(self).raw@.remove(o));
                Ok(v)
            },
        }
    }

    /// `Error.captureStackTrace` on an object with a trace: the object gets a `stack` accessor
    /// that formats the trace on its first read.
    pub fn capture_stack_trace(
        &mut self,
        heap: &mut Heap,
        target: &Value,
        trace: Vec<RawFrame>,
        accessors: Option<(u64, u64)>,
    ) -> (r: Result<(), OpError>)
        requires
            *target matches Value::Obj(o) ==> old(heap).has(o),
        ensures
            match *target {
                Value::Obj(o) => match accessors {
                    None => r is Ok && *final(heap) == *old(heap) && *final(self) == *old(self),
                    Some((get, set)) => {
                        let ob = old(heap).at(o);
                        match lookup(ob.props@, "stack"@) {
                            Some(p) if !p.configurable => {
                                &&& r matches Err(e)
                                &&& e@ == new_error(
                                    "TypeError"@,
                                    "Cannot redefine property: stack"@,
                                )
                                &&& *final(heap) == *old(heap)
                                &&& *final(self) == *old(self)
                            },
                            None if !ob.extensible => {
                                &&& r matches Err(e)
                                &&& e@ == new_error(
                                    "TypeError"@,
                                    "Cannot define property stack, object is not extensible"@,
                                )
                                &&& *final(heap) == *old(heap)
                                &&& *final(self) == *old(self)
                            },
                            _ => {
                                &&& r is Ok
                                &&& old(self).traced(*final(self), o, trace)
                                &&& only_props_changed(
                                    *old(heap),
                                    *final(heap),
                                    o,
                                    put(
                                        ob.props@,
                                        "stack"@,
                                        Property {
                                            kind: PropKind::Accessor {
                                                get: Some(Value::Obj(get)),
                                                set: Some(Value::Obj(set)),
                                            },
                                            writable: false,
                                            enumerable: false,
                                            configurable: true,
                                        },
                                    ),
                                )
                            },
                        }
                    },
                },
                _ => {
                    &&& r matches Err(e)
                    &&& e@ == new_error("TypeError"@, "Invalid argument"@)
                    &&& *final(heap) == *old(heap)
                    &&& *final(self) == *old(self)
                },
            },
    {
        let o: u64 = match target {
            Value::Obj(o) => *o,
            _ => {
                return Err(OpError::type_error("Invalid argument"));
            },
        };
        let (get, set) = match accessors {
            Some(x) => x,
            None => {
                return Ok(());
            },
        };
        let ob = heap.get(o);
        match ob.props.get("stack") {
            Some(p) => {
                if !p.configurable {
                    return Err(OpError::type_error("Cannot redefine property: stack"));
                }
            },
            None => {
                if !ob.extensible {
                    return Err(
                        OpError::type_error(
                            "Cannot define property stack, object is not extensible",
                        ),
                    );
                }
            },
        }
        self.done.remove(&o);
        assert(self.done@ =~= old(self).done@.remove(o));
        self.raw.insert(o, trace);
        heap.set_prop(
            o,
            "stack",
            Property::accessor_prop(Some(Value::Obj(get)), Some(Value::Obj(set)), false, true),
        );
        Ok(())
    }
}

/// What a capture leaves out for a function argument: frames up to and including its innermost
/// call, and everything when it is not on the stack.
pub fn skip_for(heap: &Heap, until: &Value) -> (r: Option<(u64, bool)>)
    ensures
        r == if heap.spec_callable(*until) {
            Some((until->Obj_0, true))
        } else {
            None
        },
{
    match until {
        Value::Obj(f) if heap.is_callable(until) => Some((*f, true)),
        _ => None,
    }
}

/// A frame as `Error.prepareStackTrace` sees it.
pub struct CallSite {
    function: Value,
    file: Option<String>,
    line: Option<(u32, u32)>,
    name: Option<String>,
    construct: bool,
    top_level: bool,
    eval: bool,
    wrapper: bool,
    origin: Option<String>,
    text: String,
}

pub struct CallSiteView {
    pub function: Value,
    pub file: Option<Seq<char>>,
    pub line: Option<(u32, u32)>,
    pub name: Option<Seq<char>>,
    pub construct: bool,
    pub top_level: bool,
    pub eval: bool,
    pub wrapper: bool,
    pub origin: Option<Seq<char>>,
    pub text: Seq<char>,
}

pub open spec fn opt_text(s: Option<String>) -> Option<Seq<char>> {
    match s {
        Some(t) => Some(t@),
        None => None,
    }
}

impl View for CallSite {
    type V = CallSiteView;

    closed spec fn view(&self) -> CallSiteView {
        CallSiteView {
            function: self.function,
            file: opt_text(self.file),
            line: self.line,
            name: opt_text(self.name),
            construct: self.construct,
            top_level: self.top_level,
            eval: self.eval,
            wrapper: self.wrapper,
            origin: opt_text(self.origin),
            text: self.text@,
        }
    }
}

/// The call site of a frame. Strict code hides its function, eval code its file, and a wrapper
/// or top-level code has no name.
pub open spec fn site_of(r: ResolvedView) -> CallSiteView {
    let function = r.kind is Function;
    let eval = r.kind == FrameKind::Eval;
    CallSiteView {
        function: if r.strict {
            Value::Undefined
        } else {
            r.func
        },
        file: if eval {
            None
        } else {
            Some(r.file)
        },
        line: r.line,
        name: if !r.wrapper && function {
            r.name
        } else {
            None
        },
        construct: r.kind == FrameKind::Function { construct: true },
        top_level: !function,
        eval,
        wrapper: r.wrapper,
        origin: if eval {
            Some(r.file)
        } else {
            None
        },
        text: r.text(),
    }
}

/// The call site of a frame.
pub fn callsite(r: &Resolved) -> (s: CallSite)
    ensures
        s@ == site_of(r@),
{
    let (function, construct) = match r.kind {
        FrameKind::Function { construct } => (true, construct),
        _ => (false, false),
    };
    let eval = r.kind == FrameKind::Eval;
    let name = match &r.name {
        Some(n) => if !r.wrapper && function {
            Some(n.clone())
        } else {
            None
        },
        None => None,
    };
    CallSite {
        function: if r.strict {
            Value::Undefined
        } else {
            r.func.duplicate()
        },
        file: if eval {
            None
        } else {
            Some(r.file.clone())
        },
        line: r.line,
        name,
        construct,
        top_level: !function,
        eval,
        wrapper: r.wrapper,
        origin: if eval {
            Some(r.file.clone())
        } else {
            None
        },
        text: r.text(),
    }
}

fn text_value(s: &Option<String>, none: Value) -> (r: Value)
    ensures
        match *s {
            Some(t) => r matches Value::Str(x) && x@ == t@,
            None => r == none,
        },
{
    match s {
        Some(t) => Value::Str(t.clone()),
        None => none,
    }
}

/// The methods of a call site.
impl CallSite {
    /// `getFunction`: `undefined` in strict code.
    pub fn get_function(&self) -> (r: Value)
        ensures
            r == self@.function,
    {
        self.function.duplicate()
    }

    /// `getFunctionName`: `null` without one.
    pub fn get_function_name(&self) -> (r: Value)
        ensures
            match self@.name {
                Some(n) => r matches Value::Str(x) && x@ == n,
                None => r == Value::Null,
            },
    {
        text_value(&self.name, Value::Null)
    }

    /// `getFileName`: `undefined` in eval code.
    pub fn get_file_name(&self) -> (r: Value)
        ensures
            match self@.file {
                Some(n) => r matches Value::Str(x) && x@ == n,
                None => r == Value::Undefined,
            },
    {
        text_value(&self.file, Value::Undefined)
    }

    /// `getTypeName`: `Object` for a module's wrapper, else `null`.
    pub fn get_type_name(&self) -> (r: Value)
        ensures
            if self@.wrapper {
                r matches Value::Str(x) && x@ == "Object"@
            } else {
                r == Value::Null
            },
    {
        if self.wrapper {
            Value::Str("Object".to_owned())
        } else {
            Value::Null
        }
    }

    /// `getLineNumber`: `null` where it is not known.
    pub fn get_line_number(&self) -> (r: Value)
        ensures
            match self@.line {
                Some((l, _)) => r matches Value::Num(n) && crate::num::integer_value(n) == Some(
                    l as int,
                ),
                None => r == Value::Null,
            },
    {
        match self.line {
            Some((l, _)) => Value::Num(crate::num::from_int(l as u64)),
            None => Value::Null,
        }
    }

    /// `getColumnNumber`: `null` where it is not known.
    pub fn get_column_number(&self) -> (r: Value)
        ensures
            match self@.line {
                Some((_, c)) => r matches Value::Num(n) && crate::num::integer_value(n) == Some(
                    c as int,
                ),
                None => r == Value::Null,
            },
    {
        match self.line {
            Some((_, c)) => Value::Num(crate::num::from_int(c as u64)),
            None => Value::Null,
        }
    }

    /// `getEvalOrigin`: where eval code was called, else the file.
    pub fn get_eval_origin(&self) -> (r: Value)
        ensures
            match (self@.origin, self@.file) {
                (Some(n), _) => r matches Value::Str(x) && x@ == n,
                (None, Some(n)) => r matches Value::Str(x) && x@ == n,
                (None, None) => r == Value::Undefined,
            },
    {
        match &self.origin {
            Some(t) => Value::Str(t.clone()),
            None => text_value(&self.file, Value::Undefined),
        }
    }

    /// `isToplevel`.
    pub fn is_toplevel(&self) -> (r: bool)
        ensures
            r == self@.top_level,
    {
        self.top_level
    }

    /// `isEval`.
    pub fn is_eval(&self) -> (r: bool)
        ensures
            r == self@.eval,
    {
        self.eval
    }

    /// `isConstructor`.
    pub fn is_constructor(&self) -> (r: bool)
        ensures
            r == self@.construct,
    {
        self.construct
    }

    /// `toString`: the frame's text.
    pub fn text(&self) -> (r: String)
        ensures
            r@ == self@.text,
    {
        self.text.clone()
    }
}

/// A stack that was formatted reads back, whatever other stacks are kept, until the next capture
/// on its object, after which it is formatted anew.
pub proof fn lemma_kept_stack_reads_back(
    before: Stacks,
    kept: Stacks,
    later: Stacks,
    o: u64,
    v: Value,
    p: u64,
    w: Value,
    trace: Vec<RawFrame>,
)
    requires
        before.kept(kept, o, v),
    ensures
        kept.stack_at(o) == StackRead::Ready(v),
        p != o && kept.kept(later, p, w) ==> later.stack_at(o) == StackRead::Ready(v),
        p != o && kept.traced(later, p, trace) ==> later.stack_at(o) == StackRead::Ready(v),
        kept.traced(later, o, trace) ==> later.stack_at(o) is Format,
{
}

/// How a module's key prints in a trace: an absolute path as a `file://` URL, anything else as it
/// is.
pub open spec fn module_name(key: Seq<char>) -> Seq<char> {
    let path = if starts_with(key, VERBATIM@) {
        key.skip(4)
    } else {
        key
    };
    if is_drive(path) {
        "file:///"@ + slashed(path)
    } else if path.len() > 0 && path[0] == '/' {
        "file://"@ + path
    } else {
        key
    }
}

/// The prefix of a path that is taken as it is.
pub const VERBATIM: &'static str = "\\\\?\\";

/// Whether a path starts with a drive letter.
pub open spec fn is_drive(path: Seq<char>) -> bool {
    path.len() > 2 && is_letter(path[0]) && path[1] == ':' && (path[2] == '/' || path[2] == '\\')
}

pub open spec fn is_letter(c: char) -> bool {
    'a' <= c <= 'z' || 'A' <= c <= 'Z'
}

/// A path with slashes.
pub open spec fn slashed(path: Seq<char>) -> Seq<char> {
    Seq::new(
        path.len(),
        |i: int|
            if path[i] == '\\' {
                '/'
            } else {
                path[i]
            },
    )
}

/// How a module's key prints in a trace.
pub fn module_display_name(key: &str) -> (r: String)
    ensures
        r@ == module_name(key@),
{
    let cs = crate::text::chars_of(key);
    proof {
        reveal_strlit("\\\\?\\");
    }
    let from: usize = if cs.len() >= 4 && cs[0] == '\\' && cs[1] == '\\' && cs[2] == '?' && cs[3]
        == '\\' {
        4
    } else {
        0
    };
    let ghost path = cs@.skip(from as int);
    proof {
        assert(VERBATIM@ =~= seq!['\\', '\\', '?', '\\']);
        if cs@.len() >= 4 {
            assert(starts_with(key@, VERBATIM@) == (from == 4)) by {
                let t = key@.take(4);
                assert(t[0] == cs@[0] && t[1] == cs@[1] && t[2] == cs@[2] && t[3] == cs@[3]);
                if from == 4 {
                    assert(t =~= VERBATIM@);
                }
            }
        }
        assert(from == 0 ==> path =~= key@);
    }
    let n: usize = cs.len() - from;
    let drive = n > 2 && ((cs[from] >= 'a' && cs[from] <= 'z') || (cs[from] >= 'A' && cs[from]
        <= 'Z')) && cs[from + 1] == ':' && (cs[from + 2] == '/' || cs[from + 2] == '\\');
    if drive {
        let mut out = "file:///".to_owned();
        let mut i: usize = from;
        let ghost head = out@;
        assert(out@ =~= head + slashed(path).take(0));
        while i < cs.len()
            invariant
                from <= i <= cs@.len(),
                path == cs@.skip(from as int),
                out@ == head + slashed(path).take(i - from),
            decreases cs@.len() - i,
        {
            let c: char = cs[i];
            assert(path[i - from] == c);
            if c == '\\' {
                out.push('/');
            } else {
                out.push(c);
            }
            assert(out@ =~= head + slashed(path).take(i + 1 - from));
            i = i + 1;
        }
        assert(slashed(path).take(i - from) =~= slashed(path));
        return out;
    }
    if n > 0 && cs[from] == '/' {
        let mut out = "file://".to_owned();
        let mut i: usize = from;
        let ghost head = out@;
        assert(out@ =~= head + path.take(0));
        while i < cs.len()
            invariant
                from <= i <= cs@.len(),
                path == cs@.skip(from as int),
                out@ == head + path.take(i - from),
            decreases cs@.len() - i,
        {
            out.push(cs[i]);
            assert(out@ =~= head + path.take(i + 1 - from));
            i = i + 1;
        }
        assert(path.take(i - from) =~= path);
        return out;
    }
    key.to_owned()
}

} // verus!
