//! What a stack trace says: of each frame its function, its file, its line and its column, from
//! the innermost call outwards.

use crate::ast::NO_POS;
use crate::bytecode::positions::position_at;
use crate::interpreter::frames::{
    kind_of_receiver, pos_of_site, prim_text, tagged_native, NativeCtx, NO_SITE, RECV_NONE,
    RECV_OBJ, RECV_PRIM, SITE_NATIVE, SITE_PC,
};
use crate::interpreter::line_table::{ends_line, utf16_len, utf8_len};
use crate::interpreter::native_names::{
    captures, ends_with, frame_name, inherited_data, object_type_name, own_text, receiver_name,
    NativeNames,
};
use crate::interpreter::sources::{position, SourceFacts, Sources};
use crate::interpreter::stack_trace::{
    origin_text, resolved_fn, trace_limit, FnInfo, FrameKind, RawView, ResolvedView, TraceCx,
    TraceEnv,
};
use crate::interpreter::trace_text::{frame_lines, header, module_name, resolved_raw, site_of};
use crate::object::{data_of, Heap};
use crate::text::dec_digits;
use crate::value::Value;
use vstd::prelude::*;

verus! {

// ---- one frame ------------------------------------------------------------------------------

/// The location of a frame is its file, then its line and column where they are known; of eval
/// code the file is not named.
pub proof fn lemma_locations_name_file_line_and_column(r: ResolvedView)
    ensures
        r.kind != FrameKind::Eval ==> match r.line {
            Some((l, c)) => r.location() == r.file + ":"@ + dec_digits(l as nat) + ":"@
                + dec_digits(c as nat),
            None => r.location() == r.file,
        },
        r.kind == FrameKind::Eval ==> match r.line {
            Some((l, c)) => r.location() == "<anonymous>"@ + ":"@ + dec_digits(l as nat) + ":"@
                + dec_digits(c as nat),
            None => r.location() == "<anonymous>"@,
        },
{
}

/// A location begins with the file, and frames of different files without a position have
/// different locations.
pub proof fn lemma_locations_tell_files_apart(a: ResolvedView, b: ResolvedView)
    requires
        a.kind != FrameKind::Eval,
        b.kind != FrameKind::Eval,
    ensures
        a.file.len() <= a.location().len(),
        a.location().take(a.file.len() as int) == a.file,
        a.line is None && b.line is None && a.file != b.file ==> a.location() != b.location(),
{
    assert(a.location().take(a.file.len() as int) =~= a.file);
}

/// The text of a function's frame: its name, `new ` where it constructs, and the location in
/// brackets; one without a name is its location alone, unless it constructs.
pub proof fn lemma_function_frames_read_as_their_name_and_location(r: ResolvedView)
    requires
        r.kind is Function,
    ensures
        ({
            let file_line = match r.line {
                Some((l, c)) => r.file + ":"@ + dec_digits(l as nat) + ":"@ + dec_digits(c as nat),
                None => r.file,
            };
            let construct = r.kind->construct;
            if r.wrapper {
                r.text() == (if construct {
                    "new "@ + "Object.<anonymous>"@
                } else {
                    "Object.<anonymous>"@
                }) + " ("@ + file_line + ")"@
            } else {
                match r.name {
                    Some(n) => r.text() == (if construct {
                        "new "@ + n
                    } else {
                        n
                    }) + " ("@ + file_line + ")"@,
                    None => r.text() == if construct {
                        "new <anonymous> ("@ + file_line + ")"@
                    } else {
                        file_line
                    },
                }
            }
        }),
{
}

/// The texts of the other frames.
pub proof fn lemma_other_frames_read_as_where_they_are(r: ResolvedView)
    ensures
        r.kind == FrameKind::TopLevel ==> r.text() == match r.line {
            Some((l, c)) => r.file + ":"@ + dec_digits(l as nat) + ":"@ + dec_digits(c as nat),
            None => r.file,
        },
        r.kind == FrameKind::Builtin ==> r.text() == r.file + " (<anonymous>)"@,
        r.kind == FrameKind::Eval ==> r.text() == "eval ("@ + r.file + ", "@ + (match r.line {
            Some((l, c)) => "<anonymous>"@ + ":"@ + dec_digits(l as nat) + ":"@ + dec_digits(
                c as nat,
            ),
            None => "<anonymous>"@,
        }) + ")"@,
{
}

/// Where eval code was called from.
pub proof fn lemma_eval_origins_name_the_caller(r: ResolvedView)
    requires
        r.kind != FrameKind::Eval,
    ensures
        ({
            let file_line = match r.line {
                Some((l, c)) => r.file + ":"@ + dec_digits(l as nat) + ":"@ + dec_digits(c as nat),
                None => r.file,
            };
            let name = if r.wrapper {
                "Object.<anonymous>"@
            } else if r.name is Some {
                r.name->0
            } else {
                "<anonymous>"@
            };
            origin_text(r) == "eval at "@ + name + " ("@ + file_line + ")"@
        }),
{
}

/// A function's frame names the file of its source, and the line and column of its site there;
/// what is not known of it is left open.
pub proof fn lemma_function_frames_are_found_in_their_source(
    heap: Heap,
    funcs: Map<u64, FnInfo>,
    sources: Sources,
    alive: Set<u64>,
    callee: u64,
    site: u32,
    construct: bool,
)
    ensures
        ({
            let r = resolved_fn(heap, funcs, sources, alive, callee, site, construct);
            &&& r.func == Value::Obj(callee)
            &&& r.kind == (FrameKind::Function { construct })
            &&& r.name == (if heap.has(callee) {
                match data_of(heap.at(callee).props@, "name"@) {
                    Some(Value::Str(s)) => if s@.len() == 0 {
                        None
                    } else {
                        Some(s@)
                    },
                    _ => None,
                }
            } else {
                None
            })
            &&& if heap.has(callee) && heap.at(callee).call is User && funcs.contains_key(
                heap.at(callee).call->User_0,
            ) {
                let f = funcs[heap.at(callee).call->User_0];
                let pos = if site == NO_SITE {
                    NO_POS
                } else if site & SITE_PC == 0 {
                    site
                } else if f.code is None {
                    NO_POS
                } else {
                    position_at(
                        f.code->0.ops@,
                        f.code->0.positions@,
                        (site & !SITE_PC) as usize as int,
                    )
                };
                &&& r.strict == f.is_strict
                &&& if f.src is Some && f.src->0 < sources.texts@.len() && alive.contains(
                    f.src->0,
                ) {
                    let s = sources.facts(f.src->0);
                    &&& r.file == s.name
                    &&& r.line == position(s, pos)
                    &&& r.wrapper <==> callee == s.wrapper && callee != 0
                } else {
                    r.file == "<anonymous>"@ && r.line is None && !r.wrapper
                }
            } else {
                r.file == "<anonymous>"@ && r.line is None && !r.wrapper && !r.strict
            }
        }),
{
}

/// A frame that was captured as a text or as code keeps what it was captured with.
pub proof fn lemma_captured_frames_keep_their_place(
    t: TraceCx,
    sources: Sources,
    n: Seq<char>,
    line: Option<(u32, u32)>,
    eval: bool,
    file: Seq<char>,
)
    ensures
        ({
            let b = resolved_raw(t, sources, RawView::Builtin(n));
            &&& b.kind == FrameKind::Builtin
            &&& b.file == n
            &&& b.line is None && b.name is None && !b.wrapper && b.func == Value::Undefined
        }),
        ({
            let c = resolved_raw(t, sources, RawView::Code { line, eval, file });
            &&& eval ==> c.kind == FrameKind::Eval
            &&& !eval ==> c.kind == FrameKind::TopLevel
            &&& c.file == file
            &&& c.line == line
            &&& c.name is None && !c.wrapper && c.func == Value::Undefined
        }),
{
}

/// A position before a source's body or in no source has no line; in the body lines and columns
/// count from one, and on its first line columns count from its start.
pub proof fn lemma_positions_count_from_the_body(f: SourceFacts, pos: u32, l: u32, c: u32, bl: u32, bc: u32)
    ensures
        f.table is None || pos == NO_POS || pos < f.body_start ==> position(f, pos) is None,
        f.table is Some && pos != NO_POS && pos >= f.body_start && f.table->0.line_col(pos) == Some(
            (l, c),
        ) && f.table->0.line_col(f.body_start) == Some((bl, bc)) && bl <= l < u32::MAX && c
            < u32::MAX ==> {
            &&& l == bl && c >= bc ==> position(f, pos) == Some((1u32, (c - bc + 1) as u32))
            &&& l > bl ==> position(f, pos) == Some(((l - bl + 1) as u32, (c + 1) as u32))
        },
{
}

/// What a call site says of a frame.
pub proof fn lemma_call_sites_say_what_the_frame_is(r: ResolvedView)
    ensures
        ({
            let s = site_of(r);
            &&& r.strict ==> s.function == Value::Undefined
            &&& !r.strict ==> s.function == r.func
            &&& s.eval <==> r.kind == FrameKind::Eval
            &&& s.eval ==> s.file is None && s.origin == Some(r.file)
            &&& !s.eval ==> s.file == Some(r.file) && s.origin is None
            &&& s.line == r.line
            &&& s.construct <==> (r.kind matches FrameKind::Function { construct } && construct)
            &&& s.top_level <==> !(r.kind is Function)
            &&& s.wrapper == r.wrapper
            &&& s.name == (if r.kind is Function && !r.wrapper {
                r.name
            } else {
                None
            })
            &&& s.text == r.text()
        }),
{
}

// ---- the text -------------------------------------------------------------------------------

/// The first line of a stack: the name and the message, with a colon where there are both.
pub proof fn lemma_headers_hold_name_and_message(n: Seq<char>, m: Seq<char>)
    ensures
        n.len() > 0 && m.len() > 0 ==> header(Some(n), Some(m)) == n + ": "@ + m,
        n.len() > 0 ==> header(Some(n), None) == n,
        n.len() > 0 && m.len() == 0 ==> header(Some(n), Some(m)) == n,
        n.len() == 0 ==> header(Some(n), Some(m)) == m,
        m.len() > 0 ==> header(None, Some(m)) == "Error"@ + ": "@ + m,
        header(None, None) == "Error"@,
{
    reveal_strlit("");
    reveal_strlit("Error");
}

/// Every frame has a line of its own, in order.
pub proof fn lemma_every_frame_has_a_line(a: Seq<ResolvedView>, b: Seq<ResolvedView>, r: ResolvedView)
    ensures
        frame_lines(Seq::empty()) == Seq::<char>::empty(),
        frame_lines(seq![r]) == "\n    at "@ + r.text(),
        frame_lines(a + b) == frame_lines(a) + frame_lines(b),
    decreases b.len(),
{
    assert(seq![r].drop_last() =~= Seq::<ResolvedView>::empty());
    reveal_with_fuel(frame_lines, 2);
    assert(seq![r].last() == r);
    assert(frame_lines(seq![r]) =~= "\n    at "@ + r.text());
    if b.len() == 0 {
        assert(a + b =~= a);
        assert(frame_lines(a) + Seq::<char>::empty() =~= frame_lines(a));
    } else {
        lemma_every_frame_has_a_line(a, b.drop_last(), r);
        assert((a + b).drop_last() =~= a + b.drop_last());
        assert((a + b).last() == b.last());
        let l = "\n    at "@ + b.last().text();
        assert(frame_lines(a) + (frame_lines(b.drop_last()) + l) =~= (frame_lines(a) + frame_lines(
            b.drop_last(),
        )) + l);
    }
}

/// A module that is a path is shown as a file URL, another one as it is.
pub proof fn lemma_modules_are_shown_as_urls(key: Seq<char>)
    ensures
        key.len() > 0 && key[0] == '/' ==> module_name(key) == "file://"@ + key,
        key.len() > 2 && ('a' <= key[0] <= 'z' || 'A' <= key[0] <= 'Z') && key[1] == ':' && (key[2]
            == '/' || key[2] == '\\') ==> {
            let m = module_name(key);
            &&& m.len() == 8 + key.len()
            &&& m.take(8) == "file:///"@
            &&& forall|i: int|
                0 <= i < key.len() ==> #[trigger] m[8 + i] == (if key[i] == '\\' {
                    '/'
                } else {
                    key[i]
                })
        },
        key.len() > 0 && key[0] != '/' && key[0] != '\\' && !(key.len() > 2 && ('a' <= key[0]
            <= 'z' || 'A' <= key[0] <= 'Z') && key[1] == ':' && (key[2] == '/' || key[2] == '\\'))
            ==> module_name(key) == key,
        key.len() == 0 ==> module_name(key) == key,
{
    reveal_strlit("\\\\?\\");
    reveal_strlit("file:///");
    let v = crate::interpreter::trace_text::VERBATIM@;
    assert(v.len() == 4 && v[0] == '\\');
    if key.len() > 0 && key[0] != '\\' {
        if key.len() >= 4 {
            assert(key.take(4)[0] == key[0]);
        }
        assert(!crate::interpreter::native_names::starts_with(key, v));
    }
    if crate::interpreter::trace_text::is_drive(key) && key[0] != '\\' {
        assert(module_name(key).take(8) =~= "file:///"@);
    }
}

// ---- which frames ---------------------------------------------------------------------------

impl TraceEnv {
    /// Nothing but calls of functions: no native runs and nothing was inlined.
    pub open spec fn plain(self) -> bool {
        &&& self.natives.len() == 0
        &&& self.inlined.len() == 0
        &&& forall|i: int| 0 <= i < self.frames.len() ==> (#[trigger] self.frames[i]).fn_ptr != 0
    }

    /// The site that the frame `k` is at: where it made the call of the next one, or where it is
    /// now.
    pub open spec fn at_site(self, k: int) -> u32 {
        let raw = if k == self.frames.len() - 1 {
            self.cur_site
        } else {
            self.frames[k + 1].caller_site
        };
        if raw == NO_SITE {
            raw
        } else {
            raw & !SITE_NATIVE
        }
    }
}

proof fn lemma_plain_trace_below(env: TraceEnv, k: int, i: int)
    requires
        env.plain(),
        0 <= k <= env.frames.len(),
    ensures
        env.trace(k, 0, None).len() == k,
        0 <= i < k ==> env.trace(k, 0, None)[i] == (RawView::Function {
            callee: env.frames[k - 1 - i].fn_ptr,
            site: env.at_site(k - 1 - i),
            construct: env.frames[k - 1 - i].construct,
        }),
    decreases k,
{
    if k > 0 {
        lemma_plain_trace_below(env, k - 1, i - 1);
        let own = env.own_frames(k - 1);
        assert(own.len() == 1);
        assert(env.native_frames(0, env.cursor_after(k - 1, 0), k == env.frames.len()).len() == 0);
        assert(env.trace(k, 0, None) =~= own + env.trace(k - 1, 0, None));
    }
}

/// The calls of functions are in the trace from the innermost outwards, each with the site that
/// it is at.
pub proof fn lemma_calls_are_traced_innermost_first(env: TraceEnv, i: int)
    requires
        env.plain(),
        0 <= i < env.frames.len(),
    ensures
        env.whole(None).len() == env.frames.len(),
        env.whole(None)[i] == (RawView::Function {
            callee: env.frames[env.frames.len() - 1 - i].fn_ptr,
            site: env.at_site(env.frames.len() - 1 - i),
            construct: env.frames[env.frames.len() - 1 - i].construct,
        }),
{
    lemma_plain_trace_below(env, env.frames.len() as int, i);
}

proof fn lemma_skipped_below(env: TraceEnv, p: u64, k: int, j: int)
    requires
        env.plain(),
        0 <= j < k <= env.frames.len(),
        env.frames[j].fn_ptr == p,
        forall|i: int| j < i < k ==> (#[trigger] env.frames[i]).fn_ptr != p,
    ensures
        env.trace(k, 0, Some(p)) == env.trace(j, 0, None),
    decreases k,
{
    if k - 1 > j {
        assert(env.frames[k - 1].fn_ptr != p);
        lemma_skipped_below(env, p, k - 1, j);
    }
}

/// A trace up to a function leaves out its innermost call and everything inside it, and keeps the
/// rest.
pub proof fn lemma_traces_up_to_a_function_start_at_its_caller(
    env: TraceEnv,
    p: u64,
    must: bool,
    j: int,
)
    requires
        env.plain(),
        0 <= j < env.frames.len(),
        env.frames[j].fn_ptr == p,
        forall|i: int| j < i < env.frames.len() ==> (#[trigger] env.frames[i]).fn_ptr != p,
    ensures
        env.whole(Some((p, must))) == env.whole(None).skip(env.frames.len() - j),
        env.whole(Some((p, must))).len() == j,
{
    let n = env.frames.len() as int;
    lemma_skipped_below(env, p, n, j);
    lemma_plain_trace_below(env, n, 0);
    lemma_plain_trace_below(env, j, 0);
    let a = env.trace(j, 0, None);
    let b = env.trace(n, 0, None).skip(n - j);
    assert forall|i: int| 0 <= i < j implies a[i] == b[i] by {
        lemma_plain_trace_below(env, j, i);
        lemma_plain_trace_below(env, n, n - j + i);
    }
    assert(a =~= b);
}

/// A builtin that a frame calls stands before it, by its name; the builtin that makes the error is
/// left out.
pub proof fn lemma_builtins_stand_before_their_caller(env: TraceEnv)
    requires
        env.frames.len() == 1,
        env.inlined.len() == 0,
        env.frames[0].fn_ptr != 0,
        env.natives.len() == 1,
        env.cur_site != NO_SITE,
        !tagged_native(env.natives[0].site),
        pos_of_site(env.natives[0].site) == pos_of_site(env.cur_site),
        pos_of_site(env.cur_site) != NO_SITE,
    ensures
        ({
            let own = RawView::Function {
                callee: env.frames[0].fn_ptr,
                site: env.at_site(0),
                construct: env.frames[0].construct,
            };
            env.whole(None) == match frame_name(env.names, env.heap, env.global, env.natives[0]) {
                Some(n) => if captures(n) {
                    seq![own]
                } else {
                    seq![RawView::Builtin(n), own]
                },
                None => seq![own],
            }
        }),
{
    reveal_with_fuel(TraceEnv::natives_end, 3);
    reveal_with_fuel(TraceEnv::run_end, 3);
    reveal_with_fuel(TraceEnv::native_frames, 3);
    reveal_with_fuel(TraceEnv::trace, 3);
    assert(env.run_end(0) == 0);
    assert(env.run_end(1) == 1);
    assert(env.natives_end(1, env.site(0)) == 1);
    assert(env.natives_end(0, env.site(0)) == 1);
    assert(env.cursor_after(0, 0) == 1);
    let ns = env.native_frames(0, 1, true);
    assert(env.whole(None) =~= ns + env.own_frames(0));
    match frame_name(env.names, env.heap, env.global, env.natives[0]) {
        Some(n) => {
            if captures(n) {
                assert(ns =~= Seq::empty());
            } else {
                assert(ns =~= seq![RawView::Builtin(n)]);
            }
        },
        None => {
            assert(ns =~= Seq::empty());
        },
    }
}

/// A builtin is named by what it was called on: with `new` where it constructs, by itself without
/// a receiver, else after the receiver's type. One that is hidden, or that nothing names, has no
/// frame.
pub proof fn lemma_builtins_are_named_by_their_receiver(
    names: NativeNames,
    heap: Heap,
    global: u64,
    c: NativeCtx,
    n: Seq<char>,
    home: Option<Seq<char>>,
)
    ensures
        c.hidden ==> frame_name(names, heap, global, c) is None,
        names.answer(heap, global, c.id) is None ==> frame_name(names, heap, global, c) is None,
        !c.hidden && !tagged_native(c.site) && (names.answer(heap, global, c.id) matches Some(a)
            && a.name == n && a.home == home) ==> {
            let r = frame_name(names, heap, global, c);
            &&& c.construct ==> r == Some("new "@ + n)
            &&& !c.construct && c.recv_kind == RECV_NONE ==> r == Some(n)
            &&& !c.construct && c.recv_kind == RECV_OBJ && c.this is Some ==> r == Some(
                object_type_name(heap, c.this->0) + "."@ + n,
            )
            &&& !c.construct && c.recv_kind == RECV_OBJ && c.this is None && home is Some ==> r
                == Some(home->0 + "."@ + n)
            &&& !c.construct && c.recv_kind == RECV_OBJ && c.this is None && home is None ==> r
                == Some(n)
            &&& forall|v: Value|
                !c.construct && c.recv_kind == kind_of_receiver(v) && !(v is Obj) && !(
                v is Undefined) && !(v is Null) && !(v is Empty) ==> r == Some(
                    #[trigger] receiver_name(heap, v) + "."@ + n,
                )
        },
{
}

/// What a value is called as a receiver.
pub proof fn lemma_receivers_are_called_by_their_type(heap: Heap, v: Value)
    ensures
        v is Str ==> receiver_name(heap, v) == "String"@,
        v is Num ==> receiver_name(heap, v) == "Number"@,
        v is Bool ==> receiver_name(heap, v) == "Boolean"@,
        v is Sym ==> receiver_name(heap, v) == "Symbol"@,
        v is BigInt ==> receiver_name(heap, v) == "BigInt"@,
        v is Undefined || v is Null || v is Empty ==> receiver_name(heap, v) == "Object"@
            && kind_of_receiver(v) == RECV_NONE,
        v is Obj ==> kind_of_receiver(v) == RECV_OBJ,
        v is Str || v is Num || v is Bool || v is Sym || v is BigInt ==> RECV_PRIM
            <= kind_of_receiver(v) <= RECV_PRIM + 4 && prim_text(
            (kind_of_receiver(v) - RECV_PRIM) as u8,
        ) == receiver_name(heap, v),
{
}

/// A function is called by its name; another object by the name of its constructor, or where that
/// says nothing by its string tag.
pub proof fn lemma_objects_are_called_by_their_constructor(heap: Heap, o: u64, f: u64, n: Seq<char>)
    requires
        heap.has(o),
    ensures
        heap.at(o).spec_is_fn() && own_text(heap, o, "name"@) == Some(n) ==> object_type_name(
            heap,
            o,
        ) == n,
        heap.at(o).spec_is_fn() && own_text(heap, o, "name"@) is None ==> object_type_name(heap, o)
            == "Function"@,
        !heap.at(o).spec_is_fn() && inherited_data(heap, o, "constructor"@, 0) == Some(
            Value::Obj(f),
        ) && own_text(heap, f, "name"@) == Some(n) && n != "Object"@ ==> object_type_name(heap, o)
            == n,
        forall|t: String|
            !heap.at(o).spec_is_fn() && inherited_data(heap, o, "constructor"@, 0) is None
                && #[trigger] inherited_data(heap, o, "@@toStringTag"@, 0) == Some(Value::Str(t))
                && t@.len() > 0 ==> object_type_name(heap, o) == t@,
        !heap.at(o).spec_is_fn() && inherited_data(heap, o, "constructor"@, 0) is None
            && inherited_data(heap, o, "@@toStringTag"@, 0) is None ==> object_type_name(heap, o)
            == "Object"@,
{
}

/// An own data property is what an object has of a name; an accessor hides what it inherits.
pub proof fn lemma_own_data_comes_first(heap: Heap, o: u64, key: Seq<char>)
    requires
        heap.has(o),
    ensures
        data_of(heap.at(o).props@, key) is Some ==> inherited_data(heap, o, key, 0) == data_of(
            heap.at(o).props@,
            key,
        ),
        crate::object::lookup(heap.at(o).props@, key) is Some && data_of(heap.at(o).props@, key)
            is None ==> inherited_data(heap, o, key, 0) is None,
        crate::object::lookup(heap.at(o).props@, key) is None && heap.at(o).proto is None
            ==> inherited_data(heap, o, key, 0) is None,
{
}

/// The builtins that make errors: the error constructors, and `captureStackTrace` of any object.
pub proof fn lemma_error_makers_capture(n: Seq<char>)
    ensures
        ends_with(n, "Error"@) && !n.contains('.') ==> captures(n) && captures("new "@ + n),
        captures(n) && !n.contains('.') && !crate::interpreter::native_names::starts_with(
            n,
            "new "@,
        ) ==> ends_with(n, "Error"@) || n == "captureStackTrace"@,
{
    reveal_strlit("new ");
    if !n.contains('.') {
        lemma_last_part_whole(n);
    }
    let m = "new "@ + n;
    assert(m.take(4) =~= "new "@);
    assert(m.skip(4) =~= n);
    if !n.contains('.') && ends_with(n, "Error"@) && crate::interpreter::native_names::starts_with(n, "new "@) {
        let k = n.skip(4);
        reveal_strlit("Error");
        assert(!k.contains('.')) by {
            if k.contains('.') {
                let i = choose|i: int| 0 <= i < k.len() && k[i] == '.';
                assert(n[4 + i] == '.');
            }
        }
        lemma_last_part_whole(k);
        assert(n.len() >= 9) by {
            if n.len() < 9 {
                // The prefix and the suffix would overlap.
                let s = n.skip(n.len() - 5);
                assert(s == "Error"@);
                assert(n.take(4)[0] == n[0] && n.take(4)[1] == n[1] && n.take(4)[2] == n[2]
                    && n.take(4)[3] == n[3]);
                assert(n[3] == ' ');
                assert(n.len() >= 5);
                assert(s[3 - (n.len() - 5)] == n[3]);
            }
        }
        assert(k.skip(k.len() - 5) =~= n.skip(n.len() - 5));
    }
}

proof fn lemma_last_part_whole(s: Seq<char>)
    requires
        !s.contains('.'),
    ensures
        crate::interpreter::native_names::last_part(s) == s,
    decreases s.len(),
{
    if s.len() > 0 {
        let d = s.drop_last();
        assert(s.last() == s[s.len() - 1]);
        assert(s.contains(s[s.len() - 1]));
        assert(!d.contains('.')) by {
            if d.contains('.') {
                let i = choose|i: int| 0 <= i < d.len() && d[i] == '.';
                assert(s[i] == '.');
            }
        }
        lemma_last_part_whole(d);
        assert(d.push(s.last()) =~= s);
    }
}

/// How many frames a trace keeps: what the constructor's `stackTraceLimit` says, none where that
/// is negative or no number, and no trace is kept where it is not a Number at all.
pub proof fn lemma_trace_limits(heap: Heap, c: u64, n: u64, x: int)
    ensures
        trace_limit(heap, None) == Some(10int),
        heap.has(c) && data_of(heap.at(c).props@, "stackTraceLimit"@) == Some(Value::Num(n)) ==> {
            &&& crate::num::nan(n) || crate::num::negative(n) ==> trace_limit(heap, Some(c))
                == Some(0int)
            &&& crate::num::integer_value(n) == Some(x) && x >= 0 && n
                < 0x41CD_CD65_0000_0000 ==> trace_limit(heap, Some(c)) == Some(x)
            &&& !crate::num::nan(n) && 0x41CD_CD65_0000_0000 <= n < crate::num::SIGN ==> trace_limit(
                heap,
                Some(c),
            ) == Some(usize::MAX as int)
        },
        heap.has(c) && !(data_of(heap.at(c).props@, "stackTraceLimit"@) matches Some(Value::Num(_)))
            ==> trace_limit(heap, Some(c)) is None,
{
    crate::num_laws::lemma_integers_round_to_themselves(n);
    assert(!crate::num::zero(n) || crate::num::integer_value(n) == Some(0int));
}

/// The sites that a call made from native code carries a tag, which is not part of its position.
pub proof fn lemma_sites_are_positions(site: u32)
    ensures
        site != NO_SITE && site & SITE_NATIVE == 0 ==> pos_of_site(site) == site && !tagged_native(
            site,
        ),
        pos_of_site(NO_SITE) == NO_SITE && !tagged_native(NO_SITE),
{
    assert(site & SITE_NATIVE == 0 ==> site & !SITE_NATIVE == site) by (bit_vector);
}

/// Lines end at a line feed, a carriage return that no line feed follows, and the two Unicode
/// separators, and nowhere else.
pub proof fn lemma_line_terminators(s: Seq<char>, i: int)
    requires
        0 <= i < s.len(),
    ensures
        s[i] == '\n' || s[i] == '\u{2028}' || s[i] == '\u{2029}' ==> ends_line(s, i),
        s[i] == '\r' ==> (ends_line(s, i) <==> i + 1 == s.len() || s[i + 1] != '\n'),
        s[i] != '\n' && s[i] != '\r' && s[i] != '\u{2028}' && s[i] != '\u{2029}' ==> !ends_line(
            s,
            i,
        ),
{
}

/// The bytes and the UTF-16 units of a character.
pub proof fn lemma_character_sizes(c: char)
    ensures
        vstd::utf8::encode_utf8(seq![c]).len() == utf8_len(c),
        utf16_len(c) == if c as u32 > 0xffff {
            2nat
        } else {
            1nat
        },
{
    reveal_with_fuel(vstd::utf8::encode_utf8, 2);
    assert(seq![c].drop_first() =~= Seq::<char>::empty());
}

} // verus!
