//! Laws of what a trace reads: the names of builtins, the frames of a call, and the lines of a
//! source.

use crate::ast::NO_POS;
use crate::interpreter::frames::{pos_of_site, tagged_native, NO_SITE, RECV_OBJ, SITE_PC};
use crate::interpreter::line_table::{
    byte_off, ends_line, line_start, lines_before, unit_off, utf16_len, utf8_len,
};
use crate::interpreter::native_names::{
    captures, data_objects, frame_name, holders, home_of, obj_of, object_type_name, own_text,
    property_objs, proto_property, props_objs, scanned, typed_array_holders, with_name, with_names,
    with_protos, NameViews, NativeNames,
};
use crate::interpreter::sources::Sources;
use crate::interpreter::stack_trace::{
    env_of, fn_pos, innermost_first, script_pos, top_level_view, Asked, FnInfo, Inlined, RawView,
    TraceEnv,
};
use crate::bytecode::jit::records::full_stack;
use crate::interpreter::call_cx::{plain_frame, CallCx};
use crate::interpreter::frames::{FnFrame, NativeCtx};
use crate::interpreter::native_names::{inherited_data, tag_name};
use crate::interpreter::stack_trace::TraceCx;
use crate::interpreter::trace_text::{slashed, StackRead, Stacks};
use crate::object::{data_of, Callable, Heap, Named, PropKind, Property};
use crate::value::Value;
use vstd::prelude::*;

verus! {

// ---- names of builtins ------------------------------------------------------------------------

/// The objects of a property are what it holds, or its getter and then its setter; those of
/// several properties follow in order.
pub proof fn lemma_objects_of_properties(s: Named, key: Seq<char>, p: Property)
    ensures
        p.kind matches PropKind::Data(Value::Obj(o)) ==> property_objs(p) == seq![o],
        p.kind matches PropKind::Data(v) ==> (!(v is Obj) ==> property_objs(p).len() == 0),
        p.kind matches PropKind::Accessor { get: Some(Value::Obj(g)), set: Some(Value::Obj(t)) }
            ==> property_objs(p) == seq![g, t],
        p.kind matches PropKind::Accessor { get: Some(Value::Obj(g)), set: None }
            ==> property_objs(p) == seq![g],
        p.kind matches PropKind::Accessor { get: None, set: Some(Value::Obj(t)) }
            ==> property_objs(p) == seq![t],
        props_objs(Seq::empty()).len() == 0,
        props_objs(s.push((key, p))) == props_objs(s) + property_objs(p),
{
    assert(s.push((key, p)).drop_last() =~= s);
    match p.kind {
        PropKind::Accessor { get, set } => {
            assert(property_objs(p) =~= obj_of(get) + obj_of(set));
        },
        _ => {},
    }
}

/// An object's `prototype` is followed when it is a data property that holds an object.
pub proof fn lemma_prototype_properties(heap: Heap, o: u64, p: u64)
    ensures
        proto_property(heap, o) == Some(p) <==> heap.has(o) && data_of(
            heap.at(o).props@,
            "prototype"@,
        ) == Some(Value::Obj(p)),
        heap.has(o) ==> data_objects(heap, o) == props_objs(heap.at(o).props@),
        !heap.has(o) ==> data_objects(heap, o).len() == 0,
{
}

/// A native function's address gets the function's own name and its home, once: a name that is
/// there stays. Other objects, and functions without a name, add none.
pub proof fn lemma_the_first_name_stays(
    m: NameViews,
    heap: Heap,
    o: u64,
    home: Option<Seq<char>>,
    f: u64,
)
    ensures
        m.contains_key(f) ==> with_name(m, heap, o, home).contains_key(f) && with_name(
            m,
            heap,
            o,
            home,
        )[f] == m[f],
        heap.has(o) && heap.at(o).call == Callable::Native(f) && !m.contains_key(f) ==> match own_text(
            heap,
            o,
            "name"@,
        ) {
            Some(n) => with_name(m, heap, o, home).contains_key(f) && with_name(
                m,
                heap,
                o,
                home,
            )[f].name == n && with_name(m, heap, o, home)[f].home == home,
            None => !with_name(m, heap, o, home).contains_key(f),
        },
        !heap.has(o) || !(heap.at(o).call is Native) ==> with_name(m, heap, o, home) == m,
        heap.has(o) && heap.at(o).call is Native && heap.at(o).call != Callable::Native(f) ==> (
        with_name(m, heap, o, home).contains_key(f) <==> m.contains_key(f)),
{
}

proof fn lemma_names_stay(
    m: NameViews,
    heap: Heap,
    os: Seq<u64>,
    home: Option<Seq<char>>,
    f: u64,
)
    requires
        m.contains_key(f),
    ensures
        with_names(m, heap, os, home).contains_key(f),
        with_names(m, heap, os, home)[f] == m[f],
    decreases os.len(),
{
    if os.len() > 0 {
        lemma_names_stay(m, heap, os.drop_last(), home, f);
    }
}

/// A scan of several objects names every native function among them that has a name.
pub proof fn lemma_every_native_is_named(
    m: NameViews,
    heap: Heap,
    os: Seq<u64>,
    home: Option<Seq<char>>,
    i: int,
    f: u64,
)
    requires
        0 <= i < os.len(),
        heap.has(os[i]),
        heap.at(os[i]).call == Callable::Native(f),
        own_text(heap, os[i], "name"@) is Some,
    ensures
        with_names(m, heap, os, home).contains_key(f),
        m.contains_key(f) ==> with_names(m, heap, os, home)[f] == m[f],
    decreases os.len(),
{
    let d = os.drop_last();
    if i < d.len() {
        lemma_every_native_is_named(m, heap, d, home, i, f);
    } else if m.contains_key(f) {
        lemma_names_stay(m, heap, d, home, f);
    }
}

/// A scan of the holders keeps the names there are, and names each holder that is a native
/// function, and what its properties hold, in turn.
pub proof fn lemma_holders_are_scanned_in_turn(
    m: NameViews,
    heap: Heap,
    global: u64,
    hs: Seq<u64>,
    h: u64,
    f: u64,
)
    ensures
        scanned(m, heap, global, Seq::empty()) == m,
        scanned(m, heap, global, hs.push(h)) == with_names(
            with_name(scanned(m, heap, global, hs), heap, h, None),
            heap,
            data_objects(heap, h),
            home_of(heap, global, h),
        ),
        m.contains_key(f) ==> scanned(m, heap, global, hs).contains_key(f) && scanned(
            m,
            heap,
            global,
            hs,
        )[f] == m[f],
        h == global ==> home_of(heap, global, h) is None,
        h != global ==> home_of(heap, global, h) == Some(object_type_name(heap, h)),
    decreases hs.len(),
{
    assert(hs.push(h).drop_last() =~= hs);
    if hs.len() > 0 && m.contains_key(f) {
        let d = hs.drop_last();
        lemma_holders_are_scanned_in_turn(m, heap, global, d, h, f);
        let a = scanned(m, heap, global, d);
        lemma_the_first_name_stays(a, heap, hs.last(), None, f);
        lemma_names_stay(
            with_name(a, heap, hs.last(), None),
            heap,
            data_objects(heap, hs.last()),
            home_of(heap, global, hs.last()),
            f,
        );
    }
}

/// The holders are the global object, first, then each object it holds with the prototype
/// behind it, then the typed array intrinsic.
pub proof fn lemma_holders_of_names(heap: Heap, global: u64, os: Seq<u64>, o: u64)
    ensures
        holders(heap, global).len() > 0,
        holders(heap, global)[0] == global,
        holders(heap, global) == seq![global] + with_protos(heap, data_objects(heap, global))
            + typed_array_holders(heap, global),
        proto_property(heap, o) matches Some(p) ==> with_protos(heap, os.push(o)) == with_protos(
            heap,
            os,
        ) + seq![o, p],
        proto_property(heap, o) is None ==> with_protos(heap, os.push(o)) == with_protos(
            heap,
            os,
        ).push(o),
{
    assert(os.push(o).drop_last() =~= os);
    let w = with_protos(heap, os);
    match proto_property(heap, o) {
        Some(p) => {
            assert(w.push(o) + seq![p] =~= w + seq![o, p]);
        },
        None => {
            assert(w.push(o) + Seq::<u64>::empty() =~= w.push(o));
        },
    }
}

/// The typed array intrinsic is found behind `Int8Array`, with its prototype before it.
pub proof fn lemma_typed_arrays_are_scanned(heap: Heap, global: u64, c: u64, t: u64)
    requires
        heap.has(global),
        heap.has(c),
        data_of(heap.at(global).props@, "Int8Array"@) == Some(Value::Obj(c)),
    ensures
        heap.at(c).proto == Some(t) ==> match proto_property(heap, t) {
            Some(p) => typed_array_holders(heap, global) == seq![p, t],
            None => typed_array_holders(heap, global) == seq![t],
        },
        heap.at(c).proto is None ==> typed_array_holders(heap, global).len() == 0,
{
    if heap.at(c).proto == Some(t) {
        match proto_property(heap, t) {
            Some(p) => {
                assert(typed_array_holders(heap, global) =~= seq![p, t]);
            },
            None => {
                assert(typed_array_holders(heap, global) =~= seq![t]);
            },
        }
    }
}

/// A native is looked up among the names there are; one without a name has the global object
/// scanned where it has changed in size since the last scan. An address of none has no name.
pub proof fn lemma_names_are_looked_up(n: NativeNames, heap: Heap, global: u64, id: u64)
    ensures
        n.answer(heap, global, 0) is None,
        id != 0 && n.names().contains_key(id) ==> n.answer(heap, global, id) == Some(n.names()[id]),
        n.at == Some(heap.at(global).props@.len() as usize) && !n.names().contains_key(id)
            ==> n.answer(heap, global, id) is None && !n.rescans(heap, global, id),
        n.at != Some(heap.at(global).props@.len() as usize) && !n.names().contains_key(id) && id
            != 0 ==> n.rescans(heap, global, id) && n.answer(heap, global, id) == ({
            let m = scanned(n.names(), heap, global, holders(heap, global));
            if m.contains_key(id) {
                Some(m[id])
            } else {
                None
            }
        }),
        n.names().contains_key(id) ==> !n.rescans(heap, global, id),
{
    if n.names().contains_key(id) {
        lemma_holders_are_scanned_in_turn(
            n.names(),
            heap,
            global,
            holders(heap, global),
            global,
            id,
        );
    }
}

// ---- the frames of a call ---------------------------------------------------------------------

/// The innermost frame is where the running code is; another where it called the one above.
pub proof fn lemma_frames_are_at_their_call(env: TraceEnv, k: int)
    requires
        0 <= k < env.frames.len(),
    ensures
        k == env.frames.len() - 1 ==> env.site(k) == pos_of_site(env.cur_site),
        k < env.frames.len() - 1 ==> env.site(k) == pos_of_site(env.frames[k + 1].caller_site),
{
}

/// A function's frame is the function at its site. A script's is its file at the position; eval
/// code's says where it was evaluated instead.
pub proof fn lemma_frames_of_functions_and_scripts(env: TraceEnv, k: int)
    requires
        0 <= k < env.frames.len(),
        k >= env.inlined.len() || env.inlined[k] is None,
    ensures
        env.frames[k].fn_ptr != 0 ==> env.own_frames(k) == seq![
            RawView::Function {
                callee: env.frames[k].fn_ptr,
                site: env.site(k),
                construct: env.frames[k].construct,
            },
        ],
        env.frames[k].fn_ptr == 0 && (env.frames[k].extra is None || env.frames[k].extra->0.script
            is None) ==> env.own_frames(k).len() == 0,
        env.frames[k].fn_ptr == 0 && env.frames[k].extra is Some && env.frames[k].extra->0.script
            is Some ==> {
            let sf = env.frames[k].extra->0.script->0;
            let p = env.place(Some(sf.src), script_pos(env.site(k)));
            &&& env.own_frames(k).len() == 1
            &&& env.own_frames(k)[0] matches RawView::Code { line, eval, file }
            &&& line == p.line
            &&& eval == sf.eval
            &&& !sf.eval ==> file == p.file
            &&& sf.eval ==> file == env.eval_origin(k)
        },
{
}

/// Eval code was evaluated by the frame below: a function at the site, a script at its position,
/// or nobody that is known.
pub proof fn lemma_eval_code_comes_from_the_frame_below(env: TraceEnv, k: int)
    ensures
        k <= 0 ==> env.eval_origin(k) == "eval at <anonymous>"@,
        k > 0 && env.frames[k - 1].fn_ptr != 0 ==> env.eval_origin(k)
            == crate::interpreter::stack_trace::origin_text(
            env.resolved(env.frames[k - 1].fn_ptr, pos_of_site(env.frames[k].caller_site)),
        ),
        k > 0 && env.frames[k - 1].fn_ptr == 0 && (env.frames[k - 1].extra is None
            || env.frames[k - 1].extra->0.script is None) ==> env.eval_origin(k)
            == "eval at <anonymous>"@,
        k > 0 && env.frames[k - 1].fn_ptr == 0 && env.frames[k - 1].extra is Some
            && env.frames[k - 1].extra->0.script is Some ==> env.eval_origin(k) == ({
            let sf = env.frames[k - 1].extra->0.script->0;
            let p = env.place(Some(sf.src), script_pos(pos_of_site(env.frames[k].caller_site)));
            crate::interpreter::stack_trace::origin_text(top_level_view(p.file, p.line))
        }),
{
}

/// A top-level frame has a file and a line, and no function.
pub proof fn lemma_top_level_frames(file: Seq<char>, line: Option<(u32, u32)>)
    ensures
        ({
            let r = top_level_view(file, line);
            &&& r.file == file
            &&& r.line == line
            &&& r.name is None
            &&& r.func is Undefined
            &&& r.kind is TopLevel
            &&& !r.wrapper
            &&& !r.strict
        }),
{
}

/// A callback that was compiled into its caller still has its frame, and the builtin that calls
/// it has one behind, for each that was, innermost first.
pub proof fn lemma_inlined_callbacks_have_frames(env: TraceEnv, x: Inlined, n: int)
    requires
        0 < n <= x.regions@.len(),
    ensures
        env.inlined_frames(x, 0).len() == 0,
        env.inlined_frames(x, n).len() == 2 * n,
        ({
            let pos = if n == 1 {
                x.pos
            } else {
                x.regions@[n - 2].0
            };
            &&& env.inlined_frames(x, n)[2 * n - 1] == RawView::Builtin(x.regions@[n - 1].1@)
            &&& env.inlined_frames(x, n)[2 * n - 2] matches RawView::Code { line, eval, file }
            &&& !eval
            &&& line == env.place(x.src, pos).line
            &&& file == env.place(x.src, pos).file
        }),
    decreases n,
{
    if n > 1 {
        lemma_inlined_callbacks_have_frames(env, x, n - 1);
    }
}

/// A position stands for itself; one in compiled code is read from the code's table.
pub proof fn lemma_sites_give_positions(f: FnInfo, site: u32)
    ensures
        fn_pos(f, NO_SITE) == NO_POS,
        script_pos(NO_SITE) == NO_POS,
        site != NO_SITE && site & SITE_PC == 0 ==> fn_pos(f, site) == site && script_pos(site)
            == site,
        site != NO_SITE && site & SITE_PC != 0 ==> script_pos(site) == NO_POS,
        site != NO_SITE && site & SITE_PC != 0 && f.code is None ==> fn_pos(f, site) == NO_POS,
{
}

/// Builtins that other builtins called stand together: the run ends at the first that was called
/// otherwise.
pub proof fn lemma_runs_of_builtins(env: TraceEnv, at: int, i: int)
    requires
        0 <= at <= env.natives.len(),
    ensures
        at <= env.run_end(at) <= env.natives.len(),
        at <= i < env.run_end(at) ==> tagged_native(env.natives[i].site),
        env.run_end(at) < env.natives.len() ==> !tagged_native(env.natives[env.run_end(at)].site),
    decreases env.natives.len() - at,
{
    if at < env.natives.len() && tagged_native(env.natives[at].site) {
        lemma_runs_of_builtins(env, at + 1, i);
    }
}

/// The builtins of a frame are the runs whose last was called from the frame's position, one
/// after the other; the next run was called from elsewhere.
pub proof fn lemma_builtins_belong_to_their_caller(env: TraceEnv, at: int, pos: u32)
    requires
        0 <= at <= env.natives.len(),
    ensures
        at <= env.natives_end(at, pos) <= env.natives.len(),
        env.natives_end(at, pos) > at ==> {
            let last = env.natives[env.natives_end(at, pos) - 1];
            !tagged_native(last.site) && pos_of_site(last.site) == pos
        },
        ({
            let e = env.run_end(env.natives_end(at, pos));
            e < env.natives.len() ==> pos_of_site(env.natives[e].site) != pos
        }),
    decreases env.natives.len() - at,
{
    lemma_runs_of_builtins(env, at, at);
    let e = env.run_end(at);
    if e < env.natives.len() && pos_of_site(env.natives[e].site) == pos {
        lemma_builtins_belong_to_their_caller(env, e + 1, pos);
    }
}

/// Each builtin that has a name has a frame, in order; the one that makes the error is left out
/// where it is the innermost of all.
pub proof fn lemma_builtins_have_frames(env: TraceEnv, from: int, to: int, top: bool)
    requires
        from <= to,
    ensures
        env.native_frames(from, from, top).len() == 0,
        ({
            let name = frame_name(env.names, env.heap, env.global, env.natives[to]);
            let before = env.native_frames(from, to, top);
            let after = env.native_frames(from, to + 1, top);
            &&& name is None ==> after == before
            &&& name matches Some(n) ==> {
                &&& to == 0 && top && captures(n) ==> after == before
                &&& !(to == 0 && top && captures(n)) ==> after == before.push(RawView::Builtin(n))
            }
        }),
{
}

/// The builtins of a frame that is nowhere are none.
pub proof fn lemma_frames_without_a_site_have_no_builtins(env: TraceEnv, k: int, cursor: int)
    ensures
        env.site(k) == NO_SITE ==> env.cursor_after(k, cursor) == cursor,
        cursor >= env.natives.len() ==> env.cursor_after(k, cursor) == cursor,
        cursor < env.natives.len() && env.site(k) != NO_SITE ==> env.cursor_after(k, cursor)
            == env.natives_end(cursor, env.site(k)),
{
}

/// The natives of a call state are read from the innermost on.
pub proof fn lemma_natives_innermost_first(ns: Seq<NativeCtx>, i: int)
    requires
        0 <= i < ns.len(),
    ensures
        innermost_first(ns).len() == ns.len(),
        innermost_first(ns)[i] == ns[ns.len() - 1 - i],
        innermost_first(innermost_first(ns)) == ns,
{
    assert(innermost_first(innermost_first(ns)) =~= ns);
}

/// Naming a builtin asks for its receiver where the name takes one that is an object and is not
/// held, and for a scan where the name is not known and names may have changed.
pub proof fn lemma_what_naming_asks_for(env: TraceEnv, j: int)
    ensures
        ({
            let c = env.natives[j];
            &&& env.asks(Asked::Receiver, j) <==> {
                &&& frame_name(env.names, env.heap, env.global, c) is Some
                &&& !c.construct
                &&& c.recv_kind == RECV_OBJ
                &&& c.this is None
            }
            &&& env.asks(Asked::Names, j) <==> !c.hidden && env.names.rescans(
                env.heap,
                env.global,
                c.id,
            )
        }),
{
}

// ---- sources ----------------------------------------------------------------------------------

/// Lines are counted by their terminators, a line begins behind the last one, and columns count
/// UTF-16 units.
pub proof fn lemma_lines_and_columns(s: Seq<char>, k: int, i: int)
    requires
        0 <= k < s.len(),
    ensures
        lines_before(s, 0) == 0,
        ends_line(s, k) ==> lines_before(s, k + 1) == lines_before(s, k) + 1 && line_start(s, k + 1)
            == k + 1,
        !ends_line(s, k) ==> lines_before(s, k + 1) == lines_before(s, k) && line_start(s, k + 1)
            == line_start(s, k),
        unit_off(s, k + 1) == unit_off(s, k) + utf16_len(s[k]),
        byte_off(s, k + 1) == byte_off(s, k) + utf8_len(s[k]),
        unit_off(s, 0) == 0 && byte_off(s, 0) == 0 && line_start(s, 0) == 0,
        0 <= line_start(s, k) <= k,
        line_start(s, k) <= i < k ==> !ends_line(s, i),
        line_start(s, k) > 0 ==> ends_line(s, line_start(s, k) - 1),
    decreases k,
{
    if k > 0 {
        lemma_lines_and_columns(s, k - 1, i);
    }
}

/// The registry of sources is pruned of the dead when a new one finds it full, and then holds
/// twice what lives before the next time, at least sixty-four.
pub proof fn lemma_sources_are_pruned(r: Sources, src: u64, alive: Set<u64>, q: u64, n: nat)
    ensures
        r.map@.contains_key(src) || r.map@.len() < r.prune_at ==> r.staying(src, alive) == r.map@,
        !r.map@.contains_key(src) && r.map@.len() >= r.prune_at ==> (r.staying(
            src,
            alive,
        ).contains_key(q) <==> r.map@.contains_key(q) && alive.contains(q)),
        r.staying(src, alive).contains_key(q) ==> r.staying(src, alive)[q] == r.map@[q],
        2 * n <= 64 ==> Sources::next_prune(n) == 64,
        64 < 2 * n && 2 * n <= usize::MAX ==> Sources::next_prune(n) == 2 * n,
        2 * n > usize::MAX ==> Sources::next_prune(n) == usize::MAX,
{
}

/// Where no builtin asks for anything, the trace asks for nothing, and nothing is asked for a
/// trace without frames.
pub proof fn lemma_traces_ask_for_their_builtins(
    env: TraceEnv,
    what: Asked,
    k: int,
    cursor: int,
    skipping: Option<u64>,
    done: nat,
    limit: nat,
)
    requires
        0 <= cursor,
        done >= limit || forall|j: int| 0 <= j < env.natives.len() ==> !#[trigger] env.asks(what, j),
    ensures
        0 <= cursor <= env.natives.len() ==> !env.trace_wants(
            what,
            k,
            cursor,
            skipping,
            done,
            limit,
        ),
    decreases k,
{
    if k > 0 && cursor <= env.natives.len() {
        let c = env.cursor_after(k - 1, cursor);
        let top = k == env.frames.len();
        if cursor < env.natives.len() && env.site(k - 1) != NO_SITE {
            lemma_builtins_belong_to_their_caller(env, cursor, env.site(k - 1));
        }
        assert(cursor <= c <= env.natives.len());
        match skipping {
            Some(p) => {
                let s = if env.frames[k - 1].fn_ptr == p {
                    None
                } else {
                    Some(p)
                };
                lemma_traces_ask_for_their_builtins(env, what, k - 1, c, s, done, limit);
            },
            None => {
                lemma_traces_ask_for_their_builtins(
                    env,
                    what,
                    k - 1,
                    c,
                    None,
                    done + env.native_frames(cursor, c, top).len() + env.own_frames(k - 1).len(),
                    limit,
                );
            },
        }
    }
}

/// The first builtin of the innermost frame, when it asks, has the trace ask.
pub proof fn lemma_the_innermost_builtin_asks(env: TraceEnv, what: Asked, limit: nat)
    requires
        env.frames.len() > 0,
        limit > 0,
        env.cursor_after(env.frames.len() - 1, 0) > 0,
        env.asks(what, 0),
    ensures
        env.whole_wants(what, None, limit),
{
    assert(env.native_frames(0, 0, true).len() == 0);
    let c = env.cursor_after(env.frames.len() - 1, 0);
    assert(env.natives_want(what, 0, c, true, 0, limit)) by {
        assert(0 + env.native_frames(0, 0, true).len() < limit && env.asks(what, 0));
    }
}

/// What is left out of a trace: up to a function where it is on the stack, or where the caller
/// insists, and nothing otherwise.
pub proof fn lemma_what_is_left_out(env: TraceEnv, p: u64, must: bool, i: int)
    ensures
        env.skipped(None) is None,
        must ==> env.skipped(Some((p, must))) == Some(p),
        0 <= i < env.frames.len() && env.frames[i].fn_ptr == p ==> env.skipped(Some((p, must)))
            == Some(p),
        !must && (forall|j: int|
            0 <= j < env.frames.len() ==> (#[trigger] env.frames[j]).fn_ptr != p) ==> env.skipped(
            Some((p, must)),
        ) is None,
{
}

/// A capture reads all frames, also those that only records stand for, and the natives from the
/// innermost on.
pub proof fn lemma_captures_read_the_whole_stack(
    cx: CallCx,
    t: TraceCx,
    names: NativeNames,
    sources: Sources,
)
    ensures
        env_of(cx, t, names, sources).frames == full_stack(cx.calls),
        env_of(cx, t, names, sources).natives == innermost_first(cx.natives@),
        env_of(cx, t, names, sources).cur_site == cx.cur_site,
        env_of(cx, t, names, sources).inlined == t.inlined@,
        env_of(cx, t, names, sources).global == t.global,
{
}

/// A plain call's frame says which function runs and where it was called from; a frame without a
/// function has no callee.
pub proof fn lemma_plain_frames(cx: CallCx, fn_ptr: u64, strict: bool, f: FnFrame)
    ensures
        ({
            let p = plain_frame(cx, fn_ptr, strict);
            &&& p.fn_ptr == fn_ptr
            &&& p.strict == strict
            &&& p.caller_site == cx.cur_site
            &&& p.coro == cx.cur_coro
            &&& !p.construct
            &&& p.extra is None
        }),
        f.fn_ptr == 0 ==> f.spec_callee() is None,
        f.fn_ptr != 0 ==> f.spec_callee() == Some(Value::Obj(f.fn_ptr)),
{
}

/// An object without a constructor to name it is called by its tag, where that is a text that is
/// not empty, and by the plainest name otherwise.
pub proof fn lemma_objects_are_called_by_their_tag(heap: Heap, o: u64)
    ensures
        ({
            let tag = inherited_data(heap, o, "@@toStringTag"@, 0);
            &&& (tag matches Some(Value::Str(t)) && t@.len() > 0) ==> tag_name(heap, o)
                == tag->0->Str_0@
            &&& !(tag matches Some(Value::Str(t)) && t@.len() > 0) ==> tag_name(heap, o)
                == "Object"@
        }),
{
}

/// An object's stack is the text that was made of it, is to be made where one was captured, and
/// is `undefined` otherwise.
pub proof fn lemma_stacks_are_made_once(s: Stacks, o: u64)
    ensures
        s.done@.contains_key(o) ==> s.stack_at(o) == StackRead::Ready(s.done@[o]),
        !s.done@.contains_key(o) && s.raw@.contains_key(o) ==> s.stack_at(o) is Format,
        !s.done@.contains_key(o) && !s.raw@.contains_key(o) ==> s.stack_at(o) == StackRead::Ready(
            Value::Undefined,
        ),
{
}

/// A path is written with slashes: backslashes become slashes, and nothing else changes.
pub proof fn lemma_paths_are_written_with_slashes(path: Seq<char>, i: int)
    requires
        0 <= i < path.len(),
    ensures
        slashed(path).len() == path.len(),
        path[i] == '\\' ==> slashed(path)[i] == '/',
        path[i] != '\\' ==> slashed(path)[i] == path[i],
{
}

} // verus!
