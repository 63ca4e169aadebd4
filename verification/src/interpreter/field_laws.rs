//! Laws of class fields, of bodies that suspend, of script frames and of typed-array getters.

use crate::ast::{ArrayElem, Expr, Stmt};
use crate::engine::Tier;
use crate::eval::fast_laws::upward;
use crate::eval::promise_fast::Settle;
use crate::interpreter::arrays::is_array;
use crate::interpreter::call_cx::CallCx;
use crate::interpreter::call_state::CallFlags;
use crate::interpreter::callsite::{answers, method_name, SiteMethod};
use crate::interpreter::class_fields::{
    calls_of, defines, field_fault, maybe_numeric, privates_fault, with_privates, ClassInfo, Field,
    PrivateMember, SpecialObjects, COMPILE_AFTER,
};
use crate::interpreter::coro_body::{own_prototype, start_of, AsyncStart, SavedBody, Suspend};
use crate::interpreter::frames::FnFrame;
use crate::interpreter::script_frames::{
    body_offset, first_occurrence, named_source, occurs_at, script_frame, source_of_frame,
};
use crate::interpreter::line_table::byte_off;
use crate::interpreter::sources::Sources;
use crate::interpreter::stack_trace::FnInfo;
use crate::interpreter::ta_meta::{meta_key, reaches};
use crate::interpreter::trace_text::CallSiteView;
use crate::num::integer_value;
use crate::object::{
    lemma_index_of_key_is, lemma_put_reads_back, lookup, Callable, Heap, Named, Object,
    PropKind, Property,
};
use crate::value::Value;
use vstd::prelude::*;

verus! {

// ---- class fields -----------------------------------------------------------------------------

/// A class's initializer is compiled when some tier compiles at all and no field was
/// transformed. One without fields has nothing to run, and one that may not be compiled is
/// walked.
pub proof fn lemma_initializers_are_compiled_whole(c: ClassInfo, tier: Tier, made: Option<Value>, i: int)
    ensures
        tier is Interp ==> !c.eligible(tier),
        0 <= i < c.fields@.len() && c.fields@[i].transformed ==> !c.eligible(tier),
        !(tier is Interp) && (forall|k: int|
            0 <= k < c.fields@.len() ==> !(#[trigger] c.fields@[k]).transformed) ==> c.eligible(tier),
        !c.eligible(tier) ==> c.initializer(tier, made) is None,
        c.eligible(tier) && c.fields@.len() == 0 ==> c.initializer(tier, made) == Some(
            Value::Undefined,
        ),
        c.eligible(tier) && c.fields@.len() > 0 ==> c.initializer(tier, made) == made,
        c.bare() <==> c.fields@.len() == 0 && c.privates@.len() == 0 && c.initializers@.len() == 0,
{
}

/// Each field is defined by a call with its key, its initial value or `undefined`, and whether
/// the value takes the field's name.
pub proof fn lemma_fields_are_defined_in_turn(s: Stmt, f: Field)
    requires
        defines(s, f),
    ensures
        ({
            &&& s matches Stmt::Expr(Expr::Call { callee, args, pos })
            &&& *callee matches Expr::Ident(n)
            &&& args@.len() == 3
            &&& args@[0] matches ArrayElem::Item(Expr::Str(k))
            &&& k@ == f.key@
            &&& f.init is None ==> args@[1] == ArrayElem::Item(Expr::Undefined) && args@[2]
                == ArrayElem::Item(Expr::Bool(false))
            &&& f.init is Some ==> args@[1] == ArrayElem::Item(f.init->0) && args@[2]
                == ArrayElem::Item(Expr::Bool(f.anonymous_fn))
        }),
{
}

/// Every private member that is added reads back, the last of several under one key, and every
/// other property stays.
pub proof fn lemma_private_members_read_back(
    base: Named,
    ps: Seq<PrivateMember>,
    i: int,
    other: Seq<char>,
)
    ensures
        0 <= i < ps.len() && (forall|j: int|
            i < j < ps.len() ==> (#[trigger] ps[j]).key@ != ps[i].key@) ==> lookup(
            with_privates(base, ps),
            ps[i].key@,
        ) == Some(ps[i].prop),
        (forall|j: int| 0 <= j < ps.len() ==> (#[trigger] ps[j]).key@ != other) ==> lookup(
            with_privates(base, ps),
            other,
        ) == lookup(base, other),
    decreases ps.len(),
{
    if ps.len() > 0 {
        let d = ps.drop_last();
        let before = with_privates(base, d);
        lemma_private_members_read_back(base, d, i, other);
        lemma_put_reads_back(before, ps.last().key@, ps.last().prop, other);
        lemma_put_reads_back(before, ps.last().key@, ps.last().prop, ps.last().key@);
        if 0 <= i < d.len() && (forall|j: int|
            i < j < ps.len() ==> (#[trigger] ps[j]).key@ != ps[i].key@) {
            assert forall|j: int| i < j < d.len() implies (#[trigger] d[j]).key@ != d[i].key@ by {
                assert(ps[j].key@ != ps[i].key@);
            }
            assert(ps[ps.len() - 1].key@ != ps[i].key@);
            lemma_put_reads_back(before, ps.last().key@, ps.last().prop, ps[i].key@);
        }
        if forall|j: int| 0 <= j < ps.len() ==> (#[trigger] ps[j]).key@ != other {
            assert forall|j: int| 0 <= j < d.len() implies (#[trigger] d[j]).key@ != other by {
                assert(ps[j].key@ != other);
            }
            assert(ps[ps.len() - 1].key@ != other);
        }
    }
}

/// Private members are added to an object that can be extended and does not have them yet. A
/// class without any adds none to any object.
pub proof fn lemma_private_members_may_be_added(ob: Object, ps: Seq<PrivateMember>, key: Seq<char>)
    ensures
        ps.len() == 0 ==> privates_fault(ob, ps) is None,
        ps.len() > 0 ==> (privates_fault(ob, ps) is None <==> ob.extensible && lookup(
            ob.props@,
            ps[0].key@,
        ) is None),
        ps.len() > 0 && lookup(ob.props@, ps[0].key@) is Some ==> privates_fault(ob, ps) == Some(
            "cannot initialize private methods of a class twice on the same object"@,
        ),
        ps.len() > 0 && lookup(ob.props@, ps[0].key@) is None && !ob.extensible ==> privates_fault(
            ob,
            ps,
        ) == Some("cannot add private members to a non-extensible object"@),
        field_fault(ob, key) is None <==> ob.extensible && lookup(ob.props@, key) is None,
        lookup(ob.props@, key) is Some ==> field_fault(ob, key) == Some(
            "cannot initialize the same private field twice"@,
        ),
        lookup(ob.props@, key) is None && !ob.extensible ==> field_fault(ob, key) == Some(
            "cannot add a private field to a non-extensible object"@,
        ),
{
}

/// The initializers run after the compiled one, which is left out where there is none.
pub proof fn lemma_initializers_run_in_order(init: Value, initializers: Seq<Value>, i: int)
    ensures
        init is Undefined ==> calls_of(init, initializers) == initializers,
        !(init is Undefined) ==> {
            &&& calls_of(init, initializers).len() == initializers.len() + 1
            &&& calls_of(init, initializers)[0] == init
            &&& 0 <= i < initializers.len() ==> calls_of(init, initializers)[i + 1]
                == initializers[i]
        },
{
}

/// A key that might be written as a number is defined with care: what begins with a digit or a
/// sign, `Infinity`, `NaN`, and the empty key.
pub proof fn lemma_keys_that_may_be_numbers(key: Seq<char>)
    ensures
        key.len() == 0 ==> maybe_numeric(key),
        key.len() > 0 && '0' <= key[0] <= '9' ==> maybe_numeric(key),
        key.len() > 0 && (key[0] == '-' || key[0] == 'I' || key[0] == 'N') ==> maybe_numeric(key),
        key.len() > 0 && ('a' <= key[0] <= 'z' || key[0] == '_' || key[0] == '$' || key[0] == '#')
            ==> !maybe_numeric(key),
        maybe_numeric(key) && key.len() > 0 ==> ('0' <= key[0] <= '9' || key[0] == '-' || key[0]
            == 'I' || key[0] == 'N'),
        COMPILE_AFTER == 0,
{
}

/// The objects that define their fields with care: proxies, typed arrays, deferred namespaces
/// and the global object.
pub proof fn lemma_special_objects(s: SpecialObjects, o: u64)
    ensures
        s.proxies@.contains(o) ==> s.spec_has(o),
        s.typed_arrays@.contains(o) ==> s.spec_has(o),
        s.deferred@.contains(o) ==> s.spec_has(o),
        o == s.global ==> s.spec_has(o),
        s.spec_has(o) && o != s.global ==> s.proxies@.contains(o) || s.typed_arrays@.contains(o)
            || s.deferred@.contains(o),
{
}

// ---- bodies that suspend ----------------------------------------------------------------------

/// A generator's body runs outside field initializers and async generators; an async body too,
/// but an arrow keeps the initializer it stands in. All else is as it was.
pub proof fn lemma_bodies_start_with_flags(f: CallFlags, strict: bool, arrow: bool, m: SavedBody)
    ensures
        ({
            let g = f.generator_flags();
            &&& !g.in_field_init_code && !g.in_async_gen_body
            &&& g.strict == f.strict && g.tco_ok == f.tco_ok && g.constructing == f.constructing
            &&& g.new_target == f.new_target
        }),
        ({
            let g = f.async_flags(strict, arrow);
            &&& g.strict == strict
            &&& g.in_field_init_code == (arrow && f.in_field_init_code)
            &&& !g.in_async_gen_body
            &&& g.tco_ok == f.tco_ok && g.constructing == f.constructing
            &&& g.new_target == f.new_target
        }),
        ({
            let g = f.with_markers(m);
            &&& g.strict == m.strict
            &&& g.in_field_init_code == m.in_field_init_code
            &&& g.in_async_gen_body == m.in_async_gen_body
            &&& g.tco_ok == f.tco_ok && g.constructing == f.constructing
            &&& g.new_target == f.new_target
            &&& g.body_markers() == m
        }),
{
}

/// An async body that awaits is parked on what it awaits; one that ends settles its promise,
/// rejecting only what was thrown. A primitive that nobody watches needs no promise where the
/// caller awaits the call itself.
pub proof fn lemma_async_bodies_start(s: Suspend, fused: bool, silent: bool, promise: Value)
    ensures
        s matches Suspend::Await(v) ==> start_of(s, fused, silent, promise) == AsyncStart::Park(v),
        s matches Suspend::Throw(e) ==> start_of(s, fused, silent, promise) == AsyncStart::Settle(
            (Settle { promise, fulfil: false, value: e }),
        ),
        s matches Suspend::Yield(v) ==> start_of(s, fused, silent, promise) == AsyncStart::Settle(
            (Settle { promise, fulfil: true, value: v }),
        ),
        s matches Suspend::Done(v) ==> if fused && silent && !(v is Obj) {
            start_of(s, fused, silent, promise) == AsyncStart::Value(v)
        } else {
            start_of(s, fused, silent, promise) == AsyncStart::Settle(
                (Settle { promise, fulfil: true, value: v }),
            )
        },
{
}

/// A generator object's prototype is what the function's own property holds; an accessor is not
/// called.
pub proof fn lemma_generators_have_their_own_prototype(p: Option<Property>)
    ensures
        p is None <==> own_prototype(p) is None,
        p is Some ==> own_prototype(p) == Some(
            match p->0.kind {
                PropKind::Data(v) => v,
                PropKind::Accessor { .. } => Value::Undefined,
            },
        ),
{
}

// ---- script frames ----------------------------------------------------------------------------

/// A script runs in a sloppy frame of its own, of no function, which remembers where it was
/// entered from and that it is `eval` code where it is.
pub proof fn lemma_scripts_have_frames(cx: CallCx, src: u64, eval: bool)
    ensures
        ({
            let f = script_frame(cx, src, eval);
            &&& f.fn_ptr == 0
            &&& f.coro == cx.cur_coro
            &&& f.caller_site == cx.cur_site
            &&& !f.strict
            &&& !f.construct
            &&& f.extra matches Some(x)
            &&& x.reflect is None
            &&& x.script matches Some(sf)
            &&& sf.src == src
            &&& sf.eval == eval
        }),
{
}

/// The source of the innermost frame: the script's, or the one that the function came from.
pub proof fn lemma_frames_have_sources(fs: Seq<FnFrame>, f: FnFrame, heap: Heap, funcs: Map<u64, FnInfo>)
    ensures
        source_of_frame(Seq::empty(), heap, funcs) is None,
        f.fn_ptr == 0 ==> source_of_frame(fs.push(f), heap, funcs) == (match f.extra {
            Some(x) => match x.script {
                Some(sf) => Some(sf.src),
                None => None,
            },
            None => None,
        }),
        f.fn_ptr != 0 && heap.has(f.fn_ptr) ==> (heap.at(f.fn_ptr).call matches Callable::User(c)
            ==> source_of_frame(fs.push(f), heap, funcs) == (if funcs.contains_key(c) {
            funcs[c].src
        } else {
            None
        })),
        f.fn_ptr != 0 && !(heap.has(f.fn_ptr) && heap.at(f.fn_ptr).call is User) ==> source_of_frame(
            fs.push(f),
            heap,
            funcs,
        ) is None,
{
}

/// A text is found where it first stands.
pub proof fn lemma_first_occurrences(s: Seq<char>, pat: Seq<char>, from: int, i: int)
    requires
        0 <= from,
    ensures
        first_occurrence(s, pat, from) matches Some(k) ==> {
            &&& from <= k
            &&& k + pat.len() <= s.len()
            &&& s.subrange(k, k + pat.len()) == pat
            &&& from <= i < k ==> !occurs_at(s, pat, i)
        },
        first_occurrence(s, pat, from) is None && from <= i ==> !occurs_at(s, pat, i),
    decreases s.len() - from,
{
    if from + pat.len() <= s.len() && !occurs_at(s, pat, from) && from < s.len() {
        lemma_first_occurrences(s, pat, from + 1, i);
    }
}

/// The body of a function made from text begins behind the first line that closes its
/// parameters and opens it, which is five bytes long.
pub proof fn lemma_bodies_begin_behind_the_parameters(s: Seq<char>, i: int)
    requires
        byte_off(s, i) + 5 <= u32::MAX,
    ensures
        body_offset(s) is None <==> first_occurrence(s, "\n) {\n"@, 0) is None,
        first_occurrence(s, "\n) {\n"@, 0) == Some(i) ==> (body_offset(s) matches Some(b) && b
            == byte_off(s, i) + 5),
{
}

/// A source is named by a function of its own: one made from text at run time, whose source is
/// known and alive.
pub proof fn lemma_sources_are_named_by_their_function(
    heap: Heap,
    funcs: Map<u64, FnInfo>,
    sources: Sources,
    alive: Set<u64>,
    f: Value,
    s: u64,
)
    ensures
        named_source(heap, funcs, sources, alive, f) == Some(s) <==> {
            &&& f matches Value::Obj(o)
            &&& heap.has(o)
            &&& heap.at(o).call matches Callable::User(c)
            &&& funcs.contains_key(c)
            &&& funcs[c].src == Some(s)
            &&& funcs[c].dynamic
            &&& s < sources.texts@.len()
            &&& alive.contains(s)
        },
{
}

// ---- call sites -------------------------------------------------------------------------------

/// What a call site answers. A place without a name, a line or a column has `null` there; one
/// without a file has `undefined`.
pub proof fn lemma_call_sites_answer(c: CallSiteView, m: SiteMethod, v: Value)
    requires
        answers(c, m, v),
    ensures
        m is Function ==> v == c.function,
        m is FunctionName ==> match c.name {
            Some(n) => v matches Value::Str(s) && s@ == n,
            None => v is Null,
        },
        m is FileName || m is ScriptName ==> match c.file {
            Some(f) => v matches Value::Str(s) && s@ == f,
            None => v is Undefined,
        },
        m is LineNumber ==> match c.line {
            Some((l, _)) => v matches Value::Num(b) && integer_value(b) == Some(l as int),
            None => v is Null,
        },
        m is ColumnNumber ==> match c.line {
            Some((_, k)) => v matches Value::Num(b) && integer_value(b) == Some(k as int),
            None => v is Null,
        },
        m is TypeName ==> if c.wrapper {
            v matches Value::Str(s) && s@ == "Object"@
        } else {
            v is Null
        },
        m is EvalOrigin ==> match (c.origin, c.file) {
            (Some(n), _) => v matches Value::Str(s) && s@ == n,
            (None, Some(n)) => v matches Value::Str(s) && s@ == n,
            (None, None) => v is Undefined,
        },
        m is Text ==> (v matches Value::Str(s) && s@ == c.text),
        m is IsToplevel ==> v == Value::Bool(c.top_level),
        m is IsEval ==> v == Value::Bool(c.eval),
        m is IsConstructor ==> v == Value::Bool(c.construct),
        m is IsNative || m is IsAsync || m is IsPromiseAll ==> v == Value::Bool(false),
        m is This ==> v is Undefined,
        m is MethodName || m is EnclosingLine || m is EnclosingColumn || m is PromiseIndex ==> v
            is Null,
        m is Position ==> (v matches Value::Num(b) && integer_value(b) == Some(0int)),
        m is ScriptHash ==> (v matches Value::Str(s) && s@ == ""@),
{
}

/// The names of a call site's methods.
pub proof fn lemma_call_site_methods()
    ensures
        method_name(SiteMethod::This) == "getThis"@,
        method_name(SiteMethod::TypeName) == "getTypeName"@,
        method_name(SiteMethod::Function) == "getFunction"@,
        method_name(SiteMethod::FunctionName) == "getFunctionName"@,
        method_name(SiteMethod::MethodName) == "getMethodName"@,
        method_name(SiteMethod::FileName) == "getFileName"@,
        method_name(SiteMethod::ScriptName) == "getScriptNameOrSourceURL"@,
        method_name(SiteMethod::ScriptHash) == "getScriptHash"@,
        method_name(SiteMethod::LineNumber) == "getLineNumber"@,
        method_name(SiteMethod::ColumnNumber) == "getColumnNumber"@,
        method_name(SiteMethod::EnclosingLine) == "getEnclosingLineNumber"@,
        method_name(SiteMethod::EnclosingColumn) == "getEnclosingColumnNumber"@,
        method_name(SiteMethod::Position) == "getPosition"@,
        method_name(SiteMethod::PromiseIndex) == "getPromiseIndex"@,
        method_name(SiteMethod::EvalOrigin) == "getEvalOrigin"@,
        method_name(SiteMethod::IsToplevel) == "isToplevel"@,
        method_name(SiteMethod::IsEval) == "isEval"@,
        method_name(SiteMethod::IsNative) == "isNative"@,
        method_name(SiteMethod::IsConstructor) == "isConstructor"@,
        method_name(SiteMethod::IsAsync) == "isAsync"@,
        method_name(SiteMethod::IsPromiseAll) == "isPromiseAll"@,
        method_name(SiteMethod::Text) == "toString"@,
{
}

// ---- arrays -----------------------------------------------------------------------------------

/// An array has its items as plain elements, as many as its length says, and the length is
/// hidden and cannot be reconfigured.
pub proof fn lemma_arrays_hold_their_items(
    o: Object,
    proto: u64,
    items: Seq<Value>,
    more: Named,
    i: int,
)
    requires
        is_array(o, proto, items, more),
    ensures
        o.proto == Some(proto),
        o.exotic is Array,
        o.extensible,
        o.call is Never,
        o.elems@.len() == items.len(),
        0 <= i < items.len() ==> {
            &&& o.elems@[i] is Some
            &&& o.elems@[i]->0.kind == PropKind::Data(items[i])
            &&& o.elems@[i]->0.writable && o.elems@[i]->0.enumerable && o.elems@[i]->0.configurable
        },
        lookup(o.props@, "length"@) matches Some(p) && {
            &&& p.writable && !p.enumerable && !p.configurable
            &&& p.kind matches PropKind::Data(Value::Num(n))
            &&& integer_value(n) == Some(items.len() as int)
        },
        0 <= i < more.len() ==> o.props@[i + 1] == more[i],
{
    lemma_index_of_key_is(o.props@, "length"@, 0);
    if 0 <= i < more.len() {
        assert(o.props@.skip(1)[i] == o.props@[i + 1]);
    }
}

// ---- typed-array getters ----------------------------------------------------------------------

/// The four properties that typed arrays answer from their own tables.
pub proof fn lemma_meta_keys()
    ensures
        meta_key(0) == "length"@,
        meta_key(1) == "byteLength"@,
        meta_key(2) == "byteOffset"@,
        meta_key(3) == "buffer"@,
        crate::interpreter::ta_meta::DEPTH == 3,
{
}

/// A getter is reached when the first object up the chain that has the key has it there, and all
/// objects on the way are plain.
pub proof fn lemma_getters_are_reached(
    heap: Heap,
    cur: Option<u64>,
    key: Seq<char>,
    getter: u64,
    levels: nat,
) -> (k: nat)
    requires
        reaches(heap, cur, key, getter, levels),
    ensures
        k < levels,
        upward(heap, cur, k) is Some,
        ({
            let o = heap.at(upward(heap, cur, k)->0);
            &&& heap.has(upward(heap, cur, k)->0)
            &&& o.ic_plain && o.exotic is Ordinary
            &&& lookup(o.props@, key) matches Some(p)
            &&& p.kind matches PropKind::Accessor { get, set }
            &&& get == Some(Value::Obj(getter))
        }),
        forall|j: nat|
            j < k ==> #[trigger] upward(heap, cur, j) is Some && lookup(
                heap.at(upward(heap, cur, j)->0).props@,
                key,
            ) is None,
    decreases levels,
{
    reveal_with_fuel(upward, 2);
    let p = cur->0;
    if lookup(heap.at(p).props@, key) is Some {
        0
    } else {
        let up = heap.at(p).proto;
        let k = lemma_getters_are_reached(heap, up, key, getter, (levels - 1) as nat);
        assert(upward(heap, cur, k + 1) == upward(heap, up, k));
        assert forall|j: nat| j < k + 1 implies #[trigger] upward(heap, cur, j) is Some && lookup(
            heap.at(upward(heap, cur, j)->0).props@,
            key,
        ) is None by {
            if j > 0 {
                assert(upward(heap, cur, j) == upward(heap, up, (j - 1) as nat));
            }
        }
        k + 1
    }
}

/// Where the first object with the key holds something else there, the getter is not reached.
pub proof fn lemma_shadowed_getters_are_not_reached(
    heap: Heap,
    cur: Option<u64>,
    key: Seq<char>,
    getter: u64,
    levels: nat,
    k: nat,
)
    requires
        upward(heap, cur, k) is Some,
        lookup(heap.at(upward(heap, cur, k)->0).props@, key) is Some,
        !(lookup(heap.at(upward(heap, cur, k)->0).props@, key)->0.kind matches PropKind::Accessor {
            get,
            set,
        } && get == Some(Value::Obj(getter))),
        forall|j: nat|
            j < k ==> lookup(heap.at((#[trigger] upward(heap, cur, j))->0).props@, key) is None,
    ensures
        !reaches(heap, cur, key, getter, levels),
    decreases k,
{
    reveal_with_fuel(upward, 2);
    if k > 0 && levels > 0 && cur is Some {
        let up = heap.at(cur->0).proto;
        assert(lookup(heap.at(upward(heap, cur, 0)->0).props@, key) is None);
        assert forall|j: nat| j < k - 1 implies lookup(
            heap.at((#[trigger] upward(heap, up, j))->0).props@,
            key,
        ) is None by {
            assert(upward(heap, cur, j + 1) == upward(heap, up, j));
        }
        lemma_shadowed_getters_are_not_reached(
            heap,
            up,
            key,
            getter,
            (levels - 1) as nat,
            (k - 1) as nat,
        );
    }
}

} // verus!
