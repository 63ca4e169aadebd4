//! Laws of the engine's surface: what a run reports, what is defined, and what runs next.

use crate::ast::{opens_with, Expr, Stmt};
use crate::embed_convert::desc::OpDesc;
use crate::engine::{
    clamped, global_set, namespace_at, ops_from, reason_of, thrown_message, thrown_name,
    ts_rejected, with_op_fns, with_op_props, Completion, Engine, ParseError, SourceKind, Thrown,
};
use crate::interpreter::interp::Interp;
use crate::interpreter::native_names::ends_with;
use crate::object::{lemma_put_reads_back, lookup, Named, PropKind, Property};
use crate::runs::{
    completes, module_completes, parse_report, refusal, script_units, with_methods, Loading,
    LoadStep, NativeSpec, Ran,
};
use crate::text::dec_digits;
use crate::value::Value;
use vstd::prelude::*;

verus! {

/// A text ends with another when nothing follows it.
pub proof fn lemma_texts_end_with(a: Seq<char>, b: Seq<char>)
    ensures
        ends_with(a + b, b),
        ends_with(a, b) ==> exists|c: Seq<char>| a == #[trigger] (c + b),
{
    assert((a + b).skip(a.len() as int) =~= b);
    if ends_with(a, b) {
        let c = a.take(a.len() - b.len());
        assert(a =~= c + b);
    }
}

/// A rejection of syntax that types would erase is an object with a stack, whose code says so.
/// Without any of these it is reported like every other throw.
pub proof fn lemma_type_syntax_is_rejected(t: Thrown)
    ensures
        ts_rejected(t) <==> t.is_object && t.stack is Some && t.code is Some && ends_with(
            (t.code->0)@,
            "_TYPESCRIPT_SYNTAX"@,
        ),
{
}

/// A thrown error is reported by its name, or its constructor's where it has none, and its
/// message; another object by its message alone; a primitive as it is rendered.
pub proof fn lemma_throws_are_described(t: Thrown)
    ensures
        !t.is_error ==> thrown_name(t).len() == 0,
        t.is_error && t.name is Some ==> thrown_name(t) == (t.name->0)@,
        t.is_error && t.name is None && t.ctor_name is Some ==> thrown_name(t)
            == (t.ctor_name->0)@,
        t.is_error && t.name is None && t.ctor_name is None ==> thrown_name(t).len() == 0,
        t.is_object && t.message is Some ==> thrown_message(t) == (t.message->0)@,
        t.is_object && t.message is None ==> thrown_message(t).len() == 0,
        !t.is_object ==> thrown_message(t) == t.rendered@,
{
}

/// A run that gave a value completes with its text. One that threw completes with its report
/// where it has one, under no name, and otherwise with the name and message.
pub proof fn lemma_runs_complete(c: Completion, ran: Ran)
    requires
        completes(c, ran),
    ensures
        ran is Value <==> c is Value,
        ran matches Ran::Value(v) ==> (c matches Completion::Value(t) && t@ == v@),
        ran matches Ran::Threw { thrown, report } ==> (c matches Completion::Throw { name, message }
            && match report {
            Some(text) => name@.len() == 0 && message@ == text@,
            None => name@ == thrown_name(thrown) && message@ == thrown_message(thrown),
        }),
{
}

/// A module that did not throw completes with no text; one that threw like any run that threw.
pub proof fn lemma_modules_complete(c: Completion, threw: Option<(Thrown, Option<String>)>)
    requires
        module_completes(c, threw),
    ensures
        threw is None ==> (c matches Completion::Value(t) && t@.len() == 0),
        threw is Some ==> c is Throw,
        threw matches Some((thrown, Some(text))) ==> (c matches Completion::Throw { name, message }
            && name@.len() == 0 && message@ == text@),
        threw matches Some((thrown, None)) ==> (c matches Completion::Throw { name, message }
            && name@ == thrown_name(thrown) && message@ == thrown_message(thrown)),
{
}

/// A parse error is reported as its message with its line; a refusal has no line.
pub proof fn lemma_parse_errors_are_reported(e: ParseError, message: Seq<char>)
    ensures
        parse_report(e) == e.message@ + " (line "@ + dec_digits(e.line as nat) + ")"@,
        parse_report(e).take(e.message@.len() as int) == e.message@,
        refusal(e, message) <==> e.message@ == message && e.line == 0 && !e.at_eof,
{
    assert(parse_report(e).take(e.message@.len() as int) =~= e.message@);
}

/// A body opens with a directive when its first statement is that string and nothing else.
pub proof fn lemma_directives_come_first(body: Seq<Stmt>, text: Seq<char>)
    ensures
        body.len() == 0 ==> !opens_with(body, text),
        body.len() > 0 && !(body[0] is Expr) ==> !opens_with(body, text),
        body.len() > 0 && (body[0] matches Stmt::Expr(e) && !(e is Str)) ==> !opens_with(body, text),
        body.len() > 0 && (body[0] matches Stmt::Expr(Expr::Str(s)) && s@ == text) ==> opens_with(
            body,
            text,
        ),
        body.len() > 0 && (body[0] matches Stmt::Expr(Expr::Str(s)) && s@ != text) ==> !opens_with(
            body,
            text,
        ),
{
}

/// A blob's scripts run in order, one at a time, then its entry, then nothing. Once it has ended
/// nothing runs.
pub proof fn lemma_blobs_run_scripts_and_then_the_entry(l: Loading, i: int)
    requires
        l.from <= l.blob.kinds@.len(),
    ensures
        l.ended ==> l.step() is Done && l.scripts().len() == 0,
        !l.ended && l.from <= i < l.blob.kinds@.len() && l.blob.kinds@[i] == SourceKind::Script
            ==> (l.step() matches LoadStep::Script(k) && l.from <= k <= i && l.blob.kinds@[k as int]
            == SourceKind::Script),
        l.step() matches LoadStep::Script(k) && l.from <= i < k ==> l.blob.kinds@[i]
            != SourceKind::Script,
        !l.ended && (forall|k: int|
            l.from <= k < l.blob.kinds@.len() ==> #[trigger] l.blob.kinds@[k] != SourceKind::Script)
            ==> l.step() == (match l.blob.entry {
            Some(e) => LoadStep::Entry(e),
            None => LoadStep::Done,
        }),
{
    let ks = l.blob.kinds@;
    assert(ks.len() == l.blob.kinds.len());
    crate::runs::lemma_script_units(ks, l.from as int);
    let us = script_units(ks, l.from as int);
    if us.len() > 0 {
        assert(us.contains(us[0]));
    }
    if l.from <= i < ks.len() && ks[i] == SourceKind::Script {
        assert(us.contains(i));
        let j = us.index_of(i);
        if j > 0 {
            assert(us[0] < us[j]);
        }
    }
}

/// A limit is put where it was asked to be, within the two bounds.
pub proof fn lemma_limits_are_clamped(v: i64, lo: i64, hi: i64)
    requires
        lo <= hi,
    ensures
        lo <= clamped(v, lo, hi) <= hi,
        lo <= v <= hi ==> clamped(v, lo, hi) == v,
        v < lo ==> clamped(v, lo, hi) == lo,
        v > hi ==> clamped(v, lo, hi) == hi,
{
}

/// A rejection that nobody handled is reported with the value it was rejected with.
pub proof fn lemma_rejections_have_reasons(i: Interp, p: u64)
    ensures
        i.promises.slots@.contains_key(p) ==> reason_of(i, p) == i.promises.slots@[p].value,
        !i.promises.slots@.contains_key(p) ==> reason_of(i, p) is Undefined,
{
}

/// A namespace is the object that the global property holds, or that reading it gave; a data
/// property that holds none is replaced by a new object.
pub proof fn lemma_namespaces_are_found(e: Engine, name: Seq<char>, read: Option<u64>, n: int)
    requires
        0 <= n <= u64::MAX,
    ensures
        ({
            let p = lookup(e.interp.heap.at(e.interp.global).props@, name);
            &&& p is None ==> e.held_object(name, read) == read
            &&& p is Some && p->0.kind is Accessor ==> e.held_object(name, read) == read
            &&& p is Some && p->0.kind is Data ==> (e.held_object(name, read) is Some
                <==> p->0.kind->Data_0 is Obj)
            &&& p is Some && (p->0.kind matches PropKind::Data(Value::Obj(o))) ==> e.held_object(
                name,
                read,
            ) == Some(p->0.kind->Data_0->Obj_0)
        }),
        namespace_at(None, n) == n,
        ops_from(None, n) == n + 1,
        forall|o: u64| #[trigger] namespace_at(Some(o), n) == o,
        forall|o: u64| #[trigger] ops_from(Some(o), n) == n,
{
}

/// Each op of a namespace is a property there that holds its function, hidden from enumeration;
/// of two of one name the last counts. Other properties stay.
pub proof fn lemma_ops_are_properties(base: Named, ops: Seq<OpDesc>, first: int, i: int, other: Seq<char>)
    ensures
        0 <= i < ops.len() && (forall|j: int|
            i < j < ops.len() ==> (#[trigger] ops[j]).name@ != ops[i].name@) ==> {
            &&& lookup(with_op_props(base, ops, first), ops[i].name@) matches Some(p)
            &&& p.kind == PropKind::Data(Value::Obj((first + i) as u64))
            &&& p.writable && !p.enumerable && p.configurable
        },
        (forall|j: int| 0 <= j < ops.len() ==> (#[trigger] ops[j]).name@ != other) ==> lookup(
            with_op_props(base, ops, first),
            other,
        ) == lookup(base, other),
    decreases ops.len(),
{
    if ops.len() > 0 {
        let d = ops.drop_last();
        let before = with_op_props(base, d, first);
        let p = Property::spec_data(
            crate::embed_convert::class::member_value(first, ops.len() - 1),
            true,
            false,
            true,
        );
        lemma_ops_are_properties(base, d, first, i, other);
        lemma_put_reads_back(before, ops.last().name@, p, other);
        lemma_put_reads_back(before, ops.last().name@, p, ops.last().name@);
        if 0 <= i < d.len() && (forall|j: int|
            i < j < ops.len() ==> (#[trigger] ops[j]).name@ != ops[i].name@) {
            assert forall|j: int| i < j < d.len() implies (#[trigger] d[j]).name@ != d[i].name@ by {
                assert(ops[j].name@ != ops[i].name@);
            }
            assert(ops[ops.len() - 1].name@ != ops[i].name@);
            lemma_put_reads_back(before, ops.last().name@, p, ops[i].name@);
        }
        if forall|j: int| 0 <= j < ops.len() ==> (#[trigger] ops[j]).name@ != other {
            assert forall|j: int| 0 <= j < d.len() implies (#[trigger] d[j]).name@ != other by {
                assert(ops[j].name@ != other);
            }
            assert(ops[ops.len() - 1].name@ != other);
        }
    }
}

/// The entry point of each op leads to its description, the last of several winning.
pub proof fn lemma_op_entry_points(
    by_fn: Map<u64, usize>,
    ops: Seq<OpDesc>,
    first: int,
    i: int,
    native: u64,
)
    ensures
        0 <= i < ops.len() && (forall|j: int|
            i < j < ops.len() ==> (#[trigger] ops[j]).native != ops[i].native) ==> {
            &&& with_op_fns(by_fn, ops, first).contains_key(ops[i].native)
            &&& with_op_fns(by_fn, ops, first)[ops[i].native] == (first + i) as usize
        },
        (forall|j: int| 0 <= j < ops.len() ==> (#[trigger] ops[j]).native != native) ==> {
            &&& with_op_fns(by_fn, ops, first).contains_key(native) <==> by_fn.contains_key(native)
            &&& by_fn.contains_key(native) ==> with_op_fns(by_fn, ops, first)[native]
                == by_fn[native]
        },
    decreases ops.len(),
{
    if ops.len() > 0 {
        let d = ops.drop_last();
        lemma_op_entry_points(by_fn, d, first, i, native);
        if 0 <= i < d.len() && (forall|j: int|
            i < j < ops.len() ==> (#[trigger] ops[j]).native != ops[i].native) {
            assert forall|j: int| i < j < d.len() implies (#[trigger] d[j]).native
                != d[i].native by {
                assert(ops[j].native != ops[i].native);
            }
            assert(ops[ops.len() - 1].native != ops[i].native);
        }
        if forall|j: int| 0 <= j < ops.len() ==> (#[trigger] ops[j]).native != native {
            assert forall|j: int| 0 <= j < d.len() implies (#[trigger] d[j]).native != native by {
                assert(ops[j].native != native);
            }
            assert(ops[ops.len() - 1].native != native);
        }
    }
}

/// Each native of a namespace is a property there that holds its function, hidden from
/// enumeration; of two of one name the last counts.
pub proof fn lemma_natives_are_properties(
    base: Named,
    ops: Seq<NativeSpec>,
    first: int,
    i: int,
    other: Seq<char>,
)
    ensures
        0 <= i < ops.len() && (forall|j: int|
            i < j < ops.len() ==> (#[trigger] ops[j]).name@ != ops[i].name@) ==> {
            &&& lookup(with_methods(base, ops, first), ops[i].name@) matches Some(p)
            &&& p.kind == PropKind::Data(Value::Obj((first + i) as u64))
            &&& p.writable && !p.enumerable && p.configurable
        },
        (forall|j: int| 0 <= j < ops.len() ==> (#[trigger] ops[j]).name@ != other) ==> lookup(
            with_methods(base, ops, first),
            other,
        ) == lookup(base, other),
    decreases ops.len(),
{
    if ops.len() > 0 {
        let d = ops.drop_last();
        let before = with_methods(base, d, first);
        let p = Property::spec_data(
            Value::Obj((first + ops.len() - 1) as u64),
            true,
            false,
            true,
        );
        lemma_natives_are_properties(base, d, first, i, other);
        lemma_put_reads_back(before, ops.last().name@, p, other);
        lemma_put_reads_back(before, ops.last().name@, p, ops.last().name@);
        if 0 <= i < d.len() && (forall|j: int|
            i < j < ops.len() ==> (#[trigger] ops[j]).name@ != ops[i].name@) {
            assert forall|j: int| i < j < d.len() implies (#[trigger] d[j]).name@ != d[i].name@ by {
                assert(ops[j].name@ != ops[i].name@);
            }
            assert(ops[ops.len() - 1].name@ != ops[i].name@);
            lemma_put_reads_back(before, ops.last().name@, p, ops[i].name@);
        }
        if forall|j: int| 0 <= j < ops.len() ==> (#[trigger] ops[j]).name@ != other {
            assert forall|j: int| 0 <= j < d.len() implies (#[trigger] d[j]).name@ != other by {
                assert(ops[j].name@ != other);
            }
            assert(ops[ops.len() - 1].name@ != other);
        }
    }
}

/// Setting a global leaves its other properties and every other object alone, and the property
/// holds the value, hidden from enumeration.
pub proof fn lemma_globals_are_set(
    before: Engine,
    after: Engine,
    made: int,
    name: Seq<char>,
    v: Value,
    other: Seq<char>,
)
    requires
        global_set(before, after, made, name, v),
    ensures
        ({
            let g = before.interp.global;
            let s = before.interp.heap.at(g).props@;
            let t = after.interp.heap.at(g).props@;
            &&& lookup(t, name) matches Some(p)
            &&& p.kind == PropKind::Data(v)
            &&& p.writable && !p.enumerable && p.configurable
            &&& other != name ==> lookup(t, other) == lookup(s, other)
        }),
{
    let s = before.interp.heap.at(before.interp.global).props@;
    let p = Property::spec_data(v, true, false, true);
    lemma_put_reads_back(s, name, p, other);
    lemma_put_reads_back(s, name, p, name);
}

} // verus!
