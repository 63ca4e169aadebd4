//! Laws of host classes, byte views and the errors that ops report.

use crate::embed_convert::arg_cx::{
    alias_free, borrowed as borrowed_bytes, conflicts, first_conflict, overlaps, shared_bytes, view_complaint, ArgCx, ByteBorrow,
    ViewOutcome,
};
use crate::embed_convert::class::{
    borrows_instance, class_props, conflict_text, ctor_entry, fn_length, fn_name, function_of,
    is_class_at, is_ctor_base, is_proto_base, last_member, lemma_class_lookup, member_value,
    not_instance, with_ops, Role,
};
use crate::embed_convert::desc::{label_text, slot_text, ClassDesc, MemberDesc, OpDesc, Slot};
use crate::embed_convert::host::Guard;
use crate::embed_convert::into_heap::side_object;
use crate::embed_convert::op_error::OpError;
use crate::embed_convert::promise::made_promise;
use crate::object::Object;
use crate::embed_convert::host::{borrowed, free, idle_entry, returned, HostEntry, HostObjects};
use crate::embed_convert::op_error::{code_text, failure_class, new_error, IoKind, OpErrorView, StdFailure};
use crate::embed_convert::views::{with_lent, Buffers, ByteRange, ViewErr, ViewTables};
use crate::interpreter::interp::Interp;
use crate::object::{lookup, lemma_index_of_key_is, Callable, Named, PropKind};
use crate::text::dec_digits;
use crate::value::Value;
use vstd::arithmetic::div_mod::lemma_fundamental_div_mod;
use vstd::prelude::*;

verus! {

// ---- members ----------------------------------------------------------------------------------

/// A member's function is named and counted as the language names and counts it: a method by its
/// name and arity, a getter after `get` with no parameter, a setter after `set` with one. A
/// static member is what its kind says, on the constructor.
pub proof fn lemma_members_are_named_by_kind(m: MemberDesc)
    ensures
        m.kind is Method || m.kind is StaticMethod ==> fn_name(m) == m.op.name@ && fn_length(m)
            == m.op.arity,
        m.kind is Getter || m.kind is StaticGetter ==> fn_name(m) == "get "@ + m.op.name@
            && fn_length(m) == 0,
        m.kind is Setter || m.kind is StaticSetter ==> fn_name(m) == "set "@ + m.op.name@
            && fn_length(m) == 1,
        m.kind.spec_static() <==> (m.kind is StaticMethod || m.kind is StaticGetter || m.kind
            is StaticSetter),
        m.kind.spec_role() is Method <==> (m.kind is Method || m.kind is StaticMethod),
        m.kind.spec_role() is Getter <==> (m.kind is Getter || m.kind is StaticGetter),
        m.kind.spec_role() is Setter <==> (m.kind is Setter || m.kind is StaticSetter),
{
}

/// Of several members for one property the last one counts, each half of an accessor for
/// itself.
pub proof fn lemma_the_last_member_counts(
    ms: Seq<MemberDesc>,
    is_static: bool,
    name: Seq<char>,
    role: Role,
    j: int,
)
    ensures
        last_member(ms, is_static, name, role) matches Some(i) ==> {
            &&& 0 <= i < ms.len()
            &&& ms[i].kind.spec_static() == is_static
            &&& ms[i].op.name@ == name
            &&& ms[i].kind.spec_role() == role
            &&& i < j < ms.len() ==> !(ms[j].kind.spec_static() == is_static && ms[j].op.name@
                == name && ms[j].kind.spec_role() == role)
        },
        last_member(ms, is_static, name, role) is None && 0 <= j < ms.len() ==> !(
        ms[j].kind.spec_static() == is_static && ms[j].op.name@ == name && ms[j].kind.spec_role()
            == role),
    decreases ms.len(),
{
    if ms.len() > 0 {
        lemma_the_last_member_counts(ms.drop_last(), is_static, name, role, j);
        if 0 <= j < ms.len() - 1 {
            assert(ms.drop_last()[j] == ms[j]);
        }
    }
}

/// Members are hidden from enumeration and can be reconfigured; a method can be overwritten. An
/// accessor without one half has none there.
pub proof fn lemma_members_are_hidden(
    base: Named,
    ms: Seq<MemberDesc>,
    first: int,
    is_static: bool,
    name: Seq<char>,
)
    requires
        lookup(base, name) is None,
    ensures
        lookup(class_props(base, ms, first, is_static), name) matches Some(p) ==> {
            &&& !p.enumerable
            &&& p.configurable
            &&& match p.kind {
                PropKind::Data(v) => p.writable && function_of(
                    first,
                    last_member(ms, is_static, name, Role::Method),
                ) == Some(v),
                PropKind::Accessor { get, set } => {
                    &&& get == function_of(first, last_member(ms, is_static, name, Role::Getter))
                    &&& set == function_of(first, last_member(ms, is_static, name, Role::Setter))
                    &&& get is Some || set is Some
                },
            }
        },
        lookup(class_props(base, ms, first, is_static), name) is None <==> {
            &&& last_member(ms, is_static, name, Role::Method) is None
            &&& last_member(ms, is_static, name, Role::Getter) is None
            &&& last_member(ms, is_static, name, Role::Setter) is None
        },
{
    lemma_class_lookup(base, ms, first, is_static, name);
}

/// The functions of members are the objects that follow, in order.
pub proof fn lemma_member_functions_follow(first: int, i: int)
    requires
        0 <= first,
        0 <= i,
        first + i <= u64::MAX,
    ensures
        member_value(first, i) matches Value::Obj(o) && o == first + i,
        function_of(first, Some(i)) == Some(member_value(first, i)),
        function_of(first, None) is None,
{
}

/// A class without a constructor is one that `new` refuses; one with it is called by it, and has
/// its arity.
pub proof fn lemma_constructors_of_classes(d: ClassDesc)
    ensures
        d.constructor is None ==> ctor_entry(d).0 == 0 && ctor_entry(d).1 == 0,
        d.constructor matches Some(op) ==> ctor_entry(d).0 == op.native && ctor_entry(d).1
            == op.arity,
{
}

/// A native function that is the refused constructor throws; another runs; nothing else is a
/// native function.
pub proof fn lemma_natives_run_or_are_refused(i: Interp, o: u64)
    requires
        i.heap.has(o),
    ensures
        i.heap.at(o).call matches Callable::Native(n) ==> {
            &&& i.native_behind(Value::Obj(o)) == Some(n)
            &&& i.refusal(Value::Obj(o)) is Some <==> n == 0
            &&& n == 0 ==> i.refusal(Value::Obj(o)) == Some(
                (OpErrorView::New {
                    class: "TypeError"@,
                    message: "Illegal constructor"@,
                    code: None,
                }),
            )
        },
        !(i.heap.at(o).call is Native) ==> i.native_behind(Value::Obj(o)) is None && i.refusal(
            Value::Obj(o),
        ) is None && i.spec_op_of(Value::Obj(o)) is None,
        i.heap.at(o).call matches Callable::Native(n) ==> i.spec_op_of(Value::Obj(o)) == (
        if i.ops.by_fn@.contains_key(n) {
            Some(i.ops.descs@[i.ops.by_fn@[n] as int].deep_view())
        } else {
            None
        }),
{
}

/// Only an object has a native function behind it, or a host value inside it.
pub proof fn lemma_only_objects_hold_host_values(i: Interp, class: u64, v: Value)
    ensures
        !(v is Obj) ==> i.native_behind(v) is None && i.refusal(v) is None && i.spec_op_of(v)
            is None && i.spec_instance(class, v) is None,
        v matches Value::Obj(o) ==> i.spec_instance(class, v) == i.hosts.spec_data(o, class),
{
}

/// The entry point of each member leads to its description, the last of several winning; other
/// entry points lead where they led.
pub proof fn lemma_member_ops_are_found(
    by_fn: Map<u64, usize>,
    ms: Seq<MemberDesc>,
    first: int,
    i: int,
    native: u64,
)
    ensures
        0 <= i < ms.len() && (forall|j: int|
            i < j < ms.len() ==> (#[trigger] ms[j]).op.native != ms[i].op.native) ==> {
            &&& with_ops(by_fn, ms, first).contains_key(ms[i].op.native)
            &&& with_ops(by_fn, ms, first)[ms[i].op.native] == (first + i) as usize
        },
        (forall|j: int| 0 <= j < ms.len() ==> (#[trigger] ms[j]).op.native != native) ==> {
            &&& with_ops(by_fn, ms, first).contains_key(native) <==> by_fn.contains_key(native)
            &&& by_fn.contains_key(native) ==> with_ops(by_fn, ms, first)[native] == by_fn[native]
        },
    decreases ms.len(),
{
    if ms.len() > 0 {
        let d = ms.drop_last();
        lemma_member_ops_are_found(by_fn, d, first, i, native);
        if 0 <= i < d.len() && (forall|j: int|
            i < j < ms.len() ==> (#[trigger] ms[j]).op.native != ms[i].op.native) {
            assert forall|j: int| i < j < d.len() implies (#[trigger] d[j]).op.native
                != d[i].op.native by {
                assert(ms[j].op.native != ms[i].op.native);
            }
            assert(ms[ms.len() - 1].op.native != ms[i].op.native);
        }
        if forall|j: int| 0 <= j < ms.len() ==> (#[trigger] ms[j]).op.native != native {
            assert forall|j: int| 0 <= j < d.len() implies (#[trigger] d[j]).op.native
                != native by {
                assert(ms[j].op.native != native);
            }
            assert(ms[ms.len() - 1].op.native != native);
        }
    }
}

/// A class's prototype starts with its constructor and its tag; the constructor with its length,
/// its name and the prototype, which is fixed.
pub proof fn lemma_classes_start_with(s: Named, ctor: u64, name: Seq<char>, t: Named, length: int, proto: u64)
    ensures
        is_proto_base(s, ctor, name) ==> {
            &&& lookup(s, "constructor"@) matches Some(p) && p.kind == PropKind::Data(
                Value::Obj(ctor),
            ) && p.writable && !p.enumerable && p.configurable
            &&& lookup(s, "@@toStringTag"@) matches Some(p) && !p.writable && !p.enumerable
                && p.configurable && (p.kind matches PropKind::Data(Value::Str(x)) && x@ == name)
        },
        is_ctor_base(t, length, name, proto) ==> t.len() == 3 && t[2].0 == "prototype"@
            && t[2].1.kind == PropKind::Data(Value::Obj(proto)) && !t[2].1.writable
            && !t[2].1.enumerable && !t[2].1.configurable,
{
    reveal_strlit("constructor");
    reveal_strlit("@@toStringTag");
    if is_proto_base(s, ctor, name) {
        assert("constructor"@[0] == 'c' && "@@toStringTag"@[0] == '@');
        assert("constructor"@ != "@@toStringTag"@);
        lemma_index_of_key_is(s, "constructor"@, 0);
        lemma_index_of_key_is(s, "@@toStringTag"@, 1);
    }
}

// ---- texts ------------------------------------------------------------------------------------

/// An op is called by its name, after its owner's and a dot where it has one.
pub proof fn lemma_ops_are_labelled(d: OpDesc)
    ensures
        d.owner@.len() == 0 ==> label_text(d) == d.name@,
        d.owner@.len() > 0 ==> {
            &&& label_text(d).len() == d.owner@.len() + 1 + d.name@.len()
            &&& label_text(d).take(d.owner@.len() as int) == d.owner@
            &&& label_text(d)[d.owner@.len() as int] == '.'
            &&& label_text(d).skip(d.owner@.len() as int + 1) == d.name@
        },
{
    if d.owner@.len() > 0 {
        assert(label_text(d).take(d.owner@.len() as int) =~= d.owner@);
        assert(label_text(d).skip(d.owner@.len() as int + 1) =~= d.name@);
    }
}

/// A place in a call is called the receiver, or an argument counted from one and named where it
/// has a name; an element of it is counted from zero.
pub proof fn lemma_places_are_labelled(d: OpDesc, s: Slot)
    ensures
        s.spec_arg() == 0xffff_ffff && s.spec_elem() == 0xffff_ffff ==> slot_text(d, s)
            == "receiver (this)"@,
        s.spec_arg() == 0xffff_ffff && s.spec_elem() != 0xffff_ffff ==> slot_text(d, s)
            == "receiver (this)"@ + " element "@ + dec_digits(s.spec_elem() as nat),
        s.spec_arg() < 0xffff_ffff && s.spec_elem() == 0xffff_ffff && s.spec_arg() < d.params@.len()
            ==> slot_text(d, s) == "argument "@ + dec_digits((s.spec_arg() + 1) as nat) + " ("@
            + d.params@[s.spec_arg() as int]@ + ")"@,
        s.spec_arg() < 0xffff_ffff && s.spec_elem() == 0xffff_ffff && s.spec_arg()
            >= d.params@.len() ==> slot_text(d, s) == "argument "@ + dec_digits(
            (s.spec_arg() + 1) as nat,
        ),
        s.spec_arg() < 0xffff_ffff && s.spec_elem() != 0xffff_ffff && s.spec_arg()
            >= d.params@.len() ==> slot_text(d, s) == "argument "@ + dec_digits(
            (s.spec_arg() + 1) as nat,
        ) + " element "@ + dec_digits(s.spec_elem() as nat),
        s.spec_arg() < 0xffff_ffff && s.spec_elem() != 0xffff_ffff && s.spec_arg() < d.params@.len()
            ==> slot_text(d, s) == "argument "@ + dec_digits((s.spec_arg() + 1) as nat) + " ("@
            + d.params@[s.spec_arg() as int]@ + ")"@ + " element "@ + dec_digits(
            s.spec_elem() as nat,
        ),
{
}

/// A complaint names the op, the place and what is wrong with it, in this order.
pub proof fn lemma_complaints_name_the_place(d: OpDesc, at: Slot, what: Seq<char>)
    ensures
        d.complaint(at, what) == label_text(d) + ": "@ + slot_text(d, at) + " "@ + what,
        d.complaint(at, what).skip(d.complaint(at, what).len() - what.len()) == what,
        d.complaint(at, what).take(label_text(d).len() as int) == label_text(d),
{
    let t = d.complaint(at, what);
    assert(t.skip(t.len() - what.len()) =~= what);
    assert(t.take(label_text(d).len() as int) =~= label_text(d));
}

/// A receiver of the wrong class is an illegal invocation; another value of the wrong class is
/// asked to be one. A value that is in use is said to be, with its class.
pub proof fn lemma_wrong_instances_are_reported(cx: ArgCx, name: Seq<char>, at: Slot)
    ensures
        at.spec_arg() == 0xffff_ffff && at.spec_elem() == 0xffff_ffff ==> not_instance(cx, name, at)
            == label_text(cx.desc) + ": illegal invocation (receiver is not a "@ + name + ")"@,
        !(at.spec_arg() == 0xffff_ffff && at.spec_elem() == 0xffff_ffff) ==> not_instance(
            cx,
            name,
            at,
        ) == label_text(cx.desc) + ": "@ + slot_text(cx.desc, at) + " "@ + ("must be a "@ + name),
        conflict_text(cx, name, at) == label_text(cx.desc) + ": "@ + slot_text(cx.desc, at) + " "@ + (
        "is a "@ + name + " already in use by an enclosing call (re-entrant borrow)"@),
{
}

/// A system error carries the code that the platform's C library has for its kind.
pub proof fn lemma_io_codes()
    ensures
        code_text(IoKind::NotFound) == Some("ENOENT"@),
        code_text(IoKind::PermissionDenied) == Some("EACCES"@),
        code_text(IoKind::AlreadyExists) == Some("EEXIST"@),
        code_text(IoKind::ConnectionRefused) == Some("ECONNREFUSED"@),
        code_text(IoKind::ConnectionReset) == Some("ECONNRESET"@),
        code_text(IoKind::ConnectionAborted) == Some("ECONNABORTED"@),
        code_text(IoKind::TimedOut) == Some("ETIMEDOUT"@),
        code_text(IoKind::BrokenPipe) == Some("EPIPE"@),
        code_text(IoKind::InvalidInput) == Some("EINVAL"@),
        code_text(IoKind::AddrInUse) == Some("EADDRINUSE"@),
        code_text(IoKind::WouldBlock) == Some("EAGAIN"@),
        code_text(IoKind::Interrupted) == Some("EINTR"@),
        code_text(IoKind::Unsupported) == Some("ENOTSUP"@),
        code_text(IoKind::DirectoryNotEmpty) == Some("ENOTEMPTY"@),
        code_text(IoKind::IsADirectory) == Some("EISDIR"@),
        code_text(IoKind::NotADirectory) == Some("ENOTDIR"@),
        forall|k: IoKind| #[trigger] code_text(k) is None <==> k is Other,
{
}

/// The class of a failure: text that does not parse is a syntax error, a number that does not
/// fit a range error, bytes that are no text a type error, and anything else an error.
pub proof fn lemma_failure_classes(f: StdFailure)
    ensures
        f is ParseInt || f is ParseFloat ==> failure_class(f) == "SyntaxError"@,
        f is TryFromInt ==> failure_class(f) == "RangeError"@,
        f is Utf8 ==> failure_class(f) == "TypeError"@,
        f is Fmt || f is Other ==> failure_class(f) == "Error"@,
{
}

/// A new error has its class and message, and no code.
pub proof fn lemma_new_errors(class: Seq<char>, message: Seq<char>)
    ensures
        new_error(class, message) matches OpErrorView::New { class: c, message: m, code } && c
            == class && m == message && code is None,
{
}

// ---- host values ------------------------------------------------------------------------------

/// A host value may be shared by readers or held by one writer, never both: a writer is let in
/// when nobody holds it, and while it is held nobody is.
pub proof fn lemma_host_values_have_readers_or_a_writer(e: HostEntry)
    requires
        e.shared < u32::MAX,
    ensures
        free(e, true) <==> !e.exclusive && e.shared == 0,
        free(e, false) <==> !e.exclusive,
        !free(borrowed(e, true), true),
        !free(borrowed(e, true), false),
        !free(borrowed(e, false), true),
        !e.exclusive && e.shared + 1 < u32::MAX ==> free(borrowed(e, false), false),
        free(e, false) ==> returned(borrowed(e, false), false) == e,
        free(e, true) ==> returned(borrowed(e, true), true) == e,
        borrowed(e, true).class == e.class && borrowed(e, true).handle == e.handle,
        borrowed(e, false).class == e.class && borrowed(e, false).handle == e.handle,
        borrowed(e, false).shared == e.shared + 1,
        returned(e, false).exclusive == e.exclusive,
        returned(e, true).shared == e.shared,
{
}

/// A value that was just attached belongs to its class, has its handle, and is free.
pub proof fn lemma_attached_values_are_free(class: u64, handle: u64)
    ensures
        idle_entry(class, handle).class == class,
        idle_entry(class, handle).handle == handle,
        free(idle_entry(class, handle), true),
        free(idle_entry(class, handle), false),
{
}

/// A host value is found under its own class only.
pub proof fn lemma_host_values_are_found_by_class(h: HostObjects, obj: u64, class: u64, handle: u64)
    ensures
        h.spec_data(obj, class) == Some(handle) <==> {
            &&& h.entries@.contains_key(obj)
            &&& h.entries@[obj].class == class
            &&& h.entries@[obj].handle == handle
        },
{
}

/// Attaching sweeps the dead once there are as many entries as the mark, and never below two
/// hundred and fifty-six; a sweep sets the mark to twice what lives.
pub proof fn lemma_attaching_sweeps_at_the_mark(
    before: HostObjects,
    after: HostObjects,
    obj: u64,
    e: HostEntry,
    alive: Set<u64>,
    other: u64,
)
    requires
        before.attached(after, obj, e, alive),
    ensures
        after.entries@.contains_key(obj) && after.entries@[obj] == e,
        before.entries@.len() < before.sweep_at || before.entries@.len() < 256 ==> {
            &&& after.sweep_at == before.sweep_at
            &&& other != obj ==> (after.entries@.contains_key(other)
                <==> before.entries@.contains_key(other))
        },
        before.entries@.len() >= before.sweep_at && before.entries@.len() >= 256 ==> {
            &&& other != obj ==> (after.entries@.contains_key(other)
                <==> before.entries@.contains_key(other) && alive.contains(other))
            &&& 2 * before.entries@.restrict(alive).len() <= usize::MAX ==> after.sweep_at == 2
                * before.entries@.restrict(alive).len()
        },
        other != obj && after.entries@.contains_key(other) ==> after.entries@[other]
            == before.entries@[other],
{
}

// ---- byte views -------------------------------------------------------------------------------

/// Two ranges overlap when they have a byte in common.
pub proof fn lemma_overlapping_ranges_share_a_byte(a: ByteRange, b: ByteRange, p: int)
    ensures
        a.key == b.key && a.off <= p < a.off + a.len && b.off <= p < b.off + b.len ==> overlaps(a, b),
        overlaps(a, b) ==> a.key == b.key && {
            let q = if a.off > b.off {
                a.off
            } else {
                b.off
            };
            a.off <= q < a.off + a.len && b.off <= q < b.off + b.len
        },
        overlaps(a, b) == overlaps(b, a),
{
}

/// Two views conflict when they overlap and one of them may be written.
pub proof fn lemma_writable_views_do_not_alias(b: ByteBorrow, r: ByteRange, mutable: bool)
    ensures
        conflicts(b, r, mutable) <==> overlaps(r, b.range) && (mutable || b.mutable),
        !mutable && !b.mutable ==> !conflicts(b, r, mutable),
{
}

/// The conflict that is reported is the first.
pub proof fn lemma_the_first_conflict_is_reported(
    bs: Seq<ByteBorrow>,
    r: ByteRange,
    mutable: bool,
    j: int,
)
    ensures
        first_conflict(bs, r, mutable) <= bs.len(),
        0 <= j < first_conflict(bs, r, mutable) ==> !conflicts(bs[j], r, mutable),
        first_conflict(bs, r, mutable) < bs.len() ==> conflicts(
            bs[first_conflict(bs, r, mutable) as int],
            r,
            mutable,
        ),
    decreases bs.len(),
{
    if bs.len() > 0 && !conflicts(bs[0], r, mutable) {
        lemma_the_first_conflict_is_reported(bs.drop_first(), r, mutable, j - 1);
        if 0 < j < bs.len() {
            assert(bs.drop_first()[j - 1] == bs[j]);
        }
    }
}

/// Bytes are borrowed where the value covers some, the memory is not shared, nothing that is to
/// be written is immutable, and no earlier view conflicts. Shared memory is copied, and never
/// written.
pub proof fn lemma_outcomes_of_views(cx: ArgCx, t: ViewTables, v: Value, mutable: bool, i: int)
    ensures
        cx.view_outcome(t, v, mutable) matches ViewOutcome::Borrowed(r) ==> {
            &&& cx.resolved(t, v) == Ok::<ByteRange, ViewErr>(r)
            &&& !t.shared_buffers@.contains_key(r.key)
            &&& mutable ==> !t.immutable_buffers@.contains(r.key)
            &&& 0 <= i < cx.borrows@.len() ==> !(overlaps(r, cx.borrows@[i].range) && (mutable
                || cx.borrows@[i].mutable))
        },
        cx.view_outcome(t, v, mutable) matches ViewOutcome::Copied(b) ==> {
            &&& !mutable
            &&& cx.resolved(t, v) is Ok
            &&& t.shared_buffers@.contains_key(cx.resolved(t, v)->Ok_0.key)
            &&& b == shared_bytes(t, cx.resolved(t, v)->Ok_0)
        },
        cx.resolved(t, v) matches Err(e) ==> cx.view_outcome(t, v, mutable) == ViewOutcome::Refused(
            view_complaint(e),
        ),
        cx.resolved(t, v) matches Ok(r) ==> {
            &&& t.shared_buffers@.contains_key(r.key) && mutable ==> cx.view_outcome(t, v, mutable)
                == ViewOutcome::Refused("must not be a SharedArrayBuffer view (&mut [u8])"@)
            &&& t.shared_buffers@.contains_key(r.key) && !mutable ==> cx.view_outcome(t, v, mutable)
                is Copied
            &&& !t.shared_buffers@.contains_key(r.key) && mutable && t.immutable_buffers@.contains(
                r.key,
            ) ==> cx.view_outcome(t, v, mutable) == ViewOutcome::Refused(
                "is backed by an immutable ArrayBuffer"@,
            )
            &&& !t.shared_buffers@.contains_key(r.key) && cx.borrows@.len() == 0 && !(mutable
                && t.immutable_buffers@.contains(r.key)) ==> cx.view_outcome(t, v, mutable)
                == ViewOutcome::Borrowed(r)
        },
{
    if let Ok(r) = cx.resolved(t, v) {
        lemma_the_first_conflict_is_reported(cx.borrows@, r, mutable, i);
    }
}

/// A view that is refused for a conflict names the place of the first view that it overlaps.
pub proof fn lemma_conflicting_views_are_named(
    cx: ArgCx,
    t: ViewTables,
    v: Value,
    mutable: bool,
    k: int,
)
    requires
        cx.resolved(t, v) is Ok,
        !t.shared_buffers@.contains_key(cx.resolved(t, v)->Ok_0.key),
        mutable ==> !t.immutable_buffers@.contains(cx.resolved(t, v)->Ok_0.key),
        0 <= k < cx.borrows@.len(),
        conflicts(cx.borrows@[k], cx.resolved(t, v)->Ok_0, mutable),
        forall|j: int|
            0 <= j < k ==> !conflicts(#[trigger] cx.borrows@[j], cx.resolved(t, v)->Ok_0, mutable),
    ensures
        cx.view_outcome(t, v, mutable) == ViewOutcome::Refused(
            "overlaps "@ + slot_text(cx.desc, cx.borrows@[k].slot)
                + " in the same buffer; a mutable byte slice cannot alias"@,
        ),
{
    let r = cx.resolved(t, v)->Ok_0;
    lemma_the_first_conflict_is_reported(cx.borrows@, r, mutable, k);
    let f = first_conflict(cx.borrows@, r, mutable) as int;
    if f < k {
        assert(!conflicts(cx.borrows@[f], r, mutable));
    }
}

/// Shared memory is read where the range lies within it, and is empty otherwise.
pub proof fn lemma_shared_memory_is_copied(t: ViewTables, r: ByteRange, i: int)
    requires
        t.shared_mem@.contains_key(t.shared_buffers@[r.key]),
    ensures
        ({
            let mem = t.shared_mem@[t.shared_buffers@[r.key]]@;
            if r.off + r.len <= mem.len() {
                &&& shared_bytes(t, r).len() == r.len
                &&& 0 <= i < r.len ==> shared_bytes(t, r)[i] == mem[r.off + i]
            } else {
                shared_bytes(t, r).len() == 0
            }
        }),
{
}

/// What is wrong with a value that covers no bytes.
pub proof fn lemma_view_complaints()
    ensures
        view_complaint(ViewErr::NotView)
            == "must be an ArrayBuffer, a TypedArray (Uint8Array, Buffer, ...) or a DataView"@,
        view_complaint(ViewErr::Detached) == "is backed by a detached ArrayBuffer"@,
{
}

/// A buffer that is lent out is still found, among those that are lent.
pub proof fn lemma_lent_buffers_are_found(cx: ArgCx, t: ViewTables, v: Value)
    ensures
        t.covered(t.array_buffers@, v) is Ok ==> cx.resolved(t, v) == t.covered(
            t.array_buffers@,
            v,
        ),
        cx.lent_keys@.len() == 0 ==> cx.resolved(t, v) == t.covered(t.array_buffers@, v),
        t.covered(t.array_buffers@, v) == Err::<ByteRange, ViewErr>(ViewErr::NotView)
            ==> cx.resolved(t, v) == Err::<ByteRange, ViewErr>(ViewErr::NotView),
        cx.lent_keys@.len() > 0 && t.covered(t.array_buffers@, v) == Err::<ByteRange, ViewErr>(
            ViewErr::Detached,
        ) ==> cx.resolved(t, v) == t.covered(with_lent(t.array_buffers@, cx.lent@), v),
{
}

/// A typed array of a fixed length covers its elements while they lie within the buffer; one
/// that tracks its buffer covers as many whole elements as fit behind its offset.
pub proof fn lemma_typed_arrays_cover_their_elements(t: ViewTables, bufs: Buffers, p: u64, n: nat)
    requires
        t.wf(),
        t.typed_arrays@.contains_key(p),
        t.buffer_len(bufs, t.typed_arrays@[p].buffer) == Some(n),
        n <= usize::MAX,
    ensures
        ({
            let a = t.typed_arrays@[p];
            let c = t.covered(bufs, Value::Obj(p));
            &&& c is Ok ==> c->Ok_0.key == a.buffer && c->Ok_0.off == a.offset
            &&& c is Err ==> c->Err_0 is Detached
            &&& !a.track ==> {
                &&& c is Ok <==> a.offset + a.len * a.elsize <= n
                &&& c is Ok ==> c->Ok_0.len == a.len * a.elsize
            }
            &&& a.track ==> {
                &&& c is Ok <==> a.offset <= n
                &&& c is Ok ==> {
                    &&& c->Ok_0.len % a.elsize == 0
                    &&& a.offset + c->Ok_0.len <= n
                    &&& a.offset + c->Ok_0.len + a.elsize > n
                }
            }
        }),
{
    let a = t.typed_arrays@[p];
    let size = a.elsize as int;
    if a.track && a.offset <= n {
        let rest = n - a.offset;
        lemma_fundamental_div_mod(rest, size);
        let k = rest / size;
        assert(0 <= rest % size < size) by {
            vstd::arithmetic::div_mod::lemma_mod_bound(rest, size);
        }
        assert(k * size == size * k) by (nonlinear_arith);
        assert(k >= 0) by (nonlinear_arith)
            requires
                rest >= 0,
                size > 0,
                k == rest / size,
        ;
        assert(k * size >= 0) by (nonlinear_arith)
            requires
                k >= 0,
                size > 0,
        ;
        vstd::arithmetic::div_mod::lemma_mod_multiples_basic(k, size);
        assert((k as nat) * a.elsize == k * size);
    } else if !a.track && a.offset + a.len * a.elsize <= n {
        assert(a.len * a.elsize >= 0) by (nonlinear_arith);
    }
}

/// A typed array whose buffer is gone covers nothing.
pub proof fn lemma_detached_typed_arrays(t: ViewTables, bufs: Buffers, p: u64)
    requires
        t.typed_arrays@.contains_key(p),
        t.buffer_len(bufs, t.typed_arrays@[p].buffer) is None,
    ensures
        t.covered(bufs, Value::Obj(p)) == Err::<ByteRange, ViewErr>(ViewErr::Detached),
{
}

/// A buffer's length is that of its own bytes, or of the shared memory behind it.
pub proof fn lemma_buffer_lengths(t: ViewTables, bufs: Buffers, key: u64)
    ensures
        bufs.contains_key(key) ==> t.buffer_len(bufs, key) == Some(bufs[key]@.len()),
        !bufs.contains_key(key) && !t.shared_buffers@.contains_key(key) ==> t.buffer_len(bufs, key)
            is None,
        !bufs.contains_key(key) && t.shared_buffers@.contains_key(key)
            && t.shared_mem@.contains_key(t.shared_buffers@[key]) ==> t.buffer_len(bufs, key)
            == Some(t.shared_mem@[t.shared_buffers@[key]]@.len()),
        !bufs.contains_key(key) && t.shared_buffers@.contains_key(key)
            && !t.shared_mem@.contains_key(t.shared_buffers@[key]) ==> t.buffer_len(bufs, key)
            is None,
{
}

/// A data view covers its range while it lies within the buffer, or everything behind its
/// offset where it tracks the buffer. A buffer covers all of itself.
pub proof fn lemma_data_views_and_buffers_cover_ranges(t: ViewTables, bufs: Buffers, p: u64)
    requires
        !t.typed_arrays@.contains_key(p),
    ensures
        t.data_views@.contains_key(p) ==> {
            let d = t.data_views@[p];
            let c = t.covered(bufs, Value::Obj(p));
            &&& !bufs.contains_key(d.buffer) ==> c == Err::<ByteRange, ViewErr>(ViewErr::Detached)
            &&& bufs.contains_key(d.buffer) && bufs[d.buffer]@.len() <= usize::MAX ==> {
                let n = bufs[d.buffer]@.len();
                &&& c is Ok <==> d.offset + (if d.track {
                    0
                } else {
                    d.len as int
                }) <= n
                &&& c is Err ==> c->Err_0 is Detached
                &&& c matches Ok(r) ==> r.key == d.buffer && r.off == d.offset && (if d.track {
                    r.off + r.len == n
                } else {
                    r.len == d.len
                })
            }
        },
        !t.data_views@.contains_key(p) && bufs.contains_key(p) && bufs[p]@.len() <= usize::MAX ==> (
        t.covered(bufs, Value::Obj(p)) matches Ok(r) && r.key == p && r.off == 0 && r.len
            == bufs[p]@.len()),
        !t.data_views@.contains_key(p) && !bufs.contains_key(p) ==> t.covered(bufs, Value::Obj(p))
            == Err::<ByteRange, ViewErr>(
            if t.buffer_objects@.contains(p) {
                ViewErr::Detached
            } else {
                ViewErr::NotView
            },
        ),
{
}

/// Nothing but an object covers bytes.
pub proof fn lemma_only_objects_cover_bytes(t: ViewTables, bufs: Buffers, v: Value)
    requires
        !(v is Obj),
    ensures
        t.covered(bufs, v) == Err::<ByteRange, ViewErr>(ViewErr::NotView),
{
}

// ---- instances --------------------------------------------------------------------------------

/// Borrowing an instance gives its handle and a guard to put back, when the value is one and is
/// free. One that is in use is refused, and so is what is no instance; neither changes anything.
pub proof fn lemma_instances_are_borrowed(
    cx: ArgCx,
    d: ClassDesc,
    v: Value,
    at: Slot,
    exclusive: bool,
    i: Interp,
    k: Interp,
    guards: Seq<Guard>,
    held: Seq<Guard>,
    r: Result<u64, OpError>,
)
    requires
        borrows_instance(cx, d, v, at, exclusive, i, k, guards, held, r),
    ensures
        r matches Ok(h) ==> {
            &&& i.spec_instance(d.type_id, v) == Some(h)
            &&& free(i.hosts.entries@[v->Obj_0], exclusive)
            &&& held.len() == guards.len() + 1
            &&& held.last().obj == v->Obj_0
            &&& held.last().exclusive == exclusive
            &&& held.drop_last() == guards
            &&& exclusive ==> k.hosts.entries@[v->Obj_0].exclusive
        },
        r is Err ==> held == guards && k.hosts.entries@ == i.hosts.entries@,
        i.spec_instance(d.type_id, v) is None ==> r is Err,
        i.spec_instance(d.type_id, v) is Some && free(i.hosts.entries@[v->Obj_0], exclusive) ==> r
            is Ok,
        i.spec_instance(d.type_id, v) is Some && !free(i.hosts.entries@[v->Obj_0], exclusive) ==> r
            is Err,
        k.heap == i.heap && k.classes == i.classes,
{
    if r is Ok {
        assert(guards.push(held.last()).drop_last() =~= guards);
    }
}

/// A new promise is a new object of the promise prototype, with a slot that is pending; no other
/// object or promise changes.
pub proof fn lemma_promises_are_made(before: Interp, after: Interp, p: Value, q: u64)
    requires
        made_promise(before, after, p),
    ensures
        p == Value::Obj(before.heap.objects@.len() as u64),
        after.promises.slots@.contains_key(p->Obj_0),
        after.promises.slots@[p->Obj_0].status is Pending,
        after.heap.at(p->Obj_0).proto == Some(before.promise_proto),
        after.heap.at(p->Obj_0).call is Promise,
        q != p->Obj_0 ==> (after.promises.slots@.contains_key(q)
            <==> before.promises.slots@.contains_key(q)),
        q != p->Obj_0 && before.promises.slots@.contains_key(q) ==> after.promises.slots@[q]
            == before.promises.slots@[q],
        after.promises.microtasks == before.promises.microtasks,
        after.promises.unhandled == before.promises.unhandled,
{
}

/// A buffer or a view is an ordinary extensible object without properties, which no fast path
/// takes for a plain one.
pub proof fn lemma_side_objects(o: Object, proto: Option<u64>)
    requires
        side_object(o, proto),
    ensures
        o.proto == proto,
        o.exotic is Ordinary,
        o.extensible,
        !o.ic_plain,
        o.props@.len() == 0,
        o.elems@.len() == 0,
{
}

/// A class that is set up has its prototype, its constructor, which is one, and a function for
/// each member, in order.
pub proof fn lemma_classes_are_set_up(
    objects: Seq<Object>,
    n: int,
    d: ClassDesc,
    object_proto: u64,
    function_proto: u64,
    i: int,
)
    requires
        is_class_at(objects, n, d, object_proto, function_proto),
        0 <= n,
    ensures
        objects.len() == n + 2 + d.members@.len(),
        objects[n].proto == Some(object_proto),
        objects[n + 1].proto == Some(function_proto),
        objects[n + 1].is_constructor,
        objects[n + 1].call == Callable::Native(ctor_entry(d).0),
        0 <= i < d.members@.len() ==> {
            let f = objects[n + 2 + i];
            &&& f.proto == Some(function_proto)
            &&& f.call == Callable::Native(d.members@[i].op.native)
            &&& f.props@.len() == 2
            &&& f.props@[1].0 == "name"@
            &&& (f.props@[1].1.kind matches PropKind::Data(Value::Str(t)) && t@ == fn_name(
                d.members@[i],
            ))
            &&& f.props@[0].0 == "length"@
            &&& (f.props@[0].1.kind matches PropKind::Data(Value::Num(x))
                && crate::num::integer_value(x) == Some(fn_length(d.members@[i])))
        },
{
    if 0 <= i < d.members@.len() {
        assert(crate::embed_convert::class::is_member_fn(
            objects[n + 2 + i],
            function_proto,
            d.members@[i],
        ));
    }
}

/// Views are free of aliases when no two of them conflict; a buffer is borrowed when one of them
/// is of it.
pub proof fn lemma_views_are_free_of_aliases(bs: Seq<ByteBorrow>, i: int, j: int, key: u64)
    ensures
        alias_free(bs) && 0 <= i < j < bs.len() ==> !(overlaps(bs[j].range, bs[i].range) && (
        bs[i].mutable || bs[j].mutable)),
        alias_free(Seq::empty()),
        0 <= i < bs.len() ==> borrowed_bytes(bs, bs[i].range.key),
        bs.len() == 0 ==> !borrowed_bytes(bs, key),
        (forall|k: int| 0 <= k < bs.len() ==> (#[trigger] bs[k]).range.key != key)
            ==> !borrowed_bytes(bs, key),
{
    if alias_free(bs) && 0 <= i < j < bs.len() {
        assert(!conflicts(bs[i], bs[j].range, bs[j].mutable));
    }
}

// ---- instances --------------------------------------------------------------------------------

/// A new instance is an ordinary object of its class that stands last and holds the value given;
/// the objects, classes and ops that were there stay as they are.
pub proof fn lemma_new_instances_leave_the_rest(
    after: Interp,
    mid: Interp,
    before: Interp,
    d: ClassDesc,
    handle: u64,
    alive: Set<u64>,
    i: int,
)
    requires
        after.instance_made(mid, before, d, handle, alive),
        0 <= i < mid.heap.objects@.len(),
        mid.heap.objects@.len() <= u64::MAX,
    ensures
        after.heap.objects@[i] == mid.heap.objects@[i],
        after.heap.objects@.len() == mid.heap.objects@.len() + 1,
        after.heap.objects@.last().proto == Some(mid.classes@[d.type_id].proto),
        after.heap.objects@.last().props@.len() == 0,
        after.classes == mid.classes,
        after.ops == mid.ops,
        after.promises == mid.promises,
        after.global == mid.global,
        after.object_proto == mid.object_proto,
        after.function_proto == mid.function_proto,
        after.hosts.spec_data(mid.heap.objects@.len() as u64, d.type_id) == Some(handle),
{
    assert(after.heap.objects@.drop_last()[i] == after.heap.objects@[i]);
}

} // verus!
