//! The conversion context of one call, and its borrowed byte views.
//!
//! A byte view points straight into its buffer. Before anything that may run code, every borrowed
//! buffer is moved out of the table (lent): its bytes stay where they are, and code that runs
//! meanwhile sees the buffer as detached. The call puts it back when it returns. A mutable view
//! that overlaps another view of the same buffer is refused.

use crate::embed_convert::desc::{OpDesc, Slot, OP_COERCE, OP_CTX};
use crate::embed_convert::op_error::{new_error, OpError};
use crate::embed_convert::views::{
    lemma_covered_is_in_range, resolve_view, with_lent, Buffers, ByteRange, ViewErr, ViewTables,
};
use crate::value::Value;
use std::collections::HashMap;
use vstd::prelude::*;

verus! {

broadcast use vstd::std_specs::hash::group_hash_axioms;

/// A borrowed byte view.
#[derive(Clone, Copy, Debug, PartialEq, Eq, Structural)]
pub struct ByteBorrow {
    pub range: ByteRange,
    pub mutable: bool,
    pub slot: Slot,
}

/// What a byte argument is given.
#[derive(Clone, Copy, Debug, PartialEq, Eq, Structural)]
pub enum ByteView {
    /// The bytes themselves.
    Borrowed(ByteRange),
    /// A copy of shared memory, by its index.
    Copied(usize),
}

/// The conversion context of a call. It owns whatever a borrowed argument needs until the op
/// returns.
pub struct ArgCx {
    pub this: Value,
    pub args: Vec<Value>,
    pub desc: OpDesc,
    pub flags: u32,
    /// The engine's context is handed out.
    pub in_ctx: bool,
    pub borrows: Vec<ByteBorrow>,
    pub lent: HashMap<u64, Vec<u8>>,
    /// The keys of `lent`.
    pub lent_keys: Vec<u64>,
    pub copies: Vec<Vec<u8>>,
}

/// Whether two ranges of one buffer share a byte.
pub open spec fn overlaps(a: ByteRange, b: ByteRange) -> bool {
    a.key == b.key && a.len != 0 && b.len != 0 && a.off < b.off + b.len && b.off < a.off + a.len
}

/// Whether a view may not stand beside a borrow.
pub open spec fn conflicts(b: ByteBorrow, range: ByteRange, mutable: bool) -> bool {
    overlaps(range, b.range) && (mutable || b.mutable)
}

/// The index of the first borrow that a view conflicts with, or the length.
pub open spec fn first_conflict(bs: Seq<ByteBorrow>, range: ByteRange, mutable: bool) -> nat
    decreases bs.len(),
{
    if bs.len() == 0 || conflicts(bs[0], range, mutable) {
        0
    } else {
        1 + first_conflict(bs.drop_first(), range, mutable)
    }
}

/// No mutable borrow overlaps another borrow.
pub open spec fn alias_free(bs: Seq<ByteBorrow>) -> bool {
    forall|i: int, j: int|
        0 <= i < j < bs.len() ==> !conflicts(#[trigger] bs[i], (#[trigger] bs[j]).range, bs[j].mutable)
}

/// Whether a buffer is borrowed.
pub open spec fn borrowed(bs: Seq<ByteBorrow>, key: u64) -> bool {
    exists|i: int| 0 <= i < bs.len() && (#[trigger] bs[i]).range.key == key
}

/// What asking for the bytes of a value comes to.
pub enum ViewOutcome {
    /// A `TypeError` that says this of the value.
    Refused(Seq<char>),
    /// A copy of shared memory.
    Copied(Seq<u8>),
    Borrowed(ByteRange),
}

/// What a view error says.
pub open spec fn view_complaint(e: ViewErr) -> Seq<char> {
    match e {
        ViewErr::NotView =>
            "must be an ArrayBuffer, a TypedArray (Uint8Array, Buffer, ...) or a DataView"@,
        ViewErr::Detached => "is backed by a detached ArrayBuffer"@,
    }
}

/// The bytes of shared memory that a range covers; none when it is gone or too short.
pub open spec fn shared_bytes(t: ViewTables, r: ByteRange) -> Seq<u8> {
    let id = t.shared_buffers@[r.key];
    if t.shared_mem@.contains_key(id) && r.off + r.len <= t.shared_mem@[id]@.len() {
        t.shared_mem@[id]@.subrange(r.off as int, r.off + r.len)
    } else {
        Seq::empty()
    }
}

proof fn lemma_first_conflict_is(bs: Seq<ByteBorrow>, range: ByteRange, mutable: bool, k: int)
    requires
        0 <= k <= bs.len(),
        k < bs.len() ==> conflicts(bs[k], range, mutable),
        forall|i: int| 0 <= i < k ==> !conflicts(#[trigger] bs[i], range, mutable),
    ensures
        first_conflict(bs, range, mutable) == k,
    decreases bs.len(),
{
    if k > 0 {
        assert(!conflicts(bs[0], range, mutable));
        let d = bs.drop_first();
        assert forall|i: int| 0 <= i < k - 1 implies !conflicts(#[trigger] d[i], range, mutable) by {
            assert(d[i] == bs[i + 1]);
        }
        lemma_first_conflict_is(d, range, mutable, k - 1);
    }
}

impl ArgCx {
    /// A context for one call.
    pub fn new(this: Value, args: Vec<Value>, desc: OpDesc, flags: u32) -> (r: ArgCx)
        ensures
            r.this == this,
            r.args == args,
            r.desc == desc,
            r.flags == flags,
            !r.in_ctx,
            r.borrows@.len() == 0,
            r.lent@ == Map::<u64, Vec<u8>>::empty(),
            r.copies@.len() == 0,
            forall|t: ViewTables| t.wf() ==> #[trigger] r.wf(t),
    {
        let r = ArgCx {
            this,
            args,
            desc,
            flags,
            in_ctx: false,
            borrows: Vec::new(),
            lent: HashMap::new(),
            lent_keys: Vec::new(),
            copies: Vec::new(),
        };
        r
    }

    /// The buffers of the table and the lent ones.
    pub open spec fn all(self, t: ViewTables) -> Buffers {
        with_lent(t.array_buffers@, self.lent@)
    }

    /// Every borrow lies inside its buffer and none aliases a mutable one; the lent buffers are
    /// the listed ones, and not in the table.
    pub open spec fn wf(self, t: ViewTables) -> bool {
        &&& t.wf()
        &&& alias_free(self.borrows@)
        &&& forall|i: int|
            0 <= i < self.borrows@.len() ==> {
                let r = (#[trigger] self.borrows@[i]).range;
                self.all(t).contains_key(r.key) && r.off + r.len <= self.all(t)[r.key]@.len()
            }
        &&& forall|k: u64| #[trigger] self.lent@.contains_key(k) <==> self.lent_keys@.contains(k)
        &&& forall|k: u64| #[trigger]
            self.lent@.contains_key(k) ==> !t.array_buffers@.contains_key(k)
        &&& self.lent_keys@.no_duplicates()
    }

    /// The table and the lent buffers hold together what they held before.
    pub open spec fn same_buffers(self, t: ViewTables, before: ArgCx, u: ViewTables) -> bool {
        &&& self.all(t) == before.all(u)
        &&& t == ViewTables { array_buffers: t.array_buffers, ..u }
    }

    /// The lent buffers are those lent before and the borrowed ones.
    pub open spec fn lends_borrowed(self, before: ArgCx) -> bool {
        forall|k: u64| #[trigger]
            self.lent@.contains_key(k) <==> before.lent@.contains_key(k) || borrowed(
                before.borrows@,
                k,
            )
    }

    /// Whether the op converts with the language's coercions.
    pub fn coerce(&self) -> (r: bool)
        ensures
            r == (self.flags & OP_COERCE != 0),
    {
        self.flags & OP_COERCE != 0
    }

    /// The op's descriptor.
    pub fn desc(&self) -> (r: &OpDesc)
        ensures
            *r == self.desc,
    {
        &self.desc
    }

    /// The arguments, as passed.
    pub fn args(&self) -> (r: &Vec<Value>)
        ensures
            *r == self.args,
    {
        &self.args
    }

    /// The receiver, as passed.
    pub fn this(&self) -> (r: &Value)
        ensures
            *r == self.this,
    {
        &self.this
    }

    /// The op's name, with its class.
    pub fn label(&self) -> (r: String)
        ensures
            r@ == crate::embed_convert::desc::label_text(self.desc),
    {
        self.desc.label()
    }

    /// A `TypeError` about a value: `<op>: <slot> <what>`.
    pub fn type_error(&self, at: Slot, what: &str) -> (r: OpError)
        ensures
            r@ == new_error("TypeError"@, self.desc.complaint(at, what@)),
    {
        let msg = self.desc.complain(at, what);
        OpError::type_error(msg.as_str())
    }

    /// A `RangeError` about a value: `<op>: <slot> <what>`.
    pub fn range_error(&self, at: Slot, what: &str) -> (r: OpError)
        ensures
            r@ == new_error("RangeError"@, self.desc.complaint(at, what@)),
    {
        let msg = self.desc.complain(at, what);
        OpError::range_error(msg.as_str())
    }

    fn view_error(&self, e: ViewErr, at: Slot) -> (r: OpError)
        ensures
            r@ == new_error("TypeError"@, self.desc.complaint(at, view_complaint(e))),
    {
        match e {
            ViewErr::NotView => self.type_error(
                at,
                "must be an ArrayBuffer, a TypedArray (Uint8Array, Buffer, ...) or a DataView",
            ),
            ViewErr::Detached => self.type_error(at, "is backed by a detached ArrayBuffer"),
        }
    }

    /// The `new.target` of a class constructor's call; an error when it is called without `new`.
    pub fn new_target(&self, constructing: bool, new_target: &Value) -> (r: Result<Value, OpError>)
        ensures
            match r {
                Ok(v) => constructing && v == *new_target,
                Err(e) => !constructing && e@ == new_error(
                    "TypeError"@,
                    "Class constructor "@ + self.desc.owner@ + " cannot be invoked without 'new'"@,
                ),
            },
    {
        if constructing {
            return Ok(new_target.duplicate());
        }
        let mut msg = String::new();
        msg.append("Class constructor ");
        msg.append(self.desc.owner.as_str());
        msg.append(" cannot be invoked without 'new'");
        assert(msg@ =~= "Class constructor "@ + self.desc.owner@
            + " cannot be invoked without 'new'"@);
        Err(OpError::type_error(msg.as_str()))
    }

    /// The range that a value covers, seen from this call: a view that is detached by the call's
    /// own lending still has its bytes.
    pub open spec fn resolved(self, t: ViewTables, v: Value) -> Result<ByteRange, ViewErr> {
        let direct = t.covered(t.array_buffers@, v);
        if direct == Err::<ByteRange, ViewErr>(ViewErr::Detached) && self.lent_keys@.len() > 0 {
            t.covered(self.all(t), v)
        } else {
            direct
        }
    }

    fn resolve(&self, t: &ViewTables, v: &Value) -> (r: Result<ByteRange, ViewErr>)
        requires
            self.wf(*t),
        ensures
            r == self.resolved(*t, *v),
    {
        let none: HashMap<u64, Vec<u8>> = HashMap::new();
        assert(with_lent(t.array_buffers@, none@) =~= t.array_buffers@);
        let direct = resolve_view(t, &none, v);
        match direct {
            Err(ViewErr::Detached) if self.lent_keys.len() > 0 => resolve_view(t, &self.lent, v),
            _ => direct,
        }
    }

    /// Moves a buffer out of the table, once. False when there is none.
    fn lend(&mut self, t: &mut ViewTables, key: u64) -> (r: bool)
        requires
            old(self).wf(*old(t)),
        ensures
            r == old(self).all(*old(t)).contains_key(key),
            final(self).wf(*final(t)),
            final(self).same_buffers(*final(t), *old(self), *old(t)),
            r ==> final(self).lent@.contains_key(key),
            forall|k: u64| #[trigger]
                old(self).lent@.contains_key(k) ==> final(self).lent@.contains_key(k),
            forall|k: u64| #[trigger]
                final(self).lent@.contains_key(k) ==> old(self).lent@.contains_key(k) || k == key,
            !r ==> final(self).lent@ == old(self).lent@,
            *final(self) == (ArgCx {
                lent: final(self).lent,
                lent_keys: final(self).lent_keys,
                ..*old(self)
            }),
    {
        if self.lent.contains_key(&key) {
            assert(self.all(*t) =~= old(self).all(*old(t)));
            return true;
        }
        let ghost all0 = self.all(*t);
        let ghost keys0 = self.lent_keys@;
        match t.array_buffers.remove(&key) {
            Some(buf) => {
                assert(!keys0.contains(key));
                self.lent.insert(key, buf);
                self.lent_keys.push(key);
                proof {
                    assert(self.all(*t) =~= all0);
                    assert forall|k: u64| #[trigger]
                        self.lent@.contains_key(k) <==> self.lent_keys@.contains(k) by {
                        if keys0.contains(k) {
                            let i = choose|i: int| 0 <= i < keys0.len() && keys0[i] == k;
                            assert(self.lent_keys@[i] == k);
                        }
                        if k == key {
                            assert(self.lent_keys@[keys0.len() as int] == k);
                        }
                        if self.lent_keys@.contains(k) && k != key {
                            let i = choose|i: int|
                                0 <= i < self.lent_keys@.len() && self.lent_keys@[i] == k;
                            assert(keys0[i] == k);
                            assert(keys0.contains(k));
                        }
                    }
                    assert forall|i: int, j: int|
                        0 <= i < self.lent_keys@.len() && 0 <= j < self.lent_keys@.len() && i
                            != j implies self.lent_keys@[i] != self.lent_keys@[j] by {
                        if i == keys0.len() {
                            assert(keys0.contains(keys0[j]));
                        } else if j == keys0.len() {
                            assert(keys0.contains(keys0[i]));
                        }
                    }
                }
                true
            },
            None => {
                assert(t.array_buffers@ =~= old(t).array_buffers@);
                assert(self.all(*t) =~= all0);
                false
            },
        }
    }

    /// Lends every buffer borrowed so far: called before anything that may run code.
    pub fn before_js(&mut self, t: &mut ViewTables)
        requires
            old(self).wf(*old(t)),
        ensures
            final(self).wf(*final(t)),
            final(self).same_buffers(*final(t), *old(self), *old(t)),
            final(self).lends_borrowed(*old(self)),
            *final(self) == (ArgCx {
                lent: final(self).lent,
                lent_keys: final(self).lent_keys,
                ..*old(self)
            }),
    {
        let mut i: usize = 0;
        let ghost before = *self;
        let ghost t0 = *t;
        while i < self.borrows.len()
            invariant
                i <= self.borrows@.len(),
                self.wf(*t),
                self.same_buffers(*t, before, t0),
                self.borrows@ == before.borrows@,
                *self == (ArgCx { lent: self.lent, lent_keys: self.lent_keys, ..before }),
                forall|j: int|
                    0 <= j < i ==> self.lent@.contains_key(
                        (#[trigger] before.borrows@[j]).range.key,
                    ),
                forall|k: u64| #[trigger]
                    before.lent@.contains_key(k) ==> self.lent@.contains_key(k),
                forall|k: u64| #[trigger]
                    self.lent@.contains_key(k) ==> before.lent@.contains_key(k) || borrowed(
                        before.borrows@,
                        k,
                    ),
            decreases self.borrows@.len() - i,
        {
            let key: u64 = self.borrows[i].range.key;
            assert(before.borrows@[i as int].range.key == key);
            assert(borrowed(before.borrows@, key));
            let _ = self.lend(t, key);
            i = i + 1;
        }
    }

    /// Puts every lent buffer back: the end of the call. A buffer that the table holds by then
    /// stays.
    pub fn finish(self, t: &mut ViewTables)
        requires
            forall|k: u64| #[trigger] self.lent@.contains_key(k) <==> self.lent_keys@.contains(k),
            self.lent_keys@.no_duplicates(),
        ensures
            final(t).array_buffers@ == self.lent@.union_prefer_right(old(t).array_buffers@),
            *final(t) == (ViewTables { array_buffers: final(t).array_buffers, ..*old(t) }),
    {
        let mut lent = self.lent;
        let lent_keys = self.lent_keys;
        let ghost lent0 = lent@;
        let ghost keys = lent_keys@;
        let mut i: usize = 0;
        while i < lent_keys.len()
            invariant
                i <= lent_keys@.len(),
                lent_keys@ == keys,
                keys.no_duplicates(),
                forall|k: u64| #[trigger] lent0.contains_key(k) <==> keys.contains(k),
                lent@ == lent0.remove_keys(keys.take(i as int).to_set()),
                t.array_buffers@ == lent0.restrict(
                    keys.take(i as int).to_set(),
                ).union_prefer_right(old(t).array_buffers@),
                *t == (ViewTables { array_buffers: t.array_buffers, ..*old(t) }),
            decreases lent_keys@.len() - i,
        {
            let key: u64 = lent_keys[i];
            let ghost done = keys.take(i as int).to_set();
            let ghost next = keys.take(i + 1).to_set();
            proof {
                assert(keys.contains(key));
                assert(!done.contains(key)) by {
                    if done.contains(key) {
                        let j = choose|j: int|
                            0 <= j < keys.take(i as int).len() && keys.take(i as int)[j] == key;
                        assert(keys[j] == keys[i as int]);
                    }
                }
                assert(keys.take(i + 1) =~= keys.take(i as int).push(key));
                assert(next =~= done.insert(key)) by {
                    assert forall|x: u64| next.contains(x) <==> done.insert(key).contains(x) by {
                        let a = keys.take(i as int);
                        let b = keys.take(i + 1);
                        if next.contains(x) {
                            let j = choose|j: int| 0 <= j < b.len() && b[j] == x;
                            if j < i {
                                assert(a[j] == x);
                            }
                        }
                        if done.contains(x) {
                            let j = choose|j: int| 0 <= j < a.len() && a[j] == x;
                            assert(b[j] == x);
                        }
                        assert(b[i as int] == key);
                    }
                }
            }
            match lent.remove(&key) {
                Some(buf) => {
                    if !t.array_buffers.contains_key(&key) {
                        t.array_buffers.insert(key, buf);
                    }
                },
                None => {},
            }
            assert(lent@ =~= lent0.remove_keys(next));
            assert(t.array_buffers@ =~= lent0.restrict(next).union_prefer_right(
                old(t).array_buffers@,
            ));
            i = i + 1;
        }
        proof {
            assert(keys.take(i as int) =~= keys);
            assert(lent0.restrict(keys.to_set()) =~= lent0) by {
                assert forall|k: u64| lent0.contains_key(k) implies keys.to_set().contains(k) by {}
            }
        }
    }

    /// Hands the engine's context out, until it is taken back: the borrowed buffers are lent first.
    pub fn with_ctx(&mut self, t: &mut ViewTables)
        requires
            old(self).wf(*old(t)),
            !old(self).in_ctx,
        ensures
            final(self).in_ctx,
            final(self).wf(*final(t)),
            final(self).same_buffers(*final(t), *old(self), *old(t)),
            final(self).lends_borrowed(*old(self)),
            *final(self) == (ArgCx {
                in_ctx: true,
                lent: final(self).lent,
                lent_keys: final(self).lent_keys,
                ..*old(self)
            }),
    {
        self.before_js(t);
        self.in_ctx = true;
    }

    /// Hands the host's state of a type out, until the context is taken back; `installed` says
    /// whether there is one.
    pub fn with_state(&mut self, installed: bool, kind: &str) -> (r: Result<(), OpError>)
        requires
            !old(self).in_ctx,
        ensures
            *final(self) == (ArgCx { in_ctx: installed, ..*old(self) }),
            match r {
                Ok(_) => installed,
                Err(e) => !installed && e@ == new_error(
                    "Error"@,
                    crate::embed_convert::desc::label_text(old(self).desc) + ": host state `"@ + kind@
                        + "` is not installed (OpState::put)"@,
                ),
            },
    {
        if !installed {
            let mut out = self.label();
            out.append(": host state `");
            out.append(kind);
            out.append("` is not installed (OpState::put)");
            return Err(OpError::error(out.as_str()));
        }
        self.in_ctx = true;
        Ok(())
    }

    /// Prepares the conversion of the call's result: the borrowed buffers are lent first where
    /// it may run code.
    pub fn ret(&mut self, t: &mut ViewTables, may_run_js: bool)
        requires
            old(self).wf(*old(t)),
            !old(self).in_ctx,
        ensures
            final(self).wf(*final(t)),
            final(self).same_buffers(*final(t), *old(self), *old(t)),
            *final(self) == (ArgCx {
                lent: final(self).lent,
                lent_keys: final(self).lent_keys,
                ..*old(self)
            }),
            if may_run_js {
                final(self).lends_borrowed(*old(self))
            } else {
                *final(self) == *old(self) && *final(t) == *old(t)
            },
    {
        if may_run_js {
            self.before_js(t);
        }
    }

    /// Takes the engine's context back.
    pub fn leave_ctx(&mut self)
        requires
            old(self).in_ctx,
        ensures
            *final(self) == (ArgCx { in_ctx: false, ..*old(self) }),
    {
        self.in_ctx = false;
    }

    /// What asking for the bytes of `v` comes to.
    pub open spec fn view_outcome(self, t: ViewTables, v: Value, mutable: bool) -> ViewOutcome {
        match self.resolved(t, v) {
            Err(e) => ViewOutcome::Refused(view_complaint(e)),
            Ok(r) => if t.shared_buffers@.contains_key(r.key) {
                if mutable {
                    ViewOutcome::Refused("must not be a SharedArrayBuffer view (&mut [u8])"@)
                } else {
                    ViewOutcome::Copied(shared_bytes(t, r))
                }
            } else if mutable && t.immutable_buffers@.contains(r.key) {
                ViewOutcome::Refused("is backed by an immutable ArrayBuffer"@)
            } else {
                let k = first_conflict(self.borrows@, r, mutable) as int;
                if k < self.borrows@.len() {
                    ViewOutcome::Refused(
                        "overlaps "@ + crate::embed_convert::desc::slot_text(
                            self.desc,
                            self.borrows@[k].slot,
                        ) + " in the same buffer; a mutable byte slice cannot alias"@,
                    )
                } else {
                    ViewOutcome::Borrowed(r)
                }
            },
        }
    }

    /// Borrows the bytes that `v` covers. Shared memory is copied, or refused for a mutable view;
    /// an immutable buffer is refused for a mutable view; and so is a view that overlaps another
    /// one when either is mutable. The buffer is lent at once when the op takes the engine's
    /// context, or when another one is lent already.
    pub fn view_bytes(&mut self, t: &mut ViewTables, v: &Value, at: Slot, mutable: bool) -> (r:
        Result<ByteView, OpError>)
        requires
            old(self).wf(*old(t)),
            !old(self).in_ctx,
        ensures
            final(self).wf(*final(t)),
            final(self).same_buffers(*final(t), *old(self), *old(t)),
            match old(self).view_outcome(*old(t), *v, mutable) {
                ViewOutcome::Refused(what) => {
                    &&& r matches Err(e)
                    &&& e@ == new_error("TypeError"@, old(self).desc.complaint(at, what))
                    &&& *final(self) == *old(self)
                    &&& *final(t) == *old(t)
                },
                ViewOutcome::Copied(bytes) => {
                    &&& r == Ok::<ByteView, OpError>(ByteView::Copied(old(self).copies@.len() as usize))
                    &&& final(self).copies@.len() == old(self).copies@.len() + 1
                    &&& final(self).copies@.last()@ == bytes
                    &&& final(self).copies@.drop_last() == old(self).copies@
                    &&& *final(self) == ArgCx { copies: final(self).copies, ..*old(self) }
                    &&& *final(t) == *old(t)
                },
                ViewOutcome::Borrowed(range) => {
                    let now = old(self).flags & OP_CTX != 0 || old(self).lent_keys@.len() > 0;
                    &&& r == Ok::<ByteView, OpError>(ByteView::Borrowed(range))
                    &&& final(self).borrows@ == old(self).borrows@.push(
                        ByteBorrow { range, mutable, slot: at },
                    )
                    &&& *final(self) == ArgCx {
                        borrows: final(self).borrows,
                        lent: final(self).lent,
                        lent_keys: final(self).lent_keys,
                        ..*old(self)
                    }
                    &&& forall|k: u64| #[trigger]
                        final(self).lent@.contains_key(k) <==> old(self).lent@.contains_key(k) || (
                        k == range.key && now && !borrowed(old(self).borrows@, k))
                },
            },
    {
        let range: ByteRange = match self.resolve(t, v) {
            Ok(r) => r,
            Err(e) => {
                return Err(self.view_error(e, at));
            },
        };
        let key: u64 = range.key;
        if let Some(id) = t.shared_buffers.get(&key) {
            if mutable {
                return Err(
                    self.type_error(at, "must not be a SharedArrayBuffer view (&mut [u8])"),
                );
            }
            let copy = match t.shared_mem.get(id) {
                Some(m) => copy_bytes(m, range.off, range.len),
                None => Vec::new(),
            };
            assert(copy@ =~= shared_bytes(*t, range));
            let n: usize = self.copies.len();
            self.copies.push(copy);
            assert(self.copies@.drop_last() =~= old(self).copies@);
            assert(self.all(*t) =~= old(self).all(*old(t)));
            return Ok(ByteView::Copied(n));
        }
        if mutable && t.immutable_buffers.contains(&key) {
            return Err(self.type_error(at, "is backed by an immutable ArrayBuffer"));
        }
        proof {
            let direct = t.covered(t.array_buffers@, *v);
            if direct == Err::<ByteRange, ViewErr>(ViewErr::Detached) && self.lent_keys@.len() > 0 {
                lemma_covered_is_in_range(*t, self.all(*t), *v);
            } else {
                lemma_covered_is_in_range(*t, t.array_buffers@, *v);
                assert(t.array_buffers@.contains_key(key));
                if self.lent@.contains_key(key) {
                    assert(false);
                }
            }
            assert(self.all(*t).contains_key(key));
            assert(range.off + range.len <= self.all(*t)[key]@.len());
            assert(self.all(*t)[key].len() == self.all(*t)[key]@.len());
        }
        let mut seen = false;
        let mut k: usize = 0;
        while k < self.borrows.len()
            invariant
                *self == *old(self),
                *t == *old(t),
                self.wf(*t),
                key == range.key,
                range.off + range.len <= usize::MAX,
                self.resolved(*t, *v) == Ok::<ByteRange, ViewErr>(range),
                !t.shared_buffers@.contains_key(key),
                !(mutable && t.immutable_buffers@.contains(key)),
                k <= self.borrows@.len(),
                forall|i: int|
                    0 <= i < k ==> !conflicts(#[trigger] self.borrows@[i], range, mutable),
                seen <==> exists|i: int|
                    0 <= i < k && (#[trigger] self.borrows@[i]).range.key == key,
            decreases self.borrows@.len() - k,
        {
            let b: ByteBorrow = self.borrows[k];
            assert(b == self.borrows@[k as int]);
            proof {
                assert(self.all(*t)[b.range.key].len() == self.all(*t)[b.range.key]@.len());
            }
            if b.range.key == key {
                seen = true;
                let overlap = range.len != 0 && b.range.len != 0 && range.off < b.range.off
                    + b.range.len && b.range.off < range.off + range.len;
                if overlap && (mutable || b.mutable) {
                    proof {
                        lemma_first_conflict_is(self.borrows@, range, mutable, k as int);
                    }
                    let mut what = String::new();
                    what.append("overlaps ");
                    let l = self.desc.slot_label(b.slot);
                    what.append(l.as_str());
                    what.append(" in the same buffer; a mutable byte slice cannot alias");
                    assert(what@ =~= "overlaps "@ + crate::embed_convert::desc::slot_text(
                        self.desc,
                        b.slot,
                    ) + " in the same buffer; a mutable byte slice cannot alias"@);
                    return Err(self.type_error(at, what.as_str()));
                }
            }
            k = k + 1;
        }
        proof {
            lemma_first_conflict_is(self.borrows@, range, mutable, k as int);
        }
        assert(seen == borrowed(self.borrows@, key));
        if !seen && (self.flags & OP_CTX != 0 || self.lent_keys.len() > 0) {
            let _ = self.lend(t, key);
        }
        let ghost bs = self.borrows@;
        self.borrows.push(ByteBorrow { range, mutable, slot: at });
        proof {
            assert(self.all(*t) =~= old(self).all(*old(t)));
            assert forall|i: int, j: int| 0 <= i < j < self.borrows@.len() implies !conflicts(
                #[trigger] self.borrows@[i],
                (#[trigger] self.borrows@[j]).range,
                self.borrows@[j].mutable,
            ) by {
                if j == bs.len() {
                    assert(!conflicts(bs[i], range, mutable));
                } else {
                    assert(bs[i] == self.borrows@[i] && bs[j] == self.borrows@[j]);
                }
            }
        }
        Ok(ByteView::Borrowed(range))
    }

    /// A copy of the bytes that `v` covers.
    pub fn view_copy(&self, t: &ViewTables, v: &Value, at: Slot) -> (r: Result<Vec<u8>, OpError>)
        requires
            self.wf(*t),
            !self.in_ctx,
        ensures
            match self.resolved(*t, *v) {
                Err(e) => r matches Err(x) && x@ == new_error(
                    "TypeError"@,
                    self.desc.complaint(at, view_complaint(e)),
                ),
                Ok(range) => r matches Ok(bytes) && bytes@
                    == if t.shared_buffers@.contains_key(range.key) {
                    shared_bytes(*t, range)
                } else {
                    self.all(*t)[range.key]@.subrange(range.off as int, range.off + range.len)
                },
            },
    {
        let range: ByteRange = match self.resolve(t, v) {
            Ok(r) => r,
            Err(e) => {
                return Err(self.view_error(e, at));
            },
        };
        if let Some(id) = t.shared_buffers.get(&range.key) {
            return match t.shared_mem.get(id) {
                Some(m) => {
                    let c = copy_bytes(m, range.off, range.len);
                    assert(c@ =~= shared_bytes(*t, range));
                    Ok(c)
                },
                None => Ok(Vec::new()),
            };
        }
        proof {
            let direct = t.covered(t.array_buffers@, *v);
            if direct == Err::<ByteRange, ViewErr>(ViewErr::Detached) && self.lent_keys@.len() > 0 {
                lemma_covered_is_in_range(*t, self.all(*t), *v);
            } else {
                lemma_covered_is_in_range(*t, t.array_buffers@, *v);
            }
        }
        match t.array_buffers.get(&range.key) {
            Some(b) => {
                assert(!self.lent@.contains_key(range.key));
                Ok(copy_bytes(b, range.off, range.len))
            },
            None => match self.lent.get(&range.key) {
                Some(b) => Ok(copy_bytes(b, range.off, range.len)),
                None => Err(self.view_error(ViewErr::Detached, at)),
            },
        }
    }

    /// The bytes of a view.
    pub open spec fn bytes(self, t: ViewTables, w: ByteView) -> Seq<u8> {
        match w {
            ByteView::Borrowed(r) => self.all(t)[r.key]@.subrange(r.off as int, r.off + r.len),
            ByteView::Copied(k) => self.copies@[k as int]@,
        }
    }

    /// Whether a view was given out by this call.
    pub open spec fn gave(self, w: ByteView) -> bool {
        match w {
            ByteView::Borrowed(r) => exists|i: int|
                0 <= i < self.borrows@.len() && (#[trigger] self.borrows@[i]).range == r,
            ByteView::Copied(k) => k < self.copies@.len(),
        }
    }

    /// Reads the bytes of a view; lent or not, they are the same.
    pub fn read_view(&self, t: &ViewTables, w: ByteView) -> (r: Vec<u8>)
        requires
            self.wf(*t),
            self.gave(w),
        ensures
            r@ == self.bytes(*t, w),
    {
        match w {
            ByteView::Copied(k) => {
                let n: usize = self.copies[k].len();
                let c = copy_bytes(&self.copies[k], 0, n);
                assert(c@ =~= self.copies@[k as int]@);
                c
            },
            ByteView::Borrowed(range) => {
                let ghost i = choose|i: int|
                    0 <= i < self.borrows@.len() && (#[trigger] self.borrows@[i]).range == range;
                assert(self.all(*t).contains_key(self.borrows@[i].range.key));
                match self.lent.get(&range.key) {
                    Some(b) => copy_bytes(b, range.off, range.len),
                    None => match t.array_buffers.get(&range.key) {
                        Some(b) => copy_bytes(b, range.off, range.len),
                        None => Vec::new(),
                    },
                }
            },
        }
    }
}

impl ArgCx {
    /// Writes a byte through a mutable view.
    pub fn write_view(&mut self, t: &mut ViewTables, range: ByteRange, at: usize, byte: u8)
        requires
            old(self).wf(*old(t)),
            old(self).gave_mutable(range),
            at < range.len,
        ensures
            final(self).wf(*final(t)),
            *final(self) == (ArgCx { lent: final(self).lent, ..*old(self) }),
            *final(t) == (ViewTables { array_buffers: final(t).array_buffers, ..*old(t) }),
            wrote_byte(
                old(self).all(*old(t)),
                final(self).all(*final(t)),
                range.key,
                range.off + at,
                byte,
            ),
    {
        proof {
            let i = choose|i: int|
                0 <= i < self.borrows@.len() && (#[trigger] self.borrows@[i]).range == range
                    && self.borrows@[i].mutable;
            assert(self.all(*t).contains_key(self.borrows@[i].range.key));
        }
        if self.lent.contains_key(&range.key) {
            if let Some(mut b) = self.lent.remove(&range.key) {
                let n: usize = b.len();
                assert(range.off + at < n);
                b.set(range.off + at, byte);
                self.lent.insert(range.key, b);
                assert(self.lent@.dom() =~= old(self).lent@.dom());
                assert(self.all(*t).dom() =~= old(self).all(*old(t)).dom());
            }
        } else if let Some(mut b) = t.array_buffers.remove(&range.key) {
            let n: usize = b.len();
            assert(range.off + at < n);
            b.set(range.off + at, byte);
            t.array_buffers.insert(range.key, b);
            assert(t.array_buffers@.dom() =~= old(t).array_buffers@.dom());
            assert(self.all(*t).dom() =~= old(self).all(*old(t)).dom());
        }
        assert forall|i: int| 0 <= i < self.borrows@.len() implies {
            let r = (#[trigger] self.borrows@[i]).range;
            self.all(*t).contains_key(r.key) && r.off + r.len <= self.all(*t)[r.key]@.len()
        } by {
            let r = old(self).borrows@[i].range;
            assert(old(self).all(*old(t)).contains_key(r.key));
        }
    }

    /// Whether a mutable view was given out by this call.
    pub open spec fn gave_mutable(self, range: ByteRange) -> bool {
        exists|i: int|
            0 <= i < self.borrows@.len() && (#[trigger] self.borrows@[i]).range == range
                && self.borrows@[i].mutable
    }
}

/// One byte of one buffer is written, and nothing else.
pub open spec fn wrote_byte(
    before: Buffers,
    after: Buffers,
    key: u64,
    at: int,
    byte: u8,
) -> bool {
    &&& after.dom() == before.dom()
    &&& after[key]@ == before[key]@.update(at, byte)
    &&& forall|k: u64| k != key && before.contains_key(k) ==> #[trigger] after[k] == before[k]
}

/// The bytes `off .. off + len`; none when they are not all there.
fn copy_bytes(b: &Vec<u8>, off: usize, len: usize) -> (r: Vec<u8>)
    ensures
        r@ == if off + len <= b@.len() {
            b@.subrange(off as int, off + len)
        } else {
            Seq::empty()
        },
{
    let mut out: Vec<u8> = Vec::new();
    let n: usize = b.len();
    if off > n || len > n - off {
        assert(out@ =~= Seq::<u8>::empty());
        return out;
    }
    let mut i: usize = 0;
    assert(b@.subrange(off as int, off as int) =~= Seq::<u8>::empty());
    while i < len
        invariant
            i <= len,
            n == b@.len(),
            off + len <= n,
            out@ == b@.subrange(off as int, off + i),
        decreases len - i,
    {
        out.push(b[off + i]);
        i = i + 1;
        assert(out@ =~= b@.subrange(off as int, off + i));
    }
    out
}

/// Lending is invisible once it is over: a call that lends and then ends leaves every buffer in
/// the table as it was (with the bytes it then has), and nothing is left out of it.
pub proof fn lemma_lending_is_undone(before: ArgCx, t: ViewTables, cx: ArgCx, u: ViewTables)
    requires
        before.wf(t),
        before.lent@ == Map::<u64, Vec<u8>>::empty(),
        cx.wf(u),
        cx.same_buffers(u, before, t),
    ensures
        cx.lent@.union_prefer_right(u.array_buffers@) == t.array_buffers@,
{
    assert(before.all(t) =~= t.array_buffers@);
    assert(cx.lent@.union_prefer_right(u.array_buffers@) =~= cx.all(u));
}

/// A write through a mutable view shows in no other view that the call was given.
pub proof fn lemma_writes_stay_in_their_view(
    cx: ArgCx,
    t: ViewTables,
    u: ViewTables,
    after: ArgCx,
    a: int,
    b: int,
    at: int,
    byte: u8,
)
    requires
        cx.wf(t),
        0 <= a < cx.borrows@.len(),
        0 <= b < cx.borrows@.len(),
        a != b,
        cx.borrows@[a].mutable,
        0 <= at < cx.borrows@[a].range.len,
        wrote_byte(
            cx.all(t),
            after.all(u),
            cx.borrows@[a].range.key,
            cx.borrows@[a].range.off + at,
            byte,
        ),
    ensures
        after.bytes(u, ByteView::Borrowed(cx.borrows@[b].range)) == cx.bytes(
            t,
            ByteView::Borrowed(cx.borrows@[b].range),
        ),
{
    let x = cx.borrows@[a];
    let y = cx.borrows@[b];
    assert(cx.all(t).contains_key(y.range.key));
    if a < b {
        assert(!conflicts(cx.borrows@[a], cx.borrows@[b].range, y.mutable));
    } else {
        assert(!conflicts(cx.borrows@[b], cx.borrows@[a].range, x.mutable));
    }
    assert(after.bytes(u, ByteView::Borrowed(y.range)) =~= cx.bytes(
        t,
        ByteView::Borrowed(y.range),
    ));
}

/// While a buffer is lent, code that runs sees its views as detached.
pub proof fn lemma_lent_buffers_look_detached(cx: ArgCx, t: ViewTables, p: u64)
    requires
        cx.wf(t),
        t.typed_arrays@.contains_key(p),
        cx.lent@.contains_key(t.typed_arrays@[p].buffer),
        !t.shared_buffers@.contains_key(t.typed_arrays@[p].buffer),
    ensures
        t.covered(t.array_buffers@, Value::Obj(p)) == Err::<ByteRange, ViewErr>(ViewErr::Detached),
{
}

} // verus!
