//! The call records of directly called frames.
//!
//! A call that native code makes directly pushes no frame: it links a record, newest first.
//! Pending records are always above every pushed frame: anything that pushes a frame first
//! copies the pending records in, oldest first, and marks them. The full call stack, oldest
//! first, is the pushed frames followed by the pending records.

use crate::interpreter::frames::FnFrame;
use vstd::prelude::*;

verus! {

/// The call record of a directly called frame.
pub struct CallRec {
    pub strict: bool,
    pub construct: bool,
    /// The record was copied into the frame stack; the call pops it there when it returns.
    pub synced: bool,
    /// The caller's call site.
    pub site: u32,
    /// The coroutine body that made the call.
    pub coro: u32,
    /// The callee's identity.
    pub fn_ptr: u64,
}

/// The call stack: the pushed frames, and the records of direct calls, oldest first.
pub struct CallStack {
    pub fn_frames: Vec<FnFrame>,
    pub recs: Vec<CallRec>,
}

/// The frame a record stands for.
pub open spec fn rec_as_frame(r: CallRec) -> FnFrame {
    FnFrame {
        fn_ptr: r.fn_ptr,
        coro: r.coro,
        caller_site: r.site,
        strict: r.strict,
        construct: r.construct,
        extra: None,
    }
}

/// The index of the oldest record of the newest run of records that are not copied yet.
pub open spec fn first_pending(recs: Seq<CallRec>) -> nat
    decreases recs.len(),
{
    if recs.len() == 0 || recs.last().synced {
        recs.len()
    } else {
        first_pending(recs.drop_last())
    }
}

/// The frames that the records from `k` on stand for.
pub open spec fn frames_from(recs: Seq<CallRec>, k: nat) -> Seq<FnFrame> {
    Seq::new((recs.len() - k) as nat, |i: int| rec_as_frame(recs[k + i]))
}

/// The frames of the pending records, oldest first.
pub open spec fn pending_of(recs: Seq<CallRec>) -> Seq<FnFrame> {
    frames_from(recs, first_pending(recs))
}

/// The full call stack, oldest first.
pub open spec fn full_stack(s: CallStack) -> Seq<FnFrame> {
    s.fn_frames@ + pending_of(s.recs@)
}

/// `recs` with the records from `k` on marked as copied.
pub open spec fn marked_from(recs: Seq<CallRec>, k: nat) -> Seq<CallRec> {
    Seq::new(
        recs.len(),
        |i: int|
            if i >= k {
                CallRec { synced: true, ..recs[i] }
            } else {
                recs[i]
            },
    )
}

/// Every record below a copied one is copied.
pub open spec fn recs_wf(recs: Seq<CallRec>) -> bool {
    forall|i: int, j: int| 0 <= i < j < recs.len() && recs[j].synced ==> recs[i].synced
}

/// The records of other coroutine bodies, in order.
pub open spec fn without_coro(recs: Seq<CallRec>, coro: u32) -> Seq<CallRec> {
    recs.filter(|r: CallRec| r.coro != coro)
}

proof fn lemma_first_pending(recs: Seq<CallRec>)
    ensures
        first_pending(recs) <= recs.len(),
        forall|i: int| first_pending(recs) <= i < recs.len() ==> !(#[trigger] recs[i]).synced,
        first_pending(recs) > 0 ==> recs[first_pending(recs) - 1].synced,
    decreases recs.len(),
{
    if recs.len() > 0 && !recs.last().synced {
        lemma_first_pending(recs.drop_last());
        let p = recs.drop_last();
        assert forall|i: int| first_pending(recs) <= i < recs.len() implies !(
        #[trigger] recs[i]).synced by {
            if i < p.len() {
                assert(p[i] == recs[i]);
            }
        }
    }
}

/// The frame a record stands for.
fn rec_frame(r: &CallRec) -> (f: FnFrame)
    ensures
        f == rec_as_frame(*r),
{
    FnFrame {
        fn_ptr: r.fn_ptr,
        coro: r.coro,
        caller_site: r.site,
        strict: r.strict,
        construct: r.construct,
        extra: None,
    }
}

impl CallStack {
    /// The index of the oldest pending record.
    fn pending_recs(&self) -> (k: usize)
        ensures
            k == first_pending(self.recs@),
            k <= self.recs@.len(),
    {
        let mut k: usize = self.recs.len();
        assert(self.recs@.take(k as int) =~= self.recs@);
        while k > 0 && !self.recs[k - 1].synced
            invariant
                k <= self.recs@.len(),
                first_pending(self.recs@) == first_pending(self.recs@.take(k as int)),
            decreases k,
        {
            k = k - 1;
            assert(self.recs@.take(k + 1).drop_last() =~= self.recs@.take(k as int));
            assert(self.recs@.take(k + 1).last() == self.recs@[k as int]);
        }
        proof {
            let t = self.recs@.take(k as int);
            if k > 0 {
                assert(t.last() == self.recs@[k - 1]);
            }
        }
        k
    }

    /// Copies the pending records into the frame stack. Called before a frame is pushed.
    pub fn sync_frames(&mut self)
        ensures
            final(self).fn_frames@ == full_stack(*old(self)),
            final(self).recs@ == marked_from(old(self).recs@, first_pending(old(self).recs@)),
    {
        let k: usize = self.pending_recs();
        let mut i: usize = k;
        let n: usize = self.recs.len();
        let ghost recs0 = self.recs@;
        let ghost frames0 = self.fn_frames@;
        assert(frames_from(recs0.take(k as int), k as nat) =~= Seq::<FnFrame>::empty());
        assert(frames0 + Seq::<FnFrame>::empty() =~= frames0);
        while i < n
            invariant
                k <= i <= n,
                n == recs0.len(),
                self.recs@.len() == n,
                forall|j: int|
                    0 <= j < n ==> #[trigger] self.recs@[j] == if k <= j < i {
                        CallRec { synced: true, ..recs0[j] }
                    } else {
                        recs0[j]
                    },
                self.fn_frames@ == frames0 + frames_from(recs0.take(i as int), k as nat),
            decreases n - i,
        {
            let f = rec_frame(&self.recs[i]);
            self.fn_frames.push(f);
            self.recs[i].synced = true;
            assert(frames_from(recs0.take(i + 1), k as nat) =~= frames_from(
                recs0.take(i as int),
                k as nat,
            ).push(rec_as_frame(recs0[i as int])));
            i = i + 1;
            assert(self.fn_frames@ =~= frames0 + frames_from(recs0.take(i as int), k as nat));
        }
        assert(recs0.take(n as int) =~= recs0);
        assert(self.recs@ =~= marked_from(recs0, k as nat));
    }

    /// The pending records as frames, oldest first.
    pub fn pending_frames(&self) -> (r: Vec<FnFrame>)
        ensures
            r@ == pending_of(self.recs@),
    {
        let k: usize = self.pending_recs();
        let mut out: Vec<FnFrame> = Vec::new();
        let mut i: usize = k;
        assert(frames_from(self.recs@.take(k as int), k as nat) =~= Seq::<FnFrame>::empty());
        while i < self.recs.len()
            invariant
                k <= i <= self.recs@.len(),
                out@ == frames_from(self.recs@.take(i as int), k as nat),
            decreases self.recs@.len() - i,
        {
            out.push(rec_frame(&self.recs[i]));
            i = i + 1;
            assert(out@ =~= frames_from(self.recs@.take(i as int), k as nat));
        }
        assert(self.recs@.take(i as int) =~= self.recs@);
        out
    }

    /// A coroutine body died: unlinks its records.
    pub fn evict_coro_frames(&mut self, coro: u32)
        ensures
            final(self).recs@ == without_coro(old(self).recs@, coro),
            final(self).fn_frames@ == old(self).fn_frames@,
    {
        let mut kept: Vec<CallRec> = Vec::new();
        let mut i: usize = 0;
        let ghost keeps = |r: CallRec| r.coro != coro;
        proof {
            reveal(Seq::filter);
            assert(self.recs@.take(0).filter(keeps) =~= Seq::<CallRec>::empty());
        }
        while i < self.recs.len()
            invariant
                i <= self.recs@.len(),
                keeps == (|r: CallRec| r.coro != coro),
                kept@ == self.recs@.take(i as int).filter(keeps),
            decreases self.recs@.len() - i,
        {
            let r = &self.recs[i];
            proof {
                reveal(Seq::filter);
                assert(self.recs@.take(i + 1).drop_last() =~= self.recs@.take(i as int));
                assert(self.recs@.take(i + 1).last() == self.recs@[i as int]);
            }
            if r.coro != coro {
                kept.push(
                    CallRec {
                        strict: r.strict,
                        construct: r.construct,
                        synced: r.synced,
                        site: r.site,
                        coro: r.coro,
                        fn_ptr: r.fn_ptr,
                    },
                );
            }
            i = i + 1;
        }
        assert(self.recs@.take(i as int) =~= self.recs@);
        self.recs = kept;
    }
}

/// Copying the records in leaves the call stack as it was, with nothing pending.
pub proof fn lemma_sync_keeps_the_stack(s: CallStack, t: CallStack)
    requires
        t.fn_frames@ == full_stack(s),
        t.recs@ == marked_from(s.recs@, first_pending(s.recs@)),
    ensures
        full_stack(t) == full_stack(s),
        pending_of(t.recs@) == Seq::<FnFrame>::empty(),
        recs_wf(s.recs@) ==> recs_wf(t.recs@),
{
    lemma_first_pending(s.recs@);
    lemma_first_pending(t.recs@);
    let k = first_pending(s.recs@);
    assert(first_pending(t.recs@) == t.recs@.len());
    assert(pending_of(t.recs@) =~= Seq::<FnFrame>::empty());
    assert(full_stack(t) =~= full_stack(s));
    if recs_wf(s.recs@) {
        assert forall|i: int, j: int| 0 <= i < j < t.recs@.len() && t.recs@[j].synced implies
        t.recs@[i].synced by {
            if i < k && k > 0 {
                assert(s.recs@[k - 1].synced);
                assert(i < k - 1 ==> s.recs@[i].synced);
            }
        }
    }
}

} // verus!
