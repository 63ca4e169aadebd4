//! The packed form of the locale tables: every distinct string once, in a sorted pool, and rows
//! of `u16` pool ids.

use vstd::prelude::*;

verus! {

/// The sorted, deduplicated strings of a table: `text` is their concatenation (as UTF-8 bytes),
/// `ends[i]` the end offset of string `i` (its start is `ends[i - 1]`, or 0).
pub struct Pool {
    pub text: Vec<u8>,
    pub ends: Vec<u32>,
}

/// Byte-wise lexicographic order.
pub open spec fn before(a: Seq<u8>, b: Seq<u8>) -> bool
    decreases a.len(),
{
    if b.len() == 0 {
        false
    } else if a.len() == 0 {
        true
    } else if a[0] != b[0] {
        a[0] < b[0]
    } else {
        before(a.drop_first(), b.drop_first())
    }
}

proof fn lemma_before_trans(a: Seq<u8>, b: Seq<u8>, c: Seq<u8>)
    requires
        before(a, b),
        before(b, c),
    ensures
        before(a, c),
    decreases a.len(),
{
    if a.len() > 0 && b.len() > 0 && c.len() > 0 && a[0] == b[0] && b[0] == c[0] {
        lemma_before_trans(a.drop_first(), b.drop_first(), c.drop_first());
    }
}

proof fn lemma_before_irreflexive(a: Seq<u8>)
    ensures
        !before(a, a),
    decreases a.len(),
{
    if a.len() > 0 {
        lemma_before_irreflexive(a.drop_first());
    }
}

impl Pool {
    /// Where string `i` starts.
    pub open spec fn start(&self, i: int) -> int {
        if i == 0 {
            0
        } else {
            self.ends@[i - 1] as int
        }
    }

    /// String `i`.
    pub open spec fn string(&self, i: int) -> Seq<u8> {
        self.text@.subrange(self.start(i), self.ends@[i] as int)
    }

    /// The offsets cut the text into ascending strings.
    pub open spec fn wf(&self) -> bool {
        &&& self.ends@.len() <= 0x1_0000
        &&& forall|i: int|
            0 <= i < self.ends@.len() ==> #[trigger] self.start(i) <= self.ends@[i]
                <= self.text@.len()
        &&& forall|i: int, j: int|
            0 <= i < j < self.ends@.len() ==> before(
                #[trigger] self.string(i),
                #[trigger] self.string(j),
            )
    }

    /// String `id`.
    pub fn get(&self, id: u16) -> (r: &[u8])
        requires
            self.wf(),
            id < self.ends@.len(),
        ensures
            r@ == self.string(id as int),
    {
        let i: usize = id as usize;
        proof {
            assert(self.start(i as int) <= self.ends@[i as int] <= self.text@.len());
        }
        let start: usize = if i == 0 {
            0
        } else {
            self.ends[i - 1] as usize
        };
        vstd::slice::slice_subrange(self.text.as_slice(), start, self.ends[i] as usize)
    }

    /// The id of `s`, if the table has it.
    pub fn id(&self, s: &[u8]) -> (r: Option<u16>)
        requires
            self.wf(),
        ensures
            match r {
                Some(i) => i < self.ends@.len() && self.string(i as int) == s@,
                None => forall|i: int|
                    0 <= i < self.ends@.len() ==> #[trigger] self.string(i) != s@,
            },
    {
        let mut lo: usize = 0;
        let mut hi: usize = self.ends.len();
        while lo < hi
            invariant
                self.wf(),
                lo <= hi <= self.ends@.len(),
                forall|i: int| 0 <= i < lo ==> before(#[trigger] self.string(i), s@),
                forall|i: int| hi <= i < self.ends@.len() ==> before(s@, #[trigger] self.string(i)),
            decreases hi - lo,
        {
            let mid: usize = lo + (hi - lo) / 2;
            let m: &[u8] = self.get(mid as u16);
            match compare(m, s) {
                Order::Less => {
                    proof {
                        assert forall|i: int| 0 <= i < mid + 1 implies before(
                            #[trigger] self.string(i),
                            s@,
                        ) by {
                            if i < mid {
                                lemma_before_trans(self.string(i), self.string(mid as int), s@);
                            }
                        }
                    }
                    lo = mid + 1;
                },
                Order::Greater => {
                    proof {
                        assert forall|i: int| mid <= i < self.ends@.len() implies before(
                            s@,
                            #[trigger] self.string(i),
                        ) by {
                            if i > mid {
                                lemma_before_trans(s@, self.string(mid as int), self.string(i));
                            }
                        }
                    }
                    hi = mid;
                },
                Order::Equal => {
                    return Some(mid as u16);
                },
            }
        }
        proof {
            assert forall|i: int| 0 <= i < self.ends@.len() implies #[trigger] self.string(i)
                != s@ by {
                lemma_before_irreflexive(s@);
            }
        }
        None
    }
}

/// How two byte strings are ordered.
#[derive(Clone, Copy, Debug, PartialEq, Eq, Structural)]
pub enum Order {
    Less,
    Equal,
    Greater,
}

proof fn lemma_before_common(a: Seq<u8>, b: Seq<u8>, k: int)
    requires
        0 <= k <= a.len(),
        k <= b.len(),
        forall|i: int| 0 <= i < k ==> a[i] == b[i],
    ensures
        before(a, b) == before(
            a.subrange(k, a.len() as int),
            b.subrange(k, b.len() as int),
        ),
    decreases k,
{
    if k > 0 {
        lemma_before_common(a.drop_first(), b.drop_first(), k - 1);
        assert(a.drop_first().subrange(k - 1, a.len() - 1) =~= a.subrange(k, a.len() as int));
        assert(b.drop_first().subrange(k - 1, b.len() - 1) =~= b.subrange(k, b.len() as int));
    } else {
        assert(a.subrange(0, a.len() as int) =~= a);
        assert(b.subrange(0, b.len() as int) =~= b);
    }
}

/// Orders two byte strings lexicographically.
pub fn compare(a: &[u8], b: &[u8]) -> (r: Order)
    ensures
        match r {
            Order::Less => before(a@, b@),
            Order::Equal => a@ == b@,
            Order::Greater => before(b@, a@),
        },
{
    let mut k: usize = 0;
    while k < a.len() && k < b.len()
        invariant
            k <= a@.len(),
            k <= b@.len(),
            forall|i: int| 0 <= i < k ==> a@[i] == b@[i],
        decreases a@.len() - k,
    {
        if a[k] != b[k] {
            proof {
                lemma_before_common(a@, b@, k as int);
                lemma_before_common(b@, a@, k as int);
            }
            if a[k] < b[k] {
                return Order::Less;
            } else {
                return Order::Greater;
            }
        }
        k = k + 1;
    }
    proof {
        lemma_before_common(a@, b@, k as int);
        lemma_before_common(b@, a@, k as int);
    }
    if k < b.len() {
        Order::Less
    } else if k < a.len() {
        Order::Greater
    } else {
        assert(a@ =~= b@);
        Order::Equal
    }
}

} // verus!
