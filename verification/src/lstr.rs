//! The engine string: counted byte strings with spare capacity, and views.
//!
//! When a string is uniquely referenced an append writes in place (amortized by capacity
//! doubling); shared strings copy first. A piece of a long string is a *view*: an offset and a
//! length in the string that owns the bytes, its *root*, on which it holds a counted reference.
//! A view of a view points at the root directly, so there are never chains. Views have no spare
//! capacity and are at least [`VIEW_MIN`] bytes long.
//!
//! A root whose only references are its views, and whose views cover little of it, is compacted
//! (see [`crate::lstr_compact::compact_views`]): the bytes the views use are copied into one tight buffer, the
//! views are repointed at it, and the root is freed.

use vstd::prelude::*;

verus! {

/// The largest capacity of a string.
pub const CAP_MASK: usize = 0x1fff_ffff;

/// The shortest piece made a view: below it a copy is no bigger than a view.
pub const VIEW_MIN: usize = 32;

/// The shortest root views are taken of (pieces of short strings are copied).
pub const VIEW_ROOT_MIN: usize = 256;

/// The smallest capacity that growing gives.
pub const GROW_MIN: usize = 32;

/// Where a string's bytes are.
pub enum StrBody {
    /// The string is gone.
    Free,
    /// Its own bytes, with room for `cap`.
    Own { bytes: Vec<u8>, cap: usize },
    /// `len` bytes of string `root` from `off` on.
    View { root: usize, off: usize, len: usize },
}

/// A string of the heap: its reference count, whether it is known to be all ASCII, and its
/// bytes.
pub struct StrCell {
    pub strong: usize,
    pub ascii: bool,
    pub body: StrBody,
}

/// A string: its place in a [`StrHeap`]. A value of this type stands for one counted reference.
#[derive(Debug, PartialEq, Eq, Structural)]
pub struct LStr {
    pub id: usize,
}

pub struct StrHeap {
    pub cells: Vec<StrCell>,
}

pub open spec fn all_ascii(s: Seq<u8>) -> bool {
    forall|i: int| 0 <= i < s.len() ==> #[trigger] s[i] < 128
}

/// The bytes of cell `i`.
pub open spec fn text(cells: Seq<StrCell>, i: int) -> Seq<u8> {
    match cells[i].body {
        StrBody::Free => Seq::empty(),
        StrBody::Own { bytes, cap } => bytes@,
        StrBody::View { root, off, len } => match cells[root as int].body {
            StrBody::Own { bytes, cap } => bytes@.subrange(off as int, off + len),
            _ => Seq::empty(),
        },
    }
}

/// Whether cell `c` is a view of root `r`.
pub open spec fn views(c: StrCell, r: int) -> bool {
    c.body matches StrBody::View { root, off, len } && root == r
}

/// The number of views of root `r`.
pub open spec fn view_count(cells: Seq<StrCell>, r: int) -> nat
    decreases cells.len(),
{
    if cells.len() == 0 {
        0
    } else {
        view_count(cells.drop_last(), r) + if views(cells.last(), r) {
            1nat
        } else {
            0
        }
    }
}

/// Cell `i` keeps the heap's invariant.
pub open spec fn cell_wf(cells: Seq<StrCell>, i: int) -> bool {
    match cells[i].body {
        StrBody::Free => cells[i].strong == 0 && view_count(cells, i) == 0,
        StrBody::Own { bytes, cap } => {
            &&& cells[i].strong >= 1
            &&& view_count(cells, i) <= cells[i].strong
            &&& bytes@.len() <= cap <= CAP_MASK
            &&& cells[i].ascii ==> all_ascii(bytes@)
        },
        StrBody::View { root, off, len } => {
            &&& cells[i].strong >= 1
            &&& view_count(cells, i) == 0
            &&& root < cells.len()
            &&& cells[root as int].body matches StrBody::Own { bytes, cap } && off + len
                <= bytes@.len()
            &&& len >= VIEW_MIN
            &&& cells[i].ascii ==> all_ascii(text(cells, i))
        },
    }
}

impl StrHeap {
    pub open spec fn wf(&self) -> bool {
        forall|i: int| 0 <= i < self.cells@.len() ==> #[trigger] cell_wf(self.cells@, i)
    }

    /// Someone other than a view holds a reference to the string.
    pub open spec fn held(&self, s: LStr) -> bool {
        s.id < self.cells@.len() && self.cells@[s.id as int].strong > view_count(
            self.cells@,
            s.id as int,
        )
    }

    /// The string's bytes.
    pub open spec fn content(&self, s: LStr) -> Seq<u8> {
        text(self.cells@, s.id as int)
    }

    pub fn new() -> (r: StrHeap)
        ensures
            r.wf(),
            r.cells@.len() == 0,
    {
        StrHeap { cells: Vec::new() }
    }
}

// ---- counting views -------------------------------------------------------------------------

pub proof fn lemma_view_count_push(cells: Seq<StrCell>, c: StrCell, r: int)
    ensures
        view_count(cells.push(c), r) == view_count(cells, r) + if views(c, r) {
            1nat
        } else {
            0
        },
{
    assert(cells.push(c).drop_last() =~= cells);
}

pub proof fn lemma_view_count_update(cells: Seq<StrCell>, i: int, c: StrCell, r: int)
    requires
        0 <= i < cells.len(),
    ensures
        view_count(cells.update(i, c), r) == view_count(cells, r) - (if views(cells[i], r) {
            1int
        } else {
            0
        }) + if views(c, r) {
            1int
        } else {
            0
        },
    decreases cells.len(),
{
    let out = cells.update(i, c);
    if i == cells.len() - 1 {
        assert(out.drop_last() =~= cells.drop_last());
    } else {
        assert(out.drop_last() =~= cells.drop_last().update(i, c));
        lemma_view_count_update(cells.drop_last(), i, c, r);
    }
}

pub proof fn lemma_view_count_zero(cells: Seq<StrCell>, r: int)
    requires
        view_count(cells, r) == 0,
    ensures
        forall|i: int| 0 <= i < cells.len() ==> !views(#[trigger] cells[i], r),
    decreases cells.len(),
{
    if cells.len() > 0 {
        lemma_view_count_zero(cells.drop_last(), r);
        assert forall|i: int| 0 <= i < cells.len() implies !views(#[trigger] cells[i], r) by {
            if i < cells.len() - 1 {
                assert(cells.drop_last()[i] == cells[i]);
            }
        }
    }
}

pub proof fn lemma_view_count_none(cells: Seq<StrCell>, r: int)
    requires
        forall|i: int| 0 <= i < cells.len() ==> !views(#[trigger] cells[i], r),
    ensures
        view_count(cells, r) == 0,
    decreases cells.len(),
{
    if cells.len() > 0 {
        assert forall|i: int| 0 <= i < cells.len() - 1 implies !views(
            #[trigger] cells.drop_last()[i],
            r,
        ) by {
            assert(cells.drop_last()[i] == cells[i]);
        }
        lemma_view_count_none(cells.drop_last(), r);
        assert(!views(cells[cells.len() - 1], r));
    }
}

// ---- making strings -------------------------------------------------------------------------

/// Whether the bytes are all ASCII.
pub fn is_ascii(s: &[u8]) -> (r: bool)
    ensures
        r == all_ascii(s@),
{
    let mut i: usize = 0;
    while i < s.len()
        invariant
            i <= s@.len(),
            forall|j: int| 0 <= j < i ==> #[trigger] s@[j] < 128,
        decreases s@.len() - i,
    {
        if s[i] >= 128 {
            return false;
        }
        i = i + 1;
    }
    true
}

/// The heap with a new string of its own bytes: nothing else changed.
pub open spec fn grown(before: StrHeap, after: StrHeap, s: LStr, bytes: Seq<u8>, cap: int, ascii: bool) -> bool {
    &&& s.id == before.cells@.len()
    &&& after.cells@.len() == s.id + 1
    &&& after.cells@.take(s.id as int) == before.cells@
    &&& after.cells@[s.id as int].strong == 1
    &&& after.cells@[s.id as int].ascii == ascii
    &&& after.cells@[s.id as int].body matches StrBody::Own { bytes: b, cap: c } && b@ == bytes && c
        == cap
}

impl StrHeap {
    /// A new string of the bytes `bytes`, with room for `cap`.
    fn place(&mut self, bytes: Vec<u8>, cap: usize, ascii: bool) -> (r: LStr)
        requires
            old(self).wf(),
            bytes@.len() <= cap <= CAP_MASK,
            ascii ==> all_ascii(bytes@),
        ensures
            final(self).wf(),
            final(self).held(r),
            grown(*old(self), *final(self), r, bytes@, cap as int, ascii),
    {
        let id: usize = self.cells.len();
        let ghost before = self.cells@;
        let ghost b = bytes@;
        self.cells.push(StrCell { strong: 1, ascii, body: StrBody::Own { bytes, cap } });
        proof {
            let after = self.cells@;
            let c = after[id as int];
            assert(after =~= before.push(c));
            assert(after.take(id as int) =~= before);
            assert forall|i: int| 0 <= i < before.len() implies !views(
                #[trigger] before[i],
                id as int,
            ) by {
                assert(cell_wf(before, i));
            }
            lemma_view_count_none(before, id as int);
            assert forall|i: int| 0 <= i < after.len() implies #[trigger] cell_wf(after, i) by {
                lemma_view_count_push(before, c, i);
                if i < id {
                    assert(cell_wf(before, i));
                    assert(after[i] == before[i]);
                    if let StrBody::View { root, off, len } = before[i].body {
                        assert(after[root as int] == before[root as int]);
                    }
                }
            }
        }
        LStr { id }
    }
}

fn copy_range(s: &[u8], a: usize, b: usize) -> (r: Vec<u8>)
    requires
        a <= b <= s@.len(),
    ensures
        r@ == s@.subrange(a as int, b as int),
{
    vstd::slice::slice_to_vec(vstd::slice::slice_subrange(s, a, b))
}

fn push_all(out: &mut Vec<u8>, s: &[u8])
    ensures
        final(out)@ == old(out)@ + s@,
{
    let mut i: usize = 0;
    assert(old(out)@ + s@.take(0) =~= old(out)@);
    while i < s.len()
        invariant
            i <= s@.len(),
            out@ == old(out)@ + s@.take(i as int),
        decreases s@.len() - i,
    {
        out.push(s[i]);
        i = i + 1;
        assert(out@ =~= old(out)@ + s@.take(i as int));
    }
    assert(s@.take(i as int) =~= s@);
}

proof fn lemma_ascii_concat(a: Seq<u8>, b: Seq<u8>)
    ensures
        all_ascii(a + b) == (all_ascii(a) && all_ascii(b)),
{
    assert forall|i: int| all_ascii(a + b) && 0 <= i < a.len() implies #[trigger] a[i] < 128 by {
        assert((a + b)[i] == a[i]);
    }
    assert forall|i: int| all_ascii(a + b) && 0 <= i < b.len() implies #[trigger] b[i] < 128 by {
        assert((a + b)[a.len() + i] == b[i]);
    }
}

/// The parts of `parts`, one after the other.
pub open spec fn joined(parts: Seq<Seq<u8>>) -> Seq<u8>
    decreases parts.len(),
{
    if parts.len() == 0 {
        Seq::empty()
    } else {
        joined(parts.drop_last()) + parts.last()
    }
}

proof fn lemma_joined_len(parts: Seq<Seq<u8>>, i: int)
    requires
        0 <= i <= parts.len(),
    ensures
        joined(parts.take(i)).len() <= joined(parts).len(),
    decreases parts.len(),
{
    if i < parts.len() {
        lemma_joined_len(parts.drop_last(), i);
        assert(parts.drop_last().take(i) =~= parts.take(i));
    } else {
        assert(parts.take(i) =~= parts);
    }
}

/// A cell that holds no string.
pub open spec fn free_cell() -> StrCell {
    StrCell { strong: 0, ascii: false, body: StrBody::Free }
}

/// The cells after one reference to string `i` (which is no view) is given up.
pub open spec fn let_go(cells: Seq<StrCell>, i: int) -> Seq<StrCell> {
    if cells[i].strong > 1 {
        cells.update(i, StrCell { strong: (cells[i].strong - 1) as usize, ..cells[i] })
    } else {
        cells.update(i, free_cell())
    }
}

/// The cells after one reference to string `i` is dropped: the last one frees it, and gives up
/// a view's reference to its root.
pub open spec fn dropped(cells: Seq<StrCell>, i: int) -> Seq<StrCell> {
    match cells[i].body {
        StrBody::View { root, off, len } => if cells[i].strong > 1 {
            let_go(cells, i)
        } else {
            let_go(cells.update(i, free_cell()), root as int)
        },
        _ => let_go(cells, i),
    }
}

/// The string that owns the bytes of string `i`.
pub open spec fn root_of(cells: Seq<StrCell>, i: int) -> int {
    match cells[i].body {
        StrBody::View { root, off, len } => root as int,
        _ => i,
    }
}

/// Where the bytes of string `i` start in its root's.
pub open spec fn start_of(cells: Seq<StrCell>, i: int) -> int {
    match cells[i].body {
        StrBody::View { root, off, len } => off as int,
        _ => 0,
    }
}

/// The cells with one more reference to `i`.
pub open spec fn counted(cells: Seq<StrCell>, i: int) -> Seq<StrCell> {
    cells.update(i, StrCell { strong: (cells[i].strong + 1) as usize, ..cells[i] })
}

pub proof fn lemma_recount(cells: Seq<StrCell>, i: int, strong: usize)
    requires
        forall|k: int| 0 <= k < cells.len() ==> #[trigger] cell_wf(cells, k),
        0 <= i < cells.len(),
        !(cells[i].body is Free),
        strong >= 1,
        view_count(cells, i) <= strong,
    ensures
        ({
            let out = cells.update(i, StrCell { strong, ..cells[i] });
            &&& forall|k: int| 0 <= k < out.len() ==> #[trigger] cell_wf(out, k)
            &&& forall|k: int| 0 <= k < out.len() ==> #[trigger] text(out, k) == text(cells, k)
            &&& forall|k: int| #[trigger] view_count(out, k) == view_count(cells, k)
        }),
{
    let c = StrCell { strong, ..cells[i] };
    let out = cells.update(i, c);
    assert forall|k: int| #[trigger] view_count(out, k) == view_count(cells, k) by {
        lemma_view_count_update(cells, i, c, k);
    }
    assert forall|k: int| 0 <= k < out.len() implies #[trigger] text(out, k) == text(cells, k) by {
        assert(cell_wf(cells, k));
    }
    assert forall|k: int| 0 <= k < out.len() implies #[trigger] cell_wf(out, k) by {
        assert(cell_wf(cells, k));
        assert(view_count(out, k) == view_count(cells, k));
        assert(text(out, k) == text(cells, k));
    }
}

pub proof fn lemma_free(cells: Seq<StrCell>, i: int)
    requires
        forall|k: int| 0 <= k < cells.len() ==> k != i ==> #[trigger] cell_wf(cells, k),
        0 <= i < cells.len(),
        view_count(cells, i) == 0,
    ensures
        ({
            let out = cells.update(i, free_cell());
            &&& forall|k: int| 0 <= k < out.len() && k != i ==> #[trigger] text(out, k) == text(
                cells,
                k,
            )
            &&& forall|k: int|
                #[trigger] view_count(out, k) == view_count(cells, k) - (if views(cells[i], k) {
                    1int
                } else {
                    0
                })
            &&& forall|k: int| 0 <= k < out.len() ==> #[trigger] cell_wf(out, k)
        }),
{
    let out = cells.update(i, free_cell());
    lemma_view_count_zero(cells, i);
    assert forall|k: int|
        #[trigger] view_count(out, k) == view_count(cells, k) - (if views(cells[i], k) {
            1int
        } else {
            0
        }) by {
        lemma_view_count_update(cells, i, free_cell(), k);
    }
    assert forall|k: int| 0 <= k < out.len() && k != i implies #[trigger] text(out, k) == text(
        cells,
        k,
    ) by {
        assert(cell_wf(cells, k));
        assert(!views(cells[k], i));
    }
    assert forall|k: int| 0 <= k < out.len() implies #[trigger] cell_wf(out, k) by {
        if k != i {
            assert(cell_wf(cells, k));
            assert(!views(cells[k], i));
            assert(view_count(out, k) <= view_count(cells, k));
            assert(text(out, k) == text(cells, k));
        }
    }
}

impl LStr {
    /// A string of the given bytes.
    pub fn from_bytes(heap: &mut StrHeap, s: &[u8]) -> (r: LStr)
        requires
            old(heap).wf(),
            s@.len() <= CAP_MASK,
        ensures
            final(heap).wf(),
            final(heap).held(r),
            grown(*old(heap), *final(heap), r, s@, s@.len() as int, all_ascii(s@)),
    {
        let ascii: bool = is_ascii(s);
        heap.place(vstd::slice::slice_to_vec(s), s.len(), ascii)
    }

    /// The two halves concatenated.
    pub fn concat2(heap: &mut StrHeap, a: &[u8], b: &[u8]) -> (r: LStr)
        requires
            old(heap).wf(),
            a@.len() + b@.len() <= CAP_MASK,
        ensures
            final(heap).wf(),
            final(heap).held(r),
            grown(
                *old(heap),
                *final(heap),
                r,
                a@ + b@,
                (a@.len() + b@.len()) as int,
                all_ascii(a@) && all_ascii(b@),
            ),
    {
        let ascii: bool = is_ascii(a) && is_ascii(b);
        let mut bytes: Vec<u8> = vstd::slice::slice_to_vec(a);
        push_all(&mut bytes, b);
        proof {
            lemma_ascii_concat(a@, b@);
        }
        heap.place(bytes, a.len() + b.len(), ascii)
    }

    /// The parts concatenated (the caller has ruled out surrogate halves meeting at a seam).
    pub fn concat_n(heap: &mut StrHeap, parts: &Vec<Vec<u8>>) -> (r: LStr)
        requires
            old(heap).wf(),
            joined(parts.deep_view()).len() <= CAP_MASK,
        ensures
            final(heap).wf(),
            final(heap).held(r),
            grown(
                *old(heap),
                *final(heap),
                r,
                joined(parts.deep_view()),
                joined(parts.deep_view()).len() as int,
                all_ascii(joined(parts.deep_view())),
            ),
    {
        let ghost ps = parts.deep_view();
        let mut bytes: Vec<u8> = Vec::new();
        let mut i: usize = 0;
        assert(ps.take(0) =~= Seq::empty());
        while i < parts.len()
            invariant
                i <= parts@.len(),
                ps == parts.deep_view(),
                bytes@ == joined(ps.take(i as int)),
            decreases parts@.len() - i,
        {
            push_all(&mut bytes, parts[i].as_slice());
            proof {
                assert(ps.take(i + 1).drop_last() =~= ps.take(i as int));
                assert(ps.take(i + 1).last() =~= parts@[i as int]@);
            }
            i = i + 1;
        }
        assert(ps.take(i as int) =~= ps);
        let n: usize = bytes.len();
        let ascii: bool = is_ascii(bytes.as_slice());
        heap.place(bytes, n, ascii)
    }

    /// Another reference to the string.
    pub fn duplicate(&self, heap: &mut StrHeap) -> (r: LStr)
        requires
            old(heap).wf(),
            old(heap).held(*self),
            old(heap).cells@[self.id as int].strong < usize::MAX,
        ensures
            final(heap).wf(),
            r.id == self.id,
            final(heap).cells@ == counted(old(heap).cells@, self.id as int),
            final(heap).held(r),
            final(heap).content(r) == old(heap).content(*self),
    {
        let ghost before = heap.cells@;
        assert(cell_wf(before, self.id as int));
        heap.cells[self.id].strong = heap.cells[self.id].strong + 1;
        proof {
            assert(heap.cells@ =~= counted(before, self.id as int));
            lemma_recount(before, self.id as int, heap.cells@[self.id as int].strong);
            assert(view_count(heap.cells@, self.id as int) == view_count(before, self.id as int));
            assert(text(heap.cells@, self.id as int) == text(before, self.id as int));
        }
        LStr { id: self.id }
    }

    /// Drops a reference to the string.
    pub fn release(self, heap: &mut StrHeap)
        requires
            old(heap).wf(),
            old(heap).held(self),
        ensures
            final(heap).wf(),
            final(heap).cells@ == dropped(old(heap).cells@, self.id as int),
    {
        let i: usize = self.id;
        let ghost before = heap.cells@;
        assert(cell_wf(before, i as int));
        if heap.cells[i].strong > 1 {
            heap.cells[i].strong = heap.cells[i].strong - 1;
            proof {
                lemma_recount(before, i as int, heap.cells@[i as int].strong);
                assert(heap.cells@ =~= let_go(before, i as int));
            }
            return ;
        }
        let root: Option<usize> = match &heap.cells[i].body {
            StrBody::View { root, .. } => Some(*root),
            _ => None,
        };
        heap.cells.set(i, StrCell { strong: 0, ascii: false, body: StrBody::Free });
        proof {
            lemma_free(before, i as int);
            assert(heap.cells@ =~= before.update(i as int, free_cell()));
        }
        if let Some(r) = root {
            let ghost mid = heap.cells@;
            proof {
                assert(cell_wf(before, r as int));
                assert(cell_wf(mid, r as int));
                assert(view_count(mid, r as int) == view_count(before, r as int) - 1);
            }
            if heap.cells[r].strong > 1 {
                heap.cells[r].strong = heap.cells[r].strong - 1;
                proof {
                    lemma_recount(mid, r as int, heap.cells@[r as int].strong);
                    assert(heap.cells@ =~= let_go(mid, r as int));
                }
            } else {
                heap.cells.set(r, StrCell { strong: 0, ascii: false, body: StrBody::Free });
                proof {
                    lemma_free(mid, r as int);
                    assert(heap.cells@ =~= let_go(mid, r as int));
                }
            }
        }
    }

    /// The string's bytes.
    pub fn as_str<'a>(&self, heap: &'a StrHeap) -> (r: &'a [u8])
        requires
            heap.wf(),
            heap.held(*self),
        ensures
            r@ == heap.content(*self),
    {
        proof {
            assert(cell_wf(heap.cells@, self.id as int));
        }
        match &heap.cells[self.id].body {
            StrBody::Own { bytes, .. } => bytes.as_slice(),
            StrBody::View { root, off, len } => {
                proof {
                    assert(cell_wf(heap.cells@, *root as int));
                }
                match &heap.cells[*root].body {
                    StrBody::Own { bytes, .. } => vstd::slice::slice_subrange(
                        bytes.as_slice(),
                        *off,
                        *off + *len,
                    ),
                    _ => &[],
                }
            },
            StrBody::Free => &[],
        }
    }

    /// Whether the content is known to be all ASCII.
    pub fn ascii_hint(&self, heap: &StrHeap) -> (r: bool)
        requires
            heap.wf(),
            heap.held(*self),
        ensures
            r == heap.cells@[self.id as int].ascii,
            r ==> all_ascii(heap.content(*self)),
    {
        proof {
            assert(cell_wf(heap.cells@, self.id as int));
        }
        heap.cells[self.id].ascii
    }

    /// Whether this string is a view.
    pub fn is_view(&self, heap: &StrHeap) -> (r: bool)
        requires
            heap.held(*self),
        ensures
            r == heap.cells@[self.id as int].body is View,
    {
        match &heap.cells[self.id].body {
            StrBody::View { .. } => true,
            _ => false,
        }
    }

    /// The string's identity.
    pub fn as_ptr(&self) -> (r: usize)
        ensures
            r == self.id,
    {
        self.id
    }

    /// Whether both are the same string.
    pub fn ptr_eq(a: &LStr, b: &LStr) -> (r: bool)
        ensures
            r == (a.id == b.id),
    {
        a.id == b.id
    }

    /// The number of references to the string.
    pub fn strong_count(&self, heap: &StrHeap) -> (r: usize)
        requires
            heap.held(*self),
        ensures
            r == heap.cells@[self.id as int].strong,
    {
        heap.cells[self.id].strong
    }

    /// Whether two strings hold the same bytes.
    pub fn same_text(a: &LStr, b: &LStr, heap: &StrHeap) -> (r: bool)
        requires
            heap.wf(),
            heap.held(*a),
            heap.held(*b),
        ensures
            r == (heap.content(*a) == heap.content(*b)),
    {
        if LStr::ptr_eq(a, b) {
            return true;
        }
        let x: &[u8] = a.as_str(heap);
        let y: &[u8] = b.as_str(heap);
        if x.len() != y.len() {
            return false;
        }
        let mut i: usize = 0;
        while i < x.len()
            invariant
                x@ == heap.content(*a),
                y@ == heap.content(*b),
                x@.len() == y@.len(),
                i <= x@.len(),
                forall|j: int| 0 <= j < i ==> x@[j] == y@[j],
            decreases x@.len() - i,
        {
            if x[i] != y[i] {
                return false;
            }
            i = i + 1;
        }
        assert(x@ =~= y@);
        true
    }
}

// ---- pieces and appends ---------------------------------------------------------------------

/// The cells with a new view of `len` bytes of `root` from `off` on, which is counted.
pub open spec fn with_view(cells: Seq<StrCell>, root: int, off: int, len: int, ascii: bool) -> Seq<
    StrCell,
> {
    counted(cells, root).push(
        StrCell {
            strong: 1,
            ascii,
            body: StrBody::View { root: root as usize, off: off as usize, len: len as usize },
        },
    )
}

/// Whether the piece `at..at + len` of string `i` becomes a view: it is long enough to be worth
/// one, and its root is.
pub open spec fn worth_a_view(cells: Seq<StrCell>, i: int, len: int, views_on: bool) -> bool {
    len >= VIEW_MIN && views_on && text(cells, root_of(cells, i)).len() >= VIEW_ROOT_MIN
}

impl LStr {
    /// The piece of `len` bytes from `at` on: a view of the root when it is long enough to be
    /// worth one (and `views_on`), else a copy; all of the string is the string itself.
    #[verifier::rlimit(60)]
    #[verifier::spinoff_prover]
    pub fn sub(&self, heap: &mut StrHeap, at: usize, len: usize, views_on: bool) -> (r: LStr)
        requires
            old(heap).wf(),
            old(heap).held(*self),
            at + len <= old(heap).content(*self).len(),
            old(heap).cells@[self.id as int].strong < usize::MAX,
            old(heap).cells@[root_of(old(heap).cells@, self.id as int)].strong < usize::MAX,
        ensures
            final(heap).wf(),
            final(heap).held(r),
            final(heap).content(r) == old(heap).content(*self).subrange(at as int, at + len),
            if at == 0 && len == old(heap).content(*self).len() {
                r.id == self.id && final(heap).cells@ == counted(
                    old(heap).cells@,
                    self.id as int,
                )
            } else if worth_a_view(old(heap).cells@, self.id as int, len as int, views_on) {
                &&& r.id == old(heap).cells@.len()
                &&& final(heap).cells@ == with_view(
                    old(heap).cells@,
                    root_of(old(heap).cells@, self.id as int),
                    start_of(old(heap).cells@, self.id as int) + at,
                    len as int,
                    old(heap).cells@[self.id as int].ascii || all_ascii(
                        old(heap).content(*self).subrange(at as int, at + len),
                    ),
                )
            } else {
                grown(
                    *old(heap),
                    *final(heap),
                    r,
                    old(heap).content(*self).subrange(at as int, at + len),
                    len as int,
                    all_ascii(old(heap).content(*self).subrange(at as int, at + len)),
                )
            },
    {
        let ghost before = heap.cells@;
        let ghost whole = heap.content(*self);
        let ghost piece = whole.subrange(at as int, at + len);
        proof {
            assert(cell_wf(before, self.id as int));
            assert(cell_wf(before, root_of(before, self.id as int)));
        }
        let bytes: &[u8] = self.as_str(heap);
        if at == 0 && len == bytes.len() {
            assert(piece =~= whole);
            return self.duplicate(heap);
        }
        let copy: Vec<u8> = copy_range(bytes, at, at + len);
        let ascii: bool = is_ascii(copy.as_slice());
        if len < VIEW_MIN || !views_on {
            let r: LStr = heap.place(copy, len, ascii);
            return r;
        }
        let (root, start): (usize, usize) = match &heap.cells[self.id].body {
            StrBody::View { root, off, .. } => (*root, *off),
            _ => (self.id, 0),
        };
        let root_len: usize = match &heap.cells[root].body {
            StrBody::Own { bytes, .. } => bytes.len(),
            _ => 0,
        };
        if root_len < VIEW_ROOT_MIN {
            let r: LStr = heap.place(copy, len, ascii);
            return r;
        }
        let known: bool = heap.cells[self.id].ascii || ascii;
        let id: usize = heap.cells.len();
        heap.cells[root].strong = heap.cells[root].strong + 1;
        let ghost mid = heap.cells@;
        heap.cells.push(
            StrCell {
                strong: 1,
                ascii: known,
                body: StrBody::View { root, off: start + at, len },
            },
        );
        proof {
            let after = heap.cells@;
            assert(mid =~= counted(before, root as int));
            lemma_recount(before, root as int, mid[root as int].strong);
            let c = after[id as int];
            assert(after =~= mid.push(c));
            assert(after =~= with_view(before, root as int, start + at, len as int, known));
            assert forall|k: int| 0 <= k < before.len() implies !views(
                #[trigger] mid[k],
                id as int,
            ) by {
                assert(cell_wf(mid, k));
            }
            lemma_view_count_none(mid, id as int);
            lemma_view_count_push(mid, c, id as int);
            assert(text(after, id as int) =~= piece);
            assert(known ==> all_ascii(piece)) by {
                if before[self.id as int].ascii {
                    assert forall|j: int| 0 <= j < piece.len() implies #[trigger] piece[j] < 128 by {
                        assert(piece[j] == whole[at + j]);
                    }
                }
            }
            assert forall|k: int| 0 <= k < after.len() implies #[trigger] cell_wf(after, k) by {
                lemma_view_count_push(mid, c, k);
                if k < id {
                    assert(cell_wf(mid, k));
                    assert(after[k] == mid[k]);
                    assert(view_count(mid, k) == view_count(before, k));
                    assert(cell_wf(before, k));
                    if let StrBody::View { root: r2, off, len } = mid[k].body {
                        assert(after[r2 as int] == mid[r2 as int]);
                        assert(text(after, k) == text(mid, k));
                    }
                }
            }
        }
        LStr { id }
    }

    /// Appends in place when this is the only reference and there is room; otherwise nothing is
    /// changed, and the caller copies.
    pub fn append_in_place(&mut self, heap: &mut StrHeap, x: &[u8]) -> (r: bool)
        requires
            old(heap).wf(),
            old(heap).held(*old(self)),
        ensures
            *final(self) == *old(self),
            final(heap).wf(),
            final(heap).held(*final(self)),
            r == has_room(old(heap).cells@[old(self).id as int], x@.len() as int),
            !r ==> final(heap).cells@ == old(heap).cells@,
            r ==> appended(old(heap).cells@, final(heap).cells@, old(self).id as int, x@),
    {
        let i: usize = self.id;
        let ghost before = heap.cells@;
        assert(cell_wf(before, i as int));
        if heap.cells[i].strong != 1 {
            return false;
        }
        let room: bool = match &heap.cells[i].body {
            StrBody::Own { bytes, cap } => x.len() <= *cap - bytes.len(),
            _ => false,
        };
        if !room {
            return false;
        }
        let ascii: bool = is_ascii(x);
        if let StrBody::Own { bytes, .. } = &mut heap.cells[i].body {
            push_all(bytes, x);
        }
        if !ascii {
            heap.cells[i].ascii = false;
        }
        proof {
            let after = heap.cells@;
            let c = after[i as int];
            assert(after =~= before.update(i as int, c));
            lemma_view_count_zero(before, i as int);
            lemma_ascii_concat(text(before, i as int), x@);
            assert forall|k: int| 0 <= k < after.len() implies #[trigger] cell_wf(after, k) by {
                assert(cell_wf(before, k));
                lemma_view_count_update(before, i as int, c, k);
                assert(!views(before[k], i as int));
                if k != i {
                    assert(text(after, k) == text(before, k));
                }
            }
            lemma_view_count_update(before, i as int, c, i as int);
        }
        true
    }

    /// `self + x` in a new string with room to grow: twice what is needed (within limits), so a
    /// rebuilt accumulator amortizes the next appends.
    pub fn concat_grown(&self, heap: &mut StrHeap, x: &[u8]) -> (r: LStr)
        requires
            old(heap).wf(),
            old(heap).held(*self),
            old(heap).content(*self).len() + x@.len() <= CAP_MASK,
        ensures
            final(heap).wf(),
            final(heap).held(r),
            grown(
                *old(heap),
                *final(heap),
                r,
                old(heap).content(*self) + x@,
                grown_cap((old(heap).content(*self).len() + x@.len()) as int),
                all_ascii(old(heap).content(*self) + x@),
            ),
    {
        let old_bytes: &[u8] = self.as_str(heap);
        let mut bytes: Vec<u8> = vstd::slice::slice_to_vec(old_bytes);
        push_all(&mut bytes, x);
        let need: usize = bytes.len();
        let twice: usize = if need * 2 > GROW_MIN {
            need * 2
        } else {
            GROW_MIN
        };
        let cap: usize = if twice < CAP_MASK {
            twice
        } else {
            CAP_MASK
        };
        let ascii: bool = is_ascii(bytes.as_slice());
        heap.place(bytes, cap, ascii)
    }
}

/// The capacity that a string of `need` bytes grows to.
pub open spec fn grown_cap(need: int) -> int {
    let twice = if need * 2 > GROW_MIN {
        need * 2
    } else {
        GROW_MIN as int
    };
    if twice < CAP_MASK {
        twice
    } else {
        CAP_MASK as int
    }
}

/// Whether `n` bytes can be appended to the cell in place.
pub open spec fn has_room(c: StrCell, n: int) -> bool {
    c.strong == 1 && (c.body matches StrBody::Own { bytes, cap } && bytes@.len() + n <= cap)
}

/// `x` was appended to string `i`, and nothing else changed.
pub open spec fn appended(before: Seq<StrCell>, after: Seq<StrCell>, i: int, x: Seq<u8>) -> bool {
    &&& after.len() == before.len()
    &&& forall|k: int| 0 <= k < before.len() && k != i ==> #[trigger] after[k] == before[k]
    &&& text(after, i) == text(before, i) + x
    &&& after[i].strong == 1
    &&& after[i].ascii == (before[i].ascii && all_ascii(x))
}

/// An append is invisible to every other string.
pub proof fn lemma_append_is_private(
    heap: StrHeap,
    after: Seq<StrCell>,
    s: LStr,
    x: Seq<u8>,
    other: LStr,
)
    requires
        heap.wf(),
        heap.held(s),
        has_room(heap.cells@[s.id as int], x.len() as int),
        appended(heap.cells@, after, s.id as int, x),
        other.id < heap.cells@.len(),
        other.id != s.id,
    ensures
        text(after, other.id as int) == heap.content(other),
{
    assert(cell_wf(heap.cells@, other.id as int));
    lemma_view_count_zero(heap.cells@, s.id as int);
    assert(!views(heap.cells@[other.id as int], s.id as int));
}

} // verus!
