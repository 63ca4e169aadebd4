//! Compacting the roots that only views still reference.

use crate::lstr::{
    all_ascii, cell_wf, free_cell, lemma_view_count_none, lemma_view_count_zero, text, view_count,
    views, LStr, StrBody, StrCell, StrHeap, CAP_MASK,
};
use vstd::prelude::*;

verus! {

/// The view `c` covers byte `i` of root `r`.
pub open spec fn covers(c: StrCell, r: int, i: int) -> bool {
    c.body matches StrBody::View { root, off, len } && root == r && off <= i < off + len
}

/// Some view covers byte `i` of root `r`.
pub open spec fn used(cells: Seq<StrCell>, r: int, i: int) -> bool {
    exists|v: int| 0 <= v < cells.len() && covers(#[trigger] cells[v], r, i)
}

/// Those of the first `n` bytes of root `r` that views cover, in order.
pub open spec fn kept(cells: Seq<StrCell>, r: int, n: nat) -> Seq<u8>
    decreases n,
{
    if n == 0 {
        Seq::empty()
    } else {
        let init = kept(cells, r, (n - 1) as nat);
        if used(cells, r, n - 1) {
            init.push(text(cells, r)[n - 1])
        } else {
            init
        }
    }
}

/// The sum of the lengths of the views of root `r` (overlaps counted twice).
pub open spec fn view_bytes(cells: Seq<StrCell>, r: int) -> nat
    decreases cells.len(),
{
    if cells.len() == 0 {
        0
    } else {
        view_bytes(cells.drop_last(), r) + match cells.last().body {
            StrBody::View { root, off, len } => if root == r {
                len as nat
            } else {
                0
            },
            _ => 0,
        }
    }
}

/// Whether root `r` is compacted: only its views reference it, and they cover less than half of
/// it.
pub open spec fn compactable(cells: Seq<StrCell>, r: int) -> bool {
    &&& cells[r].body matches StrBody::Own { bytes, cap } && view_bytes(cells, r) < bytes@.len() / 2
    &&& view_count(cells, r) > 0
    &&& cells[r].strong == view_count(cells, r)
}

/// What compacting root `r` frees.
pub open spec fn saved(cells: Seq<StrCell>, r: int) -> int {
    text(cells, r).len() - kept(cells, r, text(cells, r).len()).len()
}

/// What compacting all of the first `n` strings that are due frees.
pub open spec fn saved_below(cells: Seq<StrCell>, n: nat) -> int
    decreases n,
{
    if n == 0 {
        0
    } else {
        saved_below(cells, (n - 1) as nat) + if compactable(cells, n - 1) {
            saved(cells, n - 1)
        } else {
            0
        }
    }
}

/// Root `r` was compacted: the bytes its views cover stand in a new string, the views point
/// there, and the root is free.
pub open spec fn compacted(before: Seq<StrCell>, after: Seq<StrCell>, r: int) -> bool {
    let new = before.len() as int;
    &&& after.len() == new + 1
    &&& after[r] == free_cell()
    &&& after[new].strong == before[r].strong
    &&& after[new].ascii == before[r].ascii
    &&& after[new].body matches StrBody::Own { bytes, cap } && bytes@ == kept(
        before,
        r,
        text(before, r).len(),
    ) && cap == bytes@.len()
    &&& forall|k: int|
        0 <= k < new && k != r ==> #[trigger] after[k] == (match before[k].body {
            StrBody::View { root, off, len } => if root == r {
                StrCell {
                    body: StrBody::View {
                        root: new as usize,
                        off: kept(before, r, off as nat).len() as usize,
                        len,
                    },
                    ..before[k]
                }
            } else {
                before[k]
            },
            _ => before[k],
        })
}

// ---- what the covered bytes are -------------------------------------------------------------

proof fn lemma_kept_prefix(cells: Seq<StrCell>, r: int, n: nat, m: nat)
    requires
        n <= m,
    ensures
        kept(cells, r, n).len() <= kept(cells, r, m).len(),
        kept(cells, r, m).take(kept(cells, r, n).len() as int) == kept(cells, r, n),
        kept(cells, r, m).len() <= m,
    decreases m,
{
    if n < m {
        lemma_kept_prefix(cells, r, n, (m - 1) as nat);
        let a = kept(cells, r, n);
        let b = kept(cells, r, (m - 1) as nat);
        assert(kept(cells, r, m).take(a.len() as int) =~= b.take(a.len() as int));
    } else {
        assert(kept(cells, r, m).take(kept(cells, r, n).len() as int) =~= kept(cells, r, n));
        if m > 0 {
            lemma_kept_prefix(cells, r, (m - 1) as nat, (m - 1) as nat);
        }
    }
}

/// A covered run of bytes stays a run.
proof fn lemma_kept_run(cells: Seq<StrCell>, r: int, off: nat, len: nat)
    requires
        forall|i: int| off <= i < off + len ==> used(cells, r, i),
        off + len <= text(cells, r).len(),
    ensures
        kept(cells, r, off + len) == kept(cells, r, off) + text(cells, r).subrange(
            off as int,
            (off + len) as int,
        ),
    decreases len,
{
    let t = text(cells, r);
    if len == 0 {
        assert(kept(cells, r, off) + t.subrange(off as int, off as int) =~= kept(cells, r, off));
    } else {
        lemma_kept_run(cells, r, off, (len - 1) as nat);
        assert(used(cells, r, off + len - 1));
        assert(kept(cells, r, off + len) =~= kept(cells, r, off) + t.subrange(
            off as int,
            (off + len) as int,
        ));
    }
}

proof fn lemma_kept_ascii(cells: Seq<StrCell>, r: int, n: nat)
    requires
        all_ascii(text(cells, r)),
        n <= text(cells, r).len(),
    ensures
        all_ascii(kept(cells, r, n)),
    decreases n,
{
    if n > 0 {
        lemma_kept_ascii(cells, r, (n - 1) as nat);
    }
}

proof fn lemma_count_same(a: Seq<StrCell>, ra: int, b: Seq<StrCell>, rb: int)
    requires
        a.len() == b.len(),
        forall|k: int| 0 <= k < a.len() ==> views(#[trigger] a[k], ra) == views(b[k], rb),
    ensures
        view_count(a, ra) == view_count(b, rb),
    decreases a.len(),
{
    if a.len() > 0 {
        assert forall|k: int| 0 <= k < a.len() - 1 implies views(
            #[trigger] a.drop_last()[k],
            ra,
        ) == views(b.drop_last()[k], rb) by {
            assert(a.drop_last()[k] == a[k]);
            assert(b.drop_last()[k] == b[k]);
        }
        lemma_count_same(a.drop_last(), ra, b.drop_last(), rb);
        assert(views(a[a.len() - 1], ra) == views(b[b.len() - 1], rb));
    }
}

/// Compacting keeps the heap's invariant, and every string but the root keeps its bytes.
proof fn lemma_compacted(before: Seq<StrCell>, after: Seq<StrCell>, r: int)
    requires
        forall|k: int| 0 <= k < before.len() ==> #[trigger] cell_wf(before, k),
        0 <= r < before.len(),
        before.len() < usize::MAX,
        before[r].body is Own,
        before[r].strong == view_count(before, r),
        compacted(before, after, r),
    ensures
        forall|k: int| 0 <= k < after.len() ==> #[trigger] cell_wf(after, k),
        forall|k: int| 0 <= k < before.len() && k != r ==> #[trigger] text(after, k) == text(
            before,
            k,
        ),
        forall|k: int|
            0 <= k < before.len() && k != r ==> #[trigger] view_count(after, k) == view_count(
                before,
                k,
            ),
        view_count(after, before.len() as int) == view_count(before, r),
        view_count(after, r) == 0,
{
    let new = before.len() as int;
    let t = text(before, r);
    let init = after.drop_last();
    assert(cell_wf(before, r));
    assert forall|k: int| 0 <= k < new implies !views(#[trigger] before[k], new) by {
        assert(cell_wf(before, k));
    }
    assert(!views(before[r], r));
    // The views moved over.
    assert forall|k: int| 0 <= k < init.len() implies views(#[trigger] init[k], new) == views(
        before[k],
        r,
    ) by {
        assert(init[k] == after[k]);
        assert(!views(before[k], new));
    }
    lemma_count_same(init, new, before, r);
    assert forall|k: int| 0 <= k < init.len() implies !views(#[trigger] init[k], r) by {
        assert(init[k] == after[k]);
    }
    lemma_view_count_none(init, r);
    assert(after.last() == after[new]);
    assert forall|k: int| 0 <= k < new && k != r implies #[trigger] view_count(after, k)
        == view_count(before, k) by {
        assert forall|j: int| 0 <= j < init.len() implies views(#[trigger] init[j], k) == views(
            before[j],
            k,
        ) by {
            assert(init[j] == after[j]);
        }
        lemma_count_same(init, k, before, k);
    }
    assert forall|k: int| 0 <= k < new && k != r implies #[trigger] text(after, k) == text(
        before,
        k,
    ) by {
        assert(cell_wf(before, k));
        if let StrBody::View { root, off, len } = before[k].body {
            if root == r {
                assert forall|i: int| off <= i < off + len implies used(before, r, i) by {
                    assert(covers(before[k], r, i));
                }
                lemma_kept_run(before, r, off as nat, len as nat);
                lemma_kept_prefix(before, r, (off + len) as nat, t.len());
                lemma_kept_prefix(before, r, off as nat, (off + len) as nat);
                let all = kept(before, r, t.len());
                let at = kept(before, r, off as nat).len() as int;
                assert(all.take(at + len) == kept(before, r, (off + len) as nat));
                assert(all.subrange(at, at + len) =~= all.take(at + len).subrange(at, at + len));
                assert(text(after, k) =~= t.subrange(off as int, off + len));
            } else {
                assert(root != new);
                assert(after[root as int] == before[root as int]);
            }
        }
    }
    lemma_kept_prefix(before, r, t.len(), t.len());
    if before[r].ascii {
        lemma_kept_ascii(before, r, t.len());
    }
    assert forall|k: int| 0 <= k < after.len() implies #[trigger] cell_wf(after, k) by {
        if k == r {
        } else if k == new {
        } else {
            assert(cell_wf(before, k));
            assert(view_count(after, k) == view_count(before, k));
            assert(text(after, k) == text(before, k));
            if let StrBody::View { root, off, len } = before[k].body {
                if root == r {
                    assert forall|i: int| off <= i < off + len implies used(before, r, i) by {
                        assert(covers(before[k], r, i));
                    }
                    lemma_kept_run(before, r, off as nat, len as nat);
                    lemma_kept_prefix(before, r, (off + len) as nat, t.len());
                } else {
                    assert(after[root as int] == before[root as int]);
                }
            }
        }
    }
}

// ---- compacting one root --------------------------------------------------------------------

/// Whether root `r` is due for compaction.
fn due(cells: &Vec<StrCell>, r: usize) -> (b: bool)
    requires
        r < cells@.len(),
        forall|k: int| 0 <= k < cells@.len() ==> #[trigger] cell_wf(cells@, k),
    ensures
        b == compactable(cells@, r as int),
{
    let half: usize = match &cells[r].body {
        StrBody::Own { bytes, .. } => bytes.len() / 2,
        _ => {
            return false;
        },
    };
    let mut count: usize = 0;
    let mut sum: usize = 0;
    let mut i: usize = 0;
    proof {
        assert(cell_wf(cells@, r as int));
        assert(cells@.take(0) =~= Seq::empty());
    }
    while i < cells.len()
        invariant
            i <= cells@.len(),
            r < cells@.len(),
            half <= CAP_MASK,
            forall|k: int| 0 <= k < cells@.len() ==> #[trigger] cell_wf(cells@, k),
            cells@[r as int].body matches StrBody::Own { bytes, cap } && half == bytes@.len() / 2,
            count <= i,
            count == view_count(cells@.take(i as int), r as int),
            sum == view_bytes(cells@.take(i as int), r as int),
            sum < half || count == 0,
            count == 0 ==> sum == 0,
        decreases cells@.len() - i,
    {
        proof {
            assert(cells@.take(i + 1).drop_last() =~= cells@.take(i as int));
            assert(cells@.take(i + 1).last() == cells@[i as int]);
            assert(cell_wf(cells@, i as int));
        }
        if let StrBody::View { root, len, .. } = &cells[i].body {
            if *root == r {
                proof {
                    assert(cell_wf(cells@, r as int));
                }
                count = count + 1;
                sum = sum + *len;
                if sum >= half {
                    proof {
                        lemma_view_bytes_grow(cells@, r as int, i + 1);
                    }
                    return false;
                }
            }
        }
        i = i + 1;
    }
    assert(cells@.take(i as int) =~= cells@);
    count > 0 && cells[r].strong == count
}

proof fn lemma_view_bytes_grow(cells: Seq<StrCell>, r: int, n: int)
    requires
        0 <= n <= cells.len(),
    ensures
        view_bytes(cells.take(n), r) <= view_bytes(cells, r),
    decreases cells.len(),
{
    if n < cells.len() {
        lemma_view_bytes_grow(cells.drop_last(), r, n);
        assert(cells.drop_last().take(n) =~= cells.take(n));
    } else {
        assert(cells.take(n) =~= cells);
    }
}

/// Marks the bytes of root `r` that views cover.
fn mark(cells: &Vec<StrCell>, r: usize, n: usize) -> (m: Vec<bool>)
    requires
        r < cells@.len(),
        forall|k: int| 0 <= k < cells@.len() ==> #[trigger] cell_wf(cells@, k),
        cells@[r as int].body matches StrBody::Own { bytes, cap } && n == bytes@.len(),
    ensures
        m@.len() == n,
        forall|i: int| 0 <= i < n ==> #[trigger] m@[i] == used(cells@, r as int, i),
{
    let mut m: Vec<bool> = Vec::new();
    let mut i: usize = 0;
    assert(cell_wf(cells@, r as int));
    while i < n
        invariant
            i <= n,
            m@.len() == i,
            forall|j: int| 0 <= j < i ==> !(#[trigger] m@[j]),
        decreases n - i,
    {
        m.push(false);
        i = i + 1;
    }
    let mut v: usize = 0;
    while v < cells.len()
        invariant
            v <= cells@.len(),
            m@.len() == n,
            r < cells@.len(),
            n <= CAP_MASK,
            forall|k: int| 0 <= k < cells@.len() ==> #[trigger] cell_wf(cells@, k),
            cells@[r as int].body matches StrBody::Own { bytes, cap } && n == bytes@.len(),
            forall|i: int|
                0 <= i < n ==> (#[trigger] m@[i] <==> exists|k: int|
                    0 <= k < v && covers(#[trigger] cells@[k], r as int, i)),
        decreases cells@.len() - v,
    {
        proof {
            assert(cell_wf(cells@, v as int));
        }
        let ghost before = m@;
        if let StrBody::View { root, off, len } = &cells[v].body {
            if *root == r {
                let end: usize = *off + *len;
                let mut j: usize = *off;
                while j < end
                    invariant
                        *off <= j <= end <= n,
                        end == *off + *len,
                        m@.len() == n,
                        before.len() == n,
                        forall|i: int|
                            0 <= i < n ==> #[trigger] m@[i] == (before[i] || *off <= i < j),
                    decreases end - j,
                {
                    m.set(j, true);
                    j = j + 1;
                }
            }
        }
        proof {
            assert forall|i: int| 0 <= i < n implies (#[trigger] m@[i] <==> exists|k: int|
                0 <= k < v + 1 && covers(#[trigger] cells@[k], r as int, i)) by {
                assert(before[i] <==> exists|k: int|
                    0 <= k < v && covers(#[trigger] cells@[k], r as int, i));
                if m@[i] {
                    if before[i] {
                        let k = choose|k: int|
                            0 <= k < v && covers(#[trigger] cells@[k], r as int, i);
                        assert(0 <= k < v + 1 && covers(cells@[k], r as int, i));
                    } else {
                        assert(covers(cells@[v as int], r as int, i));
                    }
                }
            }
        }
        v = v + 1;
    }
    m
}

/// Compacts root `r`: what that frees.
fn compact_one(heap: &mut StrHeap, r: usize) -> (freed: usize)
    requires
        old(heap).wf(),
        r < old(heap).cells@.len(),
        old(heap).cells@.len() < usize::MAX,
        compactable(old(heap).cells@, r as int),
    ensures
        final(heap).wf(),
        compacted(old(heap).cells@, final(heap).cells@, r as int),
        freed == saved(old(heap).cells@, r as int),
{
    let ghost before = heap.cells@;
    let ghost t = text(before, r as int);
    proof {
        assert(cell_wf(before, r as int));
    }
    let n: usize = match &heap.cells[r].body {
        StrBody::Own { bytes, .. } => bytes.len(),
        _ => 0,
    };
    let marks: Vec<bool> = mark(&heap.cells, r, n);
    let mut bytes: Vec<u8> = Vec::new();
    let mut rank: Vec<usize> = Vec::new();
    let mut i: usize = 0;
    while i < n
        invariant
            i <= n,
            heap.cells@ == before,
            r < before.len(),
            t == text(before, r as int),
            before[r as int].body is Own,
            n == t.len(),
            marks@.len() == n,
            forall|j: int| 0 <= j < n ==> #[trigger] marks@[j] == used(before, r as int, j),
            bytes@ == kept(before, r as int, i as nat),
            rank@.len() == i,
            forall|j: int|
                0 <= j < i ==> #[trigger] rank@[j] == kept(before, r as int, j as nat).len(),
        decreases n - i,
    {
        rank.push(bytes.len());
        if marks[i] {
            if let StrBody::Own { bytes: old_bytes, .. } = &heap.cells[r].body {
                bytes.push(old_bytes[i]);
            }
        }
        i = i + 1;
    }
    proof {
        lemma_kept_prefix(before, r as int, n as nat, n as nat);
    }
    let total: usize = bytes.len();
    let new: usize = heap.cells.len();
    let strong: usize = heap.cells[r].strong;
    let ascii: bool = heap.cells[r].ascii;
    let mut k: usize = 0;
    while k < new
        invariant
            k <= new,
            new == before.len(),
            heap.cells@.len() == new,
            n == t.len(),
            n <= CAP_MASK,
            r < new,
            t == text(before, r as int),
            before[r as int].body matches StrBody::Own { bytes: b, cap: c } && b@ == t,
            forall|j: int| 0 <= j < before.len() ==> #[trigger] cell_wf(before, j),
            rank@.len() == n,
            forall|j: int|
                0 <= j < n ==> #[trigger] rank@[j] == kept(before, r as int, j as nat).len(),
            forall|j: int| k <= j < new ==> #[trigger] heap.cells@[j] == before[j],
            forall|j: int|
                0 <= j < k ==> #[trigger] heap.cells@[j] == (match before[j].body {
                    StrBody::View { root, off, len } => if root == r {
                        StrCell {
                            body: StrBody::View {
                                root: new,
                                off: kept(before, r as int, off as nat).len() as usize,
                                len,
                            },
                            ..before[j]
                        }
                    } else {
                        before[j]
                    },
                    _ => before[j],
                }),
        decreases new - k,
    {
        proof {
            assert(cell_wf(before, k as int));
        }
        if let StrBody::View { root, off, len } = &heap.cells[k].body {
            if *root == r {
                let at: usize = rank[*off];
                let l: usize = *len;
                heap.cells[k].body = StrBody::View { root: new, off: at, len: l };
            }
        }
        k = k + 1;
    }
    heap.cells.set(r, StrCell { strong: 0, ascii: false, body: StrBody::Free });
    heap.cells.push(StrCell { strong, ascii, body: StrBody::Own { bytes, cap: total } });
    proof {
        assert(compacted(before, heap.cells@, r as int));
        lemma_compacted(before, heap.cells@, r as int);
    }
    n - total
}

// ---- compacting all that is due -------------------------------------------------------------

proof fn lemma_view_bytes_same(a: Seq<StrCell>, b: Seq<StrCell>, r: int)
    requires
        a.len() == b.len(),
        forall|k: int|
            0 <= k < a.len() && (views(#[trigger] a[k], r) || views(b[k], r)) ==> a[k] == b[k],
    ensures
        view_bytes(a, r) == view_bytes(b, r),
    decreases a.len(),
{
    if a.len() > 0 {
        assert forall|k: int|
            0 <= k < a.len() - 1 && (views(#[trigger] a.drop_last()[k], r) || views(
                b.drop_last()[k],
                r,
            )) implies a.drop_last()[k] == b.drop_last()[k] by {
            assert(a.drop_last()[k] == a[k]);
            assert(b.drop_last()[k] == b[k]);
        }
        lemma_view_bytes_same(a.drop_last(), b.drop_last(), r);
        let i = a.len() - 1;
        assert(views(a[i], r) || views(b[i], r) ==> a[i] == b[i]);
    }
}

proof fn lemma_kept_same(a: Seq<StrCell>, b: Seq<StrCell>, k: int, n: nat)
    requires
        forall|i: int| #[trigger] used(a, k, i) == used(b, k, i),
        text(a, k) == text(b, k),
    ensures
        kept(a, k, n) == kept(b, k, n),
    decreases n,
{
    if n > 0 {
        lemma_kept_same(a, b, k, (n - 1) as nat);
        assert(used(a, k, n - 1) == used(b, k, n - 1));
    }
}

/// Compacting one root leaves what is due elsewhere as it was.
proof fn lemma_compacted_elsewhere(before: Seq<StrCell>, after: Seq<StrCell>, r: int, k: int)
    requires
        forall|k: int| 0 <= k < before.len() ==> #[trigger] cell_wf(before, k),
        0 <= r < before.len(),
        0 <= k < before.len(),
        k != r,
        before.len() < usize::MAX,
        compactable(before, r),
        compacted(before, after, r),
    ensures
        compactable(after, k) == compactable(before, k),
        compactable(before, k) ==> saved(after, k) == saved(before, k),
{
    lemma_compacted(before, after, r);
    let new = before.len() as int;
    let init = after.drop_last();
    assert(text(after, k) == text(before, k));
    assert(view_count(after, k) == view_count(before, k));
    assert(after[k].strong == before[k].strong);
    if before[k].body is Own {
        assert forall|j: int|
            0 <= j < init.len() && (views(#[trigger] init[j], k) || views(before[j], k)) implies init[j]
            == before[j] by {
            assert(init[j] == after[j]);
        }
        lemma_view_bytes_same(init, before, k);
        assert(after.last() == after[new]);
        assert forall|i: int| #[trigger] used(after, k, i) == used(before, k, i) by {
            if used(after, k, i) {
                let v = choose|v: int| 0 <= v < after.len() && covers(#[trigger] after[v], k, i);
                assert(covers(before[v], k, i));
            }
            if used(before, k, i) {
                let v = choose|v: int| 0 <= v < before.len() && covers(#[trigger] before[v], k, i);
                assert(after[v] == before[v]);
                assert(covers(after[v], k, i));
            }
        }
        lemma_kept_same(after, before, k, text(before, k).len());
    }
}

/// The bytes that views cover are at most as many as the views' lengths together.
proof fn lemma_kept_at_most(cells: Seq<StrCell>, r: int, n: nat)
    ensures
        kept(cells, r, n).len() <= view_bytes(cells, r),
    decreases cells.len(),
{
    if cells.len() == 0 {
        lemma_kept_none(cells, r, n);
    } else {
        lemma_kept_at_most(cells.drop_last(), r, n);
        lemma_kept_step(cells, r, n);
    }
}

proof fn lemma_kept_none(cells: Seq<StrCell>, r: int, n: nat)
    requires
        cells.len() == 0,
    ensures
        kept(cells, r, n).len() == 0,
    decreases n,
{
    if n > 0 {
        lemma_kept_none(cells, r, (n - 1) as nat);
        assert(!used(cells, r, n - 1));
    }
}

/// How many of the first `n` bytes the view `c` covers.
spec fn reach(c: StrCell, r: int, n: int) -> int {
    match c.body {
        StrBody::View { root, off, len } => if root != r || n <= off {
            0
        } else if n < off + len {
            n - off
        } else {
            len as int
        },
        _ => 0,
    }
}

proof fn lemma_kept_step(cells: Seq<StrCell>, r: int, n: nat)
    requires
        cells.len() > 0,
    ensures
        kept(cells, r, n).len() <= kept(cells.drop_last(), r, n).len() + reach(
            cells.last(),
            r,
            n as int,
        ),
    decreases n,
{
    if n > 0 {
        lemma_kept_step(cells, r, (n - 1) as nat);
        let init = cells.drop_last();
        if used(cells, r, n - 1) && !used(init, r, n - 1) {
            let v = choose|v: int| 0 <= v < cells.len() && covers(#[trigger] cells[v], r, n - 1);
            if v < init.len() {
                assert(covers(init[v], r, n - 1));
            }
            assert(covers(cells.last(), r, n - 1));
        }
    }
}

/// A compacted root's new string is not due.
proof fn lemma_compacted_once(before: Seq<StrCell>, after: Seq<StrCell>, r: int)
    requires
        forall|k: int| 0 <= k < before.len() ==> #[trigger] cell_wf(before, k),
        0 <= r < before.len(),
        before.len() < usize::MAX,
        compactable(before, r),
        compacted(before, after, r),
    ensures
        !compactable(after, before.len() as int),
        !compactable(after, r),
{
    lemma_compacted(before, after, r);
    let new = before.len() as int;
    let init = after.drop_last();
    let n = text(before, r).len();
    lemma_kept_at_most(before, r, n);
    assert(after.last() == after[new]);
    assert forall|k: int| 0 <= k < before.len() implies views(#[trigger] before[k], r) == views(
        init[k],
        new,
    ) && (views(before[k], r) ==> before[k].body->len == init[k].body->len) by {
        assert(cell_wf(before, k));
        assert(init[k] == after[k]);
    }
    lemma_view_bytes_moved(before, init, r, new);
}

proof fn lemma_view_bytes_moved(a: Seq<StrCell>, b: Seq<StrCell>, r: int, new: int)
    requires
        a.len() == b.len(),
        forall|k: int|
            0 <= k < a.len() ==> views(#[trigger] a[k], r) == views(b[k], new) && (views(a[k], r)
                ==> a[k].body->len == b[k].body->len),
    ensures
        view_bytes(a, r) == view_bytes(b, new),
    decreases a.len(),
{
    if a.len() > 0 {
        assert forall|k: int| 0 <= k < a.len() - 1 implies views(#[trigger] a.drop_last()[k], r)
            == views(b.drop_last()[k], new) && (views(a.drop_last()[k], r)
            ==> a.drop_last()[k].body->len == b.drop_last()[k].body->len) by {
            assert(a.drop_last()[k] == a[k]);
            assert(b.drop_last()[k] == b[k]);
        }
        lemma_view_bytes_moved(a.drop_last(), b.drop_last(), r, new);
        let i = a.len() - 1;
        assert(views(a[i], r) == views(b[i], new));
    }
}

/// String `k` is as it was, if someone other than a view held it.
spec fn same_when_held(before: Seq<StrCell>, after: Seq<StrCell>, k: int) -> bool {
    before[k].strong > view_count(before, k) ==> {
        &&& after[k].strong == before[k].strong
        &&& view_count(after, k) == view_count(before, k)
        &&& text(after, k) == text(before, k)
    }
}

pub open spec fn clipped(n: int) -> usize {
    if n > usize::MAX {
        usize::MAX
    } else {
        n as usize
    }
}

/// Compacts the roots only views still reference and that the views cover less than half of: the
/// bytes freed. Every string that is held keeps its bytes, and nothing is left to compact.
pub fn compact_views(heap: &mut StrHeap) -> (freed: usize)
    requires
        old(heap).wf(),
        old(heap).cells@.len() * 2 < usize::MAX,
    ensures
        final(heap).wf(),
        freed == clipped(saved_below(old(heap).cells@, old(heap).cells@.len())),
        forall|s: LStr|
            #[trigger] old(heap).held(s) ==> final(heap).held(s) && final(heap).content(s) == old(
                heap).content(s),
        forall|k: int|
            0 <= k < final(heap).cells@.len() ==> !(#[trigger] compactable(final(heap).cells@, k)),
{
    let ghost first = heap.cells@;
    let n: usize = heap.cells.len();
    let mut freed: usize = 0;
    let ghost mut sum: int = 0;
    let mut r: usize = 0;
    while r < n
        invariant
            heap.wf(),
            r <= n,
            n == first.len(),
            n * 2 < usize::MAX,
            n <= heap.cells@.len() <= n + r,
            first == old(heap).cells@,
            forall|k: int| 0 <= k < n ==> #[trigger] cell_wf(first, k),
            sum == saved_below(first, r as nat),
            sum >= 0,
            freed == clipped(sum),
            forall|k: int|
                r <= k < n ==> #[trigger] compactable(heap.cells@, k) == compactable(first, k),
            forall|k: int|
                r <= k < n && compactable(first, k) ==> #[trigger] saved(heap.cells@, k) == saved(
                    first,
                    k,
                ),
            forall|k: int| 0 <= k < r ==> !(#[trigger] compactable(heap.cells@, k)),
            forall|k: int|
                n <= k < heap.cells@.len() ==> !(#[trigger] compactable(heap.cells@, k)),
            forall|k: int| 0 <= k < n ==> #[trigger] same_when_held(first, heap.cells@, k),
        decreases n - r,
    {
        let ghost before = heap.cells@;
        if due(&heap.cells, r) {
            proof {
                assert(compactable(heap.cells@, r as int) == compactable(first, r as int));
                assert(saved(heap.cells@, r as int) == saved(first, r as int));
            }
            let f: usize = compact_one(heap, r);
            freed = freed.saturating_add(f);
            proof {
                let after = heap.cells@;
                sum = sum + f;
                lemma_compacted(before, after, r as int);
                lemma_compacted_once(before, after, r as int);
                assert forall|k: int| r + 1 <= k < n implies #[trigger] compactable(after, k)
                    == compactable(first, k) by {
                    assert(compactable(before, k) == compactable(first, k));
                    lemma_compacted_elsewhere(before, after, r as int, k);
                }
                assert forall|k: int| r + 1 <= k < n && compactable(first, k) implies #[trigger] saved(
                    after,
                    k,
                ) == saved(first, k) by {
                    assert(compactable(before, k) == compactable(first, k));
                    assert(saved(before, k) == saved(first, k));
                    lemma_compacted_elsewhere(before, after, r as int, k);
                }
                assert forall|k: int| 0 <= k < r + 1 implies !(#[trigger] compactable(after, k)) by {
                    if k < r {
                        assert(!compactable(before, k));
                        lemma_compacted_elsewhere(before, after, r as int, k);
                    }
                }
                assert forall|k: int| n <= k < after.len() implies !(#[trigger] compactable(
                    after,
                    k,
                )) by {
                    if k < before.len() {
                        assert(!compactable(before, k));
                        lemma_compacted_elsewhere(before, after, r as int, k);
                    }
                }
                assert forall|k: int| 0 <= k < n implies #[trigger] same_when_held(
                    first,
                    after,
                    k,
                ) by {
                    assert(same_when_held(first, before, k));
                    if k != r {
                        assert(text(after, k) == text(before, k));
                        assert(view_count(after, k) == view_count(before, k));
                    }
                }
            }
        } else {
            assert(compactable(heap.cells@, r as int) == compactable(first, r as int));
        }
        r = r + 1;
    }
    proof {
        assert forall|s: LStr| #[trigger] old(heap).held(s) implies heap.held(s) && heap.content(s)
            == old(heap).content(s) by {
            assert(same_when_held(first, heap.cells@, s.id as int));
        }
    }
    freed
}

// ---- statistics -----------------------------------------------------------------------------

/// The number of views.
pub open spec fn view_total(cells: Seq<StrCell>) -> nat
    decreases cells.len(),
{
    if cells.len() == 0 {
        0
    } else {
        view_total(cells.drop_last()) + if cells.last().body is View {
            1nat
        } else {
            0
        }
    }
}

/// The number of strings among the first `n` that have views, and their bytes.
pub open spec fn root_total(cells: Seq<StrCell>, n: nat) -> (nat, nat)
    decreases n,
{
    if n == 0 {
        (0, 0)
    } else {
        let (roots, bytes) = root_total(cells, (n - 1) as nat);
        if view_count(cells, n - 1) > 0 {
            (roots + 1, bytes + text(cells, n - 1).len())
        } else {
            (roots, bytes)
        }
    }
}

fn has_views(cells: &Vec<StrCell>, r: usize) -> (b: bool)
    ensures
        b == (view_count(cells@, r as int) > 0),
{
    let mut i: usize = 0;
    while i < cells.len()
        invariant
            i <= cells@.len(),
            forall|k: int| 0 <= k < i ==> !views(#[trigger] cells@[k], r as int),
        decreases cells@.len() - i,
    {
        if let StrBody::View { root, .. } = &cells[i].body {
            if *root == r {
                proof {
                    if view_count(cells@, r as int) == 0 {
                        lemma_view_count_zero(cells@, r as int);
                        assert(views(cells@[i as int], r as int));
                    }
                }
                return true;
            }
        }
        i = i + 1;
    }
    proof {
        lemma_view_count_none(cells@, r as int);
    }
    false
}

/// The strings that have views, the views, and the bytes of the former.
pub fn view_stats(heap: &StrHeap) -> (r: (usize, usize, usize))
    requires
        heap.wf(),
    ensures
        r.0 == root_total(heap.cells@, heap.cells@.len()).0,
        r.1 == view_total(heap.cells@),
        r.2 == clipped(root_total(heap.cells@, heap.cells@.len()).1 as int),
{
    let mut roots: usize = 0;
    let mut total: usize = 0;
    let mut bytes: usize = 0;
    let mut i: usize = 0;
    assert(heap.cells@.take(0) =~= Seq::empty());
    while i < heap.cells.len()
        invariant
            heap.wf(),
            i <= heap.cells@.len(),
            roots <= i,
            total <= i,
            roots == root_total(heap.cells@, i as nat).0,
            bytes == clipped(root_total(heap.cells@, i as nat).1 as int),
            total == view_total(heap.cells@.take(i as int)),
        decreases heap.cells@.len() - i,
    {
        proof {
            assert(heap.cells@.take(i + 1).drop_last() =~= heap.cells@.take(i as int));
            assert(heap.cells@.take(i + 1).last() == heap.cells@[i as int]);
            assert(cell_wf(heap.cells@, i as int));
        }
        match &heap.cells[i].body {
            StrBody::View { .. } => {
                total = total + 1;
            },
            StrBody::Own { bytes: b, .. } => {
                if has_views(&heap.cells, i) {
                    roots = roots + 1;
                    bytes = bytes.saturating_add(b.len());
                }
            },
            StrBody::Free => {},
        }
        i = i + 1;
    }
    assert(heap.cells@.take(i as int) =~= heap.cells@);
    (roots, total, bytes)
}

} // verus!
