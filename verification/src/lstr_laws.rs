//! Laws of shared strings: what a handle reads, and what releasing, viewing and growing leave.

use crate::lstr::{
    all_ascii, cell_wf, counted, dropped, free_cell, grown_cap, has_room, joined, lemma_free,
    lemma_recount, lemma_view_count_push, root_of, start_of, text, view_count, views, with_view,
    worth_a_view, StrBody, StrCell,
};
use crate::lstr_compact::{clipped, compactable, covers, kept, root_total, saved, saved_below, used, view_bytes, view_total};
use vstd::prelude::*;

verus! {

/// A string reads its own bytes; a view reads its part of the root's.
pub proof fn lemma_strings_read_their_bytes(cells: Seq<StrCell>, i: int, k: int)
    ensures
        cells[i].body matches StrBody::Own { bytes, cap } ==> text(cells, i) == bytes@,
        cells[i].body is Free ==> text(cells, i).len() == 0,
        cells[i].body matches StrBody::View { root, off, len } ==> (cells[root as int].body is Own
            && off + len <= cells[root as int].body->bytes@.len() ==> text(cells, i).len() == len
            && (0 <= k < len ==> text(cells, i)[k] == cells[root as int].body->bytes@[off + k])),
{
}

/// A root is viewed by the views that name it.
pub proof fn lemma_views_are_counted(cells: Seq<StrCell>, c: StrCell, r: int)
    ensures
        view_count(Seq::empty(), r) == 0,
        c.body matches StrBody::View { root, off, len } ==> view_count(cells.push(c), r)
            == view_count(cells, r) + (if root == r {
            1nat
        } else {
            0
        }),
        !(c.body is View) ==> view_count(cells.push(c), r) == view_count(cells, r),
        view_total(cells.push(c)) == view_total(cells) + (if c.body is View {
            1nat
        } else {
            0
        }),
        view_total(Seq::empty()) == 0,
{
    lemma_view_count_push(cells, c, r);
    assert(cells.push(c).drop_last() =~= cells);
}

/// Releasing a handle that others share takes one count away. The last release frees the
/// string, and of a view it also releases the root.
pub proof fn lemma_releases_count_down(cells: Seq<StrCell>, i: int)
    requires
        0 <= i < cells.len(),
    ensures
        cells[i].strong > 1 ==> {
            let out = dropped(cells, i);
            &&& out[i].strong == cells[i].strong - 1
            &&& out[i].body == cells[i].body
            &&& out[i].ascii == cells[i].ascii
            &&& out == cells.update(i, out[i])
        },
        cells[i].strong <= 1 && !(cells[i].body is View) ==> {
            let out = dropped(cells, i);
            out == cells.update(i, free_cell()) && out[i].body is Free && out[i].strong == 0
        },
        cells[i].strong <= 1 ==> (cells[i].body matches StrBody::View { root, off, len } ==> root
            < cells.len() && root != i ==> {
            let out = dropped(cells, i);
            &&& out.len() == cells.len()
            &&& out[i] == free_cell()
            &&& cells[root as int].strong > 1 ==> out[root as int].strong
                == cells[root as int].strong - 1 && out[root as int].body
                == cells[root as int].body
            &&& cells[root as int].strong <= 1 ==> out[root as int] == free_cell()
        }),
{
}

/// Releasing a handle leaves every string that another handle holds, and its text.
pub proof fn lemma_releases_leave_what_others_hold(cells: Seq<StrCell>, i: int, k: int)
    requires
        forall|j: int| 0 <= j < cells.len() ==> #[trigger] cell_wf(cells, j),
        0 <= i < cells.len(),
        0 <= k < cells.len(),
        cells[i].strong > view_count(cells, i),
        cells[k].strong > view_count(cells, k) + (if k == i {
            1int
        } else {
            0
        }),
    ensures
        text(dropped(cells, i), k) == text(cells, k),
        dropped(cells, i)[k].strong >= 1,
{
    assert(cell_wf(cells, i));
    assert(cell_wf(cells, k));
    if cells[i].strong > 1 {
        lemma_recount(cells, i, (cells[i].strong - 1) as usize);
        let out = cells.update(i, StrCell { strong: (cells[i].strong - 1) as usize, ..cells[i] });
        assert(dropped(cells, i) == out);
        assert(text(out, k) == text(cells, k));
    } else {
        lemma_free(cells, i);
        let mid = cells.update(i, free_cell());
        if let StrBody::View { root, off, len } = cells[i].body {
            let r = root as int;
            assert(cell_wf(cells, r));
            assert(views(cells[i], r));
            assert(r != i);
            assert(text(mid, k) == text(cells, k));
            assert(cell_wf(mid, r));
            assert(cell_wf(mid, k));
            if mid[r].strong > 1 {
                lemma_recount(mid, r, (mid[r].strong - 1) as usize);
                let out = mid.update(r, StrCell { strong: (mid[r].strong - 1) as usize, ..mid[r] });
                assert(dropped(cells, i) == out);
                assert(text(out, k) == text(mid, k));
            } else {
                assert(view_count(cells, r) >= 1);
                assert(k != r);
                assert(view_count(mid, r) == 0);
                lemma_free(mid, r);
                let out = mid.update(r, free_cell());
                assert(dropped(cells, i) == out);
                assert(text(out, k) == text(mid, k));
            }
        } else {
            assert(dropped(cells, i) == mid);
        }
    }
}

/// Sharing a string counts one more handle and changes nothing else.
pub proof fn lemma_sharing_counts_up(cells: Seq<StrCell>, i: int, k: int)
    requires
        0 <= i < cells.len(),
        cells[i].strong < usize::MAX,
        0 <= k < cells.len(),
    ensures
        counted(cells, i)[i].strong == cells[i].strong + 1,
        counted(cells, i)[i].body == cells[i].body,
        k != i ==> counted(cells, i)[k] == cells[k],
        counted(cells, i).len() == cells.len(),
{
}

/// Parts are joined in order.
pub proof fn lemma_parts_are_joined_in_order(a: Seq<Seq<u8>>, b: Seq<Seq<u8>>, p: Seq<u8>)
    ensures
        joined(Seq::empty()).len() == 0,
        joined(seq![p]) == p,
        joined(a + b) == joined(a) + joined(b),
    decreases b.len(),
{
    reveal_with_fuel(joined, 2);
    assert(seq![p].drop_last() =~= Seq::empty());
    assert(joined(seq![p]) =~= p);
    if b.len() == 0 {
        assert(a + b =~= a);
        assert(joined(a) + joined(b) =~= joined(a));
    } else {
        lemma_parts_are_joined_in_order(a, b.drop_last(), p);
        assert((a + b).drop_last() =~= a + b.drop_last());
        assert((a + b).last() == b.last());
        assert(joined(a) + joined(b) =~= (joined(a) + joined(b.drop_last())) + b.last());
    }
}

/// A part is a view when it is at least thirty-two bytes of a root of at least two hundred and
/// fifty-six, and views are on. A view of a view is one of its root.
pub proof fn lemma_parts_that_are_views(cells: Seq<StrCell>, i: int, len: int, on: bool)
    ensures
        worth_a_view(cells, i, len, on) <==> on && len >= 32 && text(cells, root_of(cells, i)).len()
            >= 256,
        cells[i].body matches StrBody::View { root, off, len: n } ==> root_of(cells, i) == root
            && start_of(cells, i) == off,
        !(cells[i].body is View) ==> root_of(cells, i) == i && start_of(cells, i) == 0,
{
}

/// A new view reads its part of the root, is held once, and counts as a handle of the root; every
/// other string reads as before.
pub proof fn lemma_new_views_read_their_part(
    cells: Seq<StrCell>,
    root: int,
    off: int,
    len: int,
    ascii: bool,
    k: int,
)
    requires
        0 <= root < cells.len(),
        cells.len() <= usize::MAX,
        cells[root].body is Own,
        cells[root].strong < usize::MAX,
        0 <= off,
        0 <= len,
        off + len <= text(cells, root).len(),
        text(cells, root).len() <= usize::MAX,
        0 <= k < cells.len(),
    ensures
        ({
            let out = with_view(cells, root, off, len, ascii);
            let n = cells.len() as int;
            &&& out.len() == n + 1
            &&& text(out, n) == text(cells, root).subrange(off, off + len)
            &&& out[n].strong == 1
            &&& out[n].ascii == ascii
            &&& out[root].strong == cells[root].strong + 1
            &&& cells[k].body is Own ==> text(out, k) == text(cells, k)
        }),
{
}

/// A string that grows is given room for twice what it needs, at least thirty-two bytes, as far
/// as a capacity can be written.
pub proof fn lemma_growing_doubles(need: int)
    requires
        0 <= need <= 0x1fff_ffff,
    ensures
        need <= grown_cap(need) <= 0x1fff_ffff,
        16 <= need && 2 * need < 0x1fff_ffff ==> grown_cap(need) == 2 * need,
        need < 16 ==> grown_cap(need) == 32,
        2 * need >= 0x1fff_ffff ==> grown_cap(need) == 0x1fff_ffff,
{
}

/// A string is appended to in place when it is held once, owns its bytes and has the room.
pub proof fn lemma_strings_grow_in_place(c: StrCell, n: int)
    ensures
        has_room(c, n) ==> c.strong == 1 && c.body is Own && c.body->bytes@.len() + n <= c.body->cap,
        c.strong == 1 && c.body is Own && c.body->bytes@.len() + n <= c.body->cap ==> has_room(c, n),
{
}

/// Text is ASCII when none of its bytes is above the seven bits; so is text made of such parts.
pub proof fn lemma_ascii_text(a: Seq<u8>, b: Seq<u8>)
    ensures
        all_ascii(a + b) <==> all_ascii(a) && all_ascii(b),
        all_ascii(Seq::empty()),
        forall|x: u8| all_ascii(#[trigger] seq![x]) <==> x < 128,
{
    if all_ascii(a + b) {
        assert forall|i: int| 0 <= i < a.len() implies #[trigger] a[i] < 128 by {
            assert((a + b)[i] == a[i]);
        }
        assert forall|i: int| 0 <= i < b.len() implies #[trigger] b[i] < 128 by {
            assert((a + b)[a.len() + i] == b[i]);
        }
    }
    assert forall|x: u8| all_ascii(#[trigger] seq![x]) <==> x < 128 by {
        assert(seq![x][0] == x);
    }
}

// ---- compaction -------------------------------------------------------------------------------

/// What is kept of a root is the bytes that some view covers, in order.
pub proof fn lemma_covered_bytes_are_kept(cells: Seq<StrCell>, r: int, n: nat)
    ensures
        kept(cells, r, 0).len() == 0,
        kept(cells, r, n).len() <= n,
        used(cells, r, n as int) ==> kept(cells, r, n + 1) == kept(cells, r, n).push(
            text(cells, r)[n as int],
        ),
        !used(cells, r, n as int) ==> kept(cells, r, n + 1) == kept(cells, r, n),
    decreases n,
{
    if n > 0 {
        lemma_covered_bytes_are_kept(cells, r, (n - 1) as nat);
    }
}

/// A byte is used when a view of the root has it.
pub proof fn lemma_used_bytes_are_viewed(cells: Seq<StrCell>, r: int, i: int, v: int)
    ensures
        0 <= v < cells.len() ==> (cells[v].body matches StrBody::View { root, off, len } && root
            == r && off <= i < off + len ==> used(cells, r, i)),
        used(cells, r, i) ==> exists|w: int|
            0 <= w < cells.len() && (#[trigger] cells[w]).body is View && cells[w].body->root == r
                && cells[w].body->off <= i < cells[w].body->off + cells[w].body->len,
{
    if 0 <= v < cells.len() && cells[v].body is View && cells[v].body->root == r
        && cells[v].body->off <= i < cells[v].body->off + cells[v].body->len {
        assert(covers(cells[v], r, i));
    }
    if used(cells, r, i) {
        let w = choose|w: int| 0 <= w < cells.len() && covers(#[trigger] cells[w], r, i);
        assert(cells[w].body is View);
    }
}

/// A root is compacted when only views hold it and they need less than half of it; that saves
/// what no view covers.
pub proof fn lemma_roots_that_are_compacted(cells: Seq<StrCell>, r: int)
    ensures
        compactable(cells, r) ==> {
            &&& cells[r].body is Own
            &&& view_count(cells, r) > 0
            &&& cells[r].strong == view_count(cells, r)
            &&& view_bytes(cells, r) < text(cells, r).len() / 2
        },
        cells[r].body is Own && view_count(cells, r) > 0 && cells[r].strong == view_count(cells, r)
            && view_bytes(cells, r) < text(cells, r).len() / 2 ==> compactable(cells, r),
        saved(cells, r) + kept(cells, r, text(cells, r).len()).len() == text(cells, r).len(),
{
}

/// The bytes that views ask of a root are the sum of their lengths.
pub proof fn lemma_view_bytes_add_up(cells: Seq<StrCell>, c: StrCell, r: int)
    ensures
        view_bytes(Seq::empty(), r) == 0,
        c.body matches StrBody::View { root, off, len } ==> view_bytes(cells.push(c), r)
            == view_bytes(cells, r) + (if root == r {
            len as nat
        } else {
            0
        }),
        !(c.body is View) ==> view_bytes(cells.push(c), r) == view_bytes(cells, r),
{
    assert(cells.push(c).drop_last() =~= cells);
}

/// The statistics count the roots that are viewed and their bytes.
pub proof fn lemma_viewed_roots_are_counted(cells: Seq<StrCell>, n: nat)
    ensures
        root_total(cells, 0) == (0nat, 0nat),
        view_count(cells, n as int) > 0 ==> root_total(cells, n + 1) == (
            (root_total(cells, n).0 + 1) as nat,
            (root_total(cells, n).1 + text(cells, n as int).len()) as nat,
        ),
        view_count(cells, n as int) == 0 ==> root_total(cells, n + 1) == root_total(cells, n),
        forall|x: int| 0 <= x <= usize::MAX ==> #[trigger] clipped(x) == x,
        forall|x: int| x > usize::MAX ==> #[trigger] clipped(x) == usize::MAX,
{
}

/// What compaction saves is the sum over the roots that it compacts.
pub proof fn lemma_savings_add_up(cells: Seq<StrCell>, n: nat)
    ensures
        saved_below(cells, 0) == 0,
        compactable(cells, n as int) ==> saved_below(cells, n + 1) == saved_below(cells, n) + saved(
            cells,
            n as int,
        ),
        !compactable(cells, n as int) ==> saved_below(cells, n + 1) == saved_below(cells, n),
{
}

} // verus!
