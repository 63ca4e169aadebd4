//! Line tables: where the lines of a source text start, and how its byte offsets become UTF-16
//! columns.

use crate::bytecode::wire::{has_at, lemma_has_at_split, lemma_u8_reads_back, uv_bytes, weight};
use vstd::prelude::*;

verus! {

/// The length of a character in UTF-8.
pub open spec fn utf8_len(c: char) -> nat {
    if (c as u32) < 0x80 {
        1
    } else if (c as u32) < 0x800 {
        2
    } else if (c as u32) < 0x1_0000 {
        3
    } else {
        4
    }
}

/// The length of a character in UTF-16.
pub open spec fn utf16_len(c: char) -> nat {
    if (c as u32) < 0x1_0000 {
        1
    } else {
        2
    }
}

/// The byte offset of the character `k`.
pub open spec fn byte_off(s: Seq<char>, k: int) -> nat
    decreases k,
{
    if k <= 0 {
        0
    } else {
        byte_off(s, k - 1) + utf8_len(s[k - 1])
    }
}

/// The UTF-16 offset of the character `k`.
pub open spec fn unit_off(s: Seq<char>, k: int) -> nat
    decreases k,
{
    if k <= 0 {
        0
    } else {
        unit_off(s, k - 1) + utf16_len(s[k - 1])
    }
}

/// By how much the byte offset of the character `k` is ahead of its UTF-16 offset.
pub open spec fn ahead(s: Seq<char>, k: int) -> int {
    byte_off(s, k) - unit_off(s, k)
}

/// Whether the character `i` ends a line: a line feed, a carriage return without one, a line
/// separator or a paragraph separator.
pub open spec fn ends_line(s: Seq<char>, i: int) -> bool {
    let c = s[i];
    c == '\n' || c == '\u{2028}' || c == '\u{2029}' || (c == '\r' && !(i + 1 < s.len() && s[i + 1]
        == '\n'))
}

/// How many lines end before the character `k`.
pub open spec fn lines_before(s: Seq<char>, k: int) -> nat
    decreases k,
{
    if k <= 0 {
        0
    } else {
        lines_before(s, k - 1) + if ends_line(s, k - 1) {
            1nat
        } else {
            0
        }
    }
}

/// The character that the line of the character `k` starts at.
pub open spec fn line_start(s: Seq<char>, k: int) -> int
    decreases k,
{
    if k <= 0 {
        0
    } else if ends_line(s, k - 1) {
        k
    } else {
        line_start(s, k - 1)
    }
}

/// The byte offsets of the lines that start at or before the character `n`.
pub open spec fn starts_of(s: Seq<char>, n: int) -> Seq<u32>
    decreases n,
{
    if n <= 0 {
        seq![0u32]
    } else if ends_line(s, n - 1) {
        starts_of(s, n - 1).push(byte_off(s, n) as u32)
    } else {
        starts_of(s, n - 1)
    }
}

/// For each character before `n` outside ASCII: the byte offset just past it, and how much that
/// is ahead of the UTF-16 offset.
pub open spec fn wide_of(s: Seq<char>, n: int) -> Seq<(u32, u32)>
    decreases n,
{
    if n <= 0 {
        Seq::empty()
    } else if utf8_len(s[n - 1]) > 1 {
        wide_of(s, n - 1).push((byte_off(s, n) as u32, ahead(s, n) as u32))
    } else {
        wide_of(s, n - 1)
    }
}

/// How many of the first entries are at most `p`.
pub open spec fn rank(starts: Seq<u32>, p: u32) -> nat
    decreases starts.len(),
{
    if starts.len() == 0 || starts[0] > p {
        0
    } else {
        1 + rank(starts.drop_first(), p)
    }
}

/// How many of the first entries stand at `p` or before.
pub open spec fn wide_rank(wide: Seq<(u32, u32)>, p: u32) -> nat
    decreases wide.len(),
{
    if wide.len() == 0 || wide[0].0 > p {
        0
    } else {
        1 + wide_rank(wide.drop_first(), p)
    }
}

/// The correction at a byte offset.
pub open spec fn extra(wide: Seq<(u32, u32)>, p: u32) -> u32 {
    let k = wide_rank(wide, p);
    if k == 0 {
        0
    } else {
        wide[k - 1].1
    }
}

/// The 1-based line and the 0-based UTF-16 column of a byte offset; none past the end, nor where
/// the corrections do not fit the offsets.
pub open spec fn table_line_col(
    starts: Seq<u32>,
    wide: Seq<(u32, u32)>,
    len: u32,
    p: u32,
) -> Option<(u32, u32)> {
    if p > len {
        None
    } else {
        let l = rank(starts, p);
        let s = starts[l - 1];
        let d = extra(wide, p) - extra(wide, s);
        if 0 <= d <= p - s {
            Some((l as u32, (p - s - d) as u32))
        } else {
            None
        }
    }
}

pub open spec fn ascending(starts: Seq<u32>) -> bool {
    forall|i: int, j: int| 0 <= i <= j < starts.len() ==> starts[i] <= starts[j]
}

pub open spec fn wide_ascending(wide: Seq<(u32, u32)>) -> bool {
    forall|i: int, j: int|
        0 <= i <= j < wide.len() ==> (#[trigger] wide[i]).0 <= (#[trigger] wide[j]).0 && wide[i].1
            <= wide[j].1
}

proof fn lemma_rank_is(starts: Seq<u32>, p: u32, k: int)
    requires
        0 <= k <= starts.len(),
        forall|i: int| 0 <= i < k ==> starts[i] <= p,
        k < starts.len() ==> starts[k] > p,
    ensures
        rank(starts, p) == k,
    decreases k,
{
    if k > 0 {
        let d = starts.drop_first();
        assert forall|i: int| 0 <= i < k - 1 implies d[i] <= p by {
            assert(starts[i + 1] <= p);
        }
        assert(starts[0] <= p);
        lemma_rank_is(d, p, k - 1);
    }
}

proof fn lemma_wide_rank_is(wide: Seq<(u32, u32)>, p: u32, k: int)
    requires
        0 <= k <= wide.len(),
        forall|i: int| 0 <= i < k ==> (#[trigger] wide[i]).0 <= p,
        k < wide.len() ==> wide[k].0 > p,
    ensures
        wide_rank(wide, p) == k,
    decreases k,
{
    if k > 0 {
        let d = wide.drop_first();
        assert forall|i: int| 0 <= i < k - 1 implies (#[trigger] d[i]).0 <= p by {
            assert(wide[i + 1].0 <= p);
        }
        assert(wide[0].0 <= p);
        lemma_wide_rank_is(d, p, k - 1);
    }
}

/// Line starts and UTF-16 column corrections of one source text.
pub struct LineTable {
    /// The byte offset of every line start; the first is 0.
    starts: Vec<u32>,
    /// The byte offset just past each character outside ASCII, and by how much it is ahead of
    /// the UTF-16 offset.
    wide: Vec<(u32, u32)>,
    len: u32,
}

/// What a line table says.
pub struct LineTableView {
    pub starts: Seq<u32>,
    pub wide: Seq<(u32, u32)>,
    pub len: u32,
}

impl View for LineTable {
    type V = LineTableView;

    closed spec fn view(&self) -> LineTableView {
        LineTableView { starts: self.starts@, wide: self.wide@, len: self.len }
    }
}

impl LineTableView {
    /// The entries ascend, and the first line starts at 0.
    pub open spec fn wf(self) -> bool {
        &&& 0 < self.starts.len() <= u32::MAX
        &&& self.wide.len() <= u32::MAX
        &&& self.starts[0] == 0
        &&& ascending(self.starts)
        &&& wide_ascending(self.wide)
    }

    pub open spec fn line_col(self, p: u32) -> Option<(u32, u32)> {
        table_line_col(self.starts, self.wide, self.len, p)
    }
}

/// The table of a text.
pub open spec fn table_of(s: Seq<char>) -> LineTableView {
    let n = s.len() as int;
    LineTableView { starts: starts_of(s, n), wide: wide_of(s, n), len: byte_off(s, n) as u32 }
}

proof fn lemma_byte_off_monotone(s: Seq<char>, i: int, j: int)
    requires
        0 <= i <= j,
    ensures
        byte_off(s, i) <= byte_off(s, j),
        byte_off(s, j) - byte_off(s, i) >= j - i,
        ahead(s, i) <= ahead(s, j),
        unit_off(s, i) <= unit_off(s, j),
    decreases j - i,
{
    if i < j {
        lemma_byte_off_monotone(s, i, j - 1);
    }
}

fn char_len(c: char) -> (r: u32)
    ensures
        r == utf8_len(c),
        1 <= r <= 4,
{
    let v: u32 = c as u32;
    if v < 0x80 {
        1
    } else if v < 0x800 {
        2
    } else if v < 0x1_0000 {
        3
    } else {
        4
    }
}

fn char_units(c: char) -> (r: u32)
    ensures
        r == utf16_len(c),
        1 <= r <= 2,
{
    let v: u32 = c as u32;
    if v < 0x1_0000 {
        1
    } else {
        2
    }
}

/// The tables of the first characters ascend, within the offsets so far.
proof fn lemma_tables_ascend(s: Seq<char>, n: int)
    requires
        0 <= n <= s.len(),
        byte_off(s, n) <= u32::MAX,
    ensures
        ascending(starts_of(s, n)),
        starts_of(s, n).len() == 1 + lines_before(s, n),
        starts_of(s, n)[0] == 0,
        forall|i: int| 0 <= i < starts_of(s, n).len() ==> starts_of(s, n)[i] <= byte_off(s, n),
        wide_ascending(wide_of(s, n)),
        forall|i: int|
            0 <= i < wide_of(s, n).len() ==> (#[trigger] wide_of(s, n)[i]).0 <= byte_off(s, n)
                && wide_of(s, n)[i].1 <= ahead(s, n),
        wide_of(s, n).len() == 0 ==> ahead(s, n) == 0,
        wide_of(s, n).len() > 0 ==> wide_of(s, n).last().1 == ahead(s, n),
    decreases n,
{
    if n > 0 {
        lemma_byte_off_monotone(s, n - 1, n);
        lemma_byte_off_monotone(s, 0, n);
        lemma_tables_ascend(s, n - 1);
        let a = starts_of(s, n - 1);
        let b = starts_of(s, n);
        assert forall|i: int, j: int| 0 <= i <= j < b.len() implies b[i] <= b[j] by {
            if j < a.len() {
                assert(a[i] <= a[j]);
            } else if i < a.len() {
                assert(a[i] <= byte_off(s, n - 1));
            }
        }
        let v = wide_of(s, n - 1);
        let w = wide_of(s, n);
        assert forall|i: int, j: int| 0 <= i <= j < w.len() implies (#[trigger] w[i]).0 <= (
        #[trigger] w[j]).0 && w[i].1 <= w[j].1 by {
            if j < v.len() {
                assert(v[i].0 <= v[j].0);
            } else if i < v.len() {
                assert(v[i].0 <= byte_off(s, n - 1));
            }
        }
    }
}

proof fn lemma_table_lens(s: Seq<char>, n: int)
    requires
        0 <= n,
    ensures
        starts_of(s, n).len() <= 1 + n,
        wide_of(s, n).len() <= n,
    decreases n,
{
    if n > 0 {
        lemma_table_lens(s, n - 1);
    }
}

/// The tables of the first `n` characters, cut at the character `k`.
proof fn lemma_tables_cut(s: Seq<char>, n: int, k: int)
    requires
        0 <= k <= n <= s.len(),
        byte_off(s, n) <= u32::MAX,
    ensures
        starts_of(s, n).len() >= starts_of(s, k).len(),
        starts_of(s, n).take(starts_of(s, k).len() as int) == starts_of(s, k),
        forall|i: int|
            starts_of(s, k).len() <= i < starts_of(s, n).len() ==> starts_of(s, n)[i] > byte_off(
                s,
                k,
            ),
        wide_of(s, n).len() >= wide_of(s, k).len(),
        wide_of(s, n).take(wide_of(s, k).len() as int) == wide_of(s, k),
        forall|i: int|
            wide_of(s, k).len() <= i < wide_of(s, n).len() ==> (#[trigger] wide_of(s, n)[i]).0
                > byte_off(s, k),
    decreases n - k,
{
    if n > k {
        lemma_byte_off_monotone(s, n - 1, n);
        lemma_byte_off_monotone(s, k, n);
        lemma_byte_off_monotone(s, 0, n);
        lemma_tables_cut(s, n - 1, k);
        assert(starts_of(s, n).take(starts_of(s, k).len() as int) =~= starts_of(s, k)) by {
            assert(starts_of(s, n).take(starts_of(s, k).len() as int) =~= starts_of(
                s,
                n - 1,
            ).take(starts_of(s, k).len() as int));
        }
        assert(wide_of(s, n).take(wide_of(s, k).len() as int) =~= wide_of(s, k)) by {
            assert(wide_of(s, n).take(wide_of(s, k).len() as int) =~= wide_of(s, n - 1).take(
                wide_of(s, k).len() as int,
            ));
        }
        assert forall|i: int|
            starts_of(s, k).len() <= i < starts_of(s, n).len() implies starts_of(s, n)[i]
            > byte_off(s, k) by {
            if i < starts_of(s, n - 1).len() {
                assert(starts_of(s, n - 1)[i] > byte_off(s, k));
            }
        }
        assert forall|i: int| wide_of(s, k).len() <= i < wide_of(s, n).len() implies (
        #[trigger] wide_of(s, n)[i]).0 > byte_off(s, k) by {
            if i < wide_of(s, n - 1).len() {
                assert(wide_of(s, n - 1)[i].0 > byte_off(s, k));
            }
        }
    } else {
        assert(starts_of(s, n).take(starts_of(s, k).len() as int) =~= starts_of(s, k));
        assert(wide_of(s, n).take(wide_of(s, k).len() as int) =~= wide_of(s, k));
    }
}

proof fn lemma_line_start(s: Seq<char>, k: int)
    requires
        0 <= k <= s.len(),
        byte_off(s, k) <= u32::MAX,
    ensures
        0 <= line_start(s, k) <= k,
        starts_of(s, k).last() == byte_off(s, line_start(s, k)),
        starts_of(s, k).len() > 0,
    decreases k,
{
    if k > 0 {
        lemma_byte_off_monotone(s, k - 1, k);
        lemma_line_start(s, k - 1);
    }
}

proof fn lemma_extra_at(s: Seq<char>, n: int, k: int)
    requires
        0 <= k <= n <= s.len(),
        byte_off(s, n) <= u32::MAX,
    ensures
        extra(wide_of(s, n), byte_off(s, k) as u32) == ahead(s, k),
        0 <= ahead(s, k) <= byte_off(s, k) <= u32::MAX,
{
    lemma_byte_off_monotone(s, k, n);
    lemma_byte_off_monotone(s, 0, k);
    lemma_tables_cut(s, n, k);
    lemma_tables_ascend(s, k);
    let w = wide_of(s, n);
    let v = wide_of(s, k);
    let p = byte_off(s, k) as u32;
    assert forall|i: int| 0 <= i < v.len() implies (#[trigger] w[i]).0 <= p by {
        assert(w.take(v.len() as int)[i] == v[i]);
        assert(v[i].0 <= byte_off(s, k));
    }
    lemma_wide_rank_is(w, p, v.len() as int);
    if v.len() > 0 {
        assert(w.take(v.len() as int)[v.len() - 1] == v[v.len() - 1]);
    }
}

/// A text's table gives the position of every character: the line is one more than the lines
/// that end before it, and the column counts the UTF-16 units since the line's start.
pub proof fn lemma_positions_are_lines_and_columns(s: Seq<char>, k: int)
    requires
        0 <= k <= s.len(),
        byte_off(s, s.len() as int) <= u32::MAX,
    ensures
        table_of(s).line_col(byte_off(s, k) as u32) == Some(
            (
                (1 + lines_before(s, k)) as u32,
                (unit_off(s, k) - unit_off(s, line_start(s, k))) as u32,
            ),
        ),
{
    let n = s.len() as int;
    let p = byte_off(s, k) as u32;
    lemma_byte_off_monotone(s, k, n);
    lemma_tables_cut(s, n, k);
    lemma_tables_ascend(s, k);
    lemma_line_start(s, k);
    let ls = line_start(s, k);
    lemma_byte_off_monotone(s, ls, k);
    lemma_extra_at(s, n, k);
    lemma_extra_at(s, n, ls);
    let a = starts_of(s, n);
    let b = starts_of(s, k);
    assert forall|i: int| 0 <= i < b.len() implies a[i] <= p by {
        assert(a.take(b.len() as int)[i] == b[i]);
    }
    lemma_rank_is(a, p, b.len() as int);
    assert(a.take(b.len() as int)[b.len() - 1] == b[b.len() - 1]);
}

/// Past the end of the text there are no positions.
pub proof fn lemma_no_position_past_the_end(t: LineTableView, p: u32)
    requires
        p > t.len,
    ensures
        t.line_col(p) is None,
{
}

impl LineTable {
    pub open spec fn wf(self) -> bool {
        self@.wf()
    }

    /// The table of a text.
    pub fn build(text: &str) -> (r: LineTable)
        requires
            byte_off(text@, text@.len() as int) < u32::MAX,
        ensures
            r.wf(),
            r@ == table_of(text@),
    {
        let cs = crate::text::chars_of(text);
        let ghost s = cs@;
        let mut starts: Vec<u32> = Vec::new();
        starts.push(0);
        let mut wide: Vec<(u32, u32)> = Vec::new();
        let mut at: u32 = 0;
        let mut over: u32 = 0;
        let mut i: usize = 0;
        assert(starts@ =~= seq![0u32]);
        while i < cs.len()
            invariant
                cs@ == s,
                i <= s.len(),
                byte_off(s, s.len() as int) <= u32::MAX,
                at == byte_off(s, i as int),
                over == ahead(s, i as int),
                starts@ == starts_of(s, i as int),
                wide@ == wide_of(s, i as int),
            decreases s.len() - i,
        {
            let c: char = cs[i];
            proof {
                lemma_byte_off_monotone(s, i + 1, s.len() as int);
                lemma_byte_off_monotone(s, 0, i + 1);
            }
            let n: u32 = char_len(c);
            at = at + n;
            over = over + (n - char_units(c));
            if n > 1 {
                wide.push((at, over));
            }
            let ends = c == '\n' || c == '\u{2028}' || c == '\u{2029}' || (c == '\r' && !(i + 1
                < cs.len() && cs[i + 1] == '\n'));
            if ends {
                starts.push(at);
            }
            i = i + 1;
        }
        proof {
            lemma_tables_ascend(s, i as int);
            lemma_table_lens(s, i as int);
            lemma_byte_off_monotone(s, 0, i as int);
        }
        LineTable { starts, wide, len: at }
    }

    fn start_rank(&self, p: u32) -> (r: usize)
        requires
            self.wf(),
        ensures
            r == rank(self@.starts, p),
            1 <= r <= self@.starts.len(),
            self@.starts[r - 1] <= p,
    {
        let mut lo: usize = 0;
        let mut hi: usize = self.starts.len();
        let ghost st = self.starts@;
        while lo < hi
            invariant
                st == self.starts@,
                ascending(st),
                lo <= hi <= st.len(),
                forall|i: int| 0 <= i < lo ==> st[i] <= p,
                forall|i: int| hi <= i < st.len() ==> st[i] > p,
            decreases hi - lo,
        {
            let mid: usize = lo + (hi - lo) / 2;
            if self.starts[mid] <= p {
                assert forall|i: int| 0 <= i < mid + 1 implies st[i] <= p by {
                    assert(st[i] <= st[mid as int]);
                }
                lo = mid + 1;
            } else {
                assert forall|i: int| mid <= i < st.len() implies st[i] > p by {
                    assert(st[mid as int] <= st[i]);
                }
                hi = mid;
            }
        }
        proof {
            lemma_rank_is(st, p, lo as int);
            if lo == 0 {
                assert(st[0] > p);
            }
        }
        lo
    }

    fn extra_before(&self, p: u32) -> (r: u32)
        requires
            self.wf(),
        ensures
            r == extra(self@.wide, p),
    {
        let mut lo: usize = 0;
        let mut hi: usize = self.wide.len();
        let ghost w = self.wide@;
        while lo < hi
            invariant
                w == self.wide@,
                wide_ascending(w),
                lo <= hi <= w.len(),
                forall|i: int| 0 <= i < lo ==> (#[trigger] w[i]).0 <= p,
                forall|i: int| hi <= i < w.len() ==> (#[trigger] w[i]).0 > p,
            decreases hi - lo,
        {
            let mid: usize = lo + (hi - lo) / 2;
            if self.wide[mid].0 <= p {
                assert forall|i: int| 0 <= i < mid + 1 implies (#[trigger] w[i]).0 <= p by {
                    assert(w[i].0 <= w[mid as int].0);
                }
                lo = mid + 1;
            } else {
                assert forall|i: int| mid <= i < w.len() implies (#[trigger] w[i]).0 > p by {
                    assert(w[mid as int].0 <= w[i].0);
                }
                hi = mid;
            }
        }
        proof {
            lemma_wide_rank_is(w, p, lo as int);
        }
        if lo == 0 {
            0
        } else {
            self.wide[lo - 1].1
        }
    }

    /// The 1-based line and the 0-based UTF-16 column of a byte offset.
    pub fn line_col(&self, p: u32) -> (r: Option<(u32, u32)>)
        requires
            self.wf(),
        ensures
            r == self@.line_col(p),
    {
        if p > self.len {
            return None;
        }
        let l = self.start_rank(p);
        let s: u32 = self.starts[l - 1];
        let a: u32 = self.extra_before(p);
        let b: u32 = self.extra_before(s);
        if a < b || a - b > p - s {
            return None;
        }
        Some((l as u32, (p - s) - (a - b)))
    }
}

/// Reading a 32-bit varint of which `k` bytes are already read: the rest's value and its end. It
/// has at most five bytes.
pub open spec fn u32_rest_at(s: Seq<u8>, pos: int, k: nat) -> Option<(nat, int)>
    decreases 5 - k,
{
    if !(0 <= pos < s.len()) || k >= 5 {
        None
    } else if s[pos] < 128 {
        Some((s[pos] as nat, pos + 1))
    } else {
        match u32_rest_at(s, pos + 1, k + 1) {
            Some((v, end)) => Some(((s[pos] - 128) as nat + 128 * v, end)),
            None => None,
        }
    }
}

/// Reading a varint: 32 bits, the excess bits of a fifth byte dropped.
pub open spec fn u32_at(s: Seq<u8>, pos: int) -> Option<(u32, int)> {
    match u32_rest_at(s, pos, 0) {
        Some((v, end)) => Some(((v % 0x1_0000_0000) as u32, end)),
        None => None,
    }
}

proof fn lemma_u32_rest_bounds(s: Seq<u8>, pos: int, k: nat)
    requires
        0 <= pos,
        k <= 5,
    ensures
        u32_rest_at(s, pos, k) matches Some((v, end)) ==> pos < end <= s.len() && v < weight(
            (5 - k) as nat,
        ),
    decreases 5 - k,
{
    if pos < s.len() && k < 5 {
        assert(weight((5 - k) as nat) == 128 * weight((4 - k) as nat));
        lemma_weight_positive((4 - k) as nat);
        if s[pos] >= 128 {
            lemma_u32_rest_bounds(s, pos + 1, k + 1);
        }
    }
}

proof fn lemma_weight_positive(k: nat)
    ensures
        weight(k) >= 1,
    decreases k,
{
    if k > 0 {
        lemma_weight_positive((k - 1) as nat);
    }
}

proof fn lemma_u32_rest_reads_back(s: Seq<u8>, pos: int, v: nat, k: nat)
    requires
        has_at(s, pos, uv_bytes(v)),
        k <= 4,
        v * weight(k) < 0x1_0000_0000,
    ensures
        u32_rest_at(s, pos, k) == Some((v, pos + uv_bytes(v).len())),
    decreases v,
{
    if v < 128 {
        lemma_u8_reads_back(s, pos, v as u8);
    } else {
        let head = seq![(v % 128 + 128) as u8];
        lemma_has_at_split(s, pos, head, uv_bytes(v / 128));
        lemma_u8_reads_back(s, pos, (v % 128 + 128) as u8);
        if k == 4 {
            assert(weight(4) == 0x1000_0000) by {
                reveal_with_fuel(weight, 6);
            }
            assert(false);
        }
        let w = weight(k);
        assert(weight(k + 1) == 128 * w);
        assert((v / 128) * (128 * w) <= v * w) by (nonlinear_arith)
            requires
                v >= 0,
                w >= 0,
        ;
        lemma_u32_rest_reads_back(s, pos + 1, v / 128, k + 1);
    }
}

proof fn lemma_u32_reads_back(s: Seq<u8>, pos: int, v: u32)
    requires
        has_at(s, pos, uv_bytes(v as nat)),
    ensures
        u32_at(s, pos) == Some((v, pos + uv_bytes(v as nat).len())),
{
    assert(weight(0) == 1);
    lemma_u32_rest_reads_back(s, pos, v as nat, 0);
}

/// The bytes of the line starts from the `i`-th on: the distances from one to the next.
pub open spec fn start_bytes(starts: Seq<u32>, i: int) -> Seq<u8>
    decreases starts.len() - i,
{
    if i >= starts.len() || i < 1 {
        Seq::empty()
    } else {
        uv_bytes((starts[i] - starts[i - 1]) as nat) + start_bytes(starts, i + 1)
    }
}

/// The entry before the `i`-th.
pub open spec fn wide_before(wide: Seq<(u32, u32)>, i: int) -> (u32, u32) {
    if i <= 0 {
        (0, 0)
    } else {
        wide[i - 1]
    }
}

/// The bytes of the corrections from the `i`-th on.
pub open spec fn wide_bytes(wide: Seq<(u32, u32)>, i: int) -> Seq<u8>
    decreases wide.len() - i,
{
    if i >= wide.len() || i < 0 {
        Seq::empty()
    } else {
        let b = wide_before(wide, i);
        uv_bytes((wide[i].0 - b.0) as nat) + uv_bytes((wide[i].1 - b.1) as nat) + wide_bytes(
            wide,
            i + 1,
        )
    }
}

/// The bytes of a table: the length, the line count, the distances of the line starts, the count
/// of corrections and their distances.
pub open spec fn table_bytes(t: LineTableView) -> Seq<u8> {
    uv_bytes(t.len as nat) + (uv_bytes((t.starts.len() - 1) as nat) + (start_bytes(t.starts, 1) + (
    uv_bytes(t.wide.len()) + wide_bytes(t.wide, 0))))
}

/// Reading `n` line starts after those that are there.
pub open spec fn starts_at(s: Seq<u8>, pos: int, n: nat, starts: Seq<u32>) -> Option<
    (Seq<u32>, int),
>
    decreases n,
{
    if n == 0 {
        Some((starts, pos))
    } else {
        match u32_at(s, pos) {
            Some((d, next)) => if starts.last() + d <= u32::MAX {
                starts_at(s, next, (n - 1) as nat, starts.push((starts.last() + d) as u32))
            } else {
                None
            },
            None => None,
        }
    }
}

/// Reading `n` corrections after those that are there.
pub open spec fn wide_at(s: Seq<u8>, pos: int, n: nat, wide: Seq<(u32, u32)>) -> Option<
    (Seq<(u32, u32)>, int),
>
    decreases n,
{
    if n == 0 {
        Some((wide, pos))
    } else {
        let b = wide_before(wide, wide.len() as int);
        match u32_at(s, pos) {
            Some((d, next)) => if b.0 + d <= u32::MAX {
                match u32_at(s, next) {
                    Some((e, end)) => if b.1 + e <= u32::MAX {
                        wide_at(
                            s,
                            end,
                            (n - 1) as nat,
                            wide.push(((b.0 + d) as u32, (b.1 + e) as u32)),
                        )
                    } else {
                        None
                    },
                    None => None,
                }
            } else {
                None
            },
            None => None,
        }
    }
}

/// The table that bytes hold; none when they are malformed. What follows the table is ignored.
pub open spec fn table_at(s: Seq<u8>) -> Option<LineTableView> {
    match u32_at(s, 0) {
        None => None,
        Some((len, p1)) => match u32_at(s, p1) {
            None => None,
            Some((n, p2)) => if n == u32::MAX {
                None
            } else {
                match starts_at(s, p2, n as nat, seq![0u32]) {
                    None => None,
                    Some((starts, p3)) => match u32_at(s, p3) {
                        None => None,
                        Some((m, p4)) => match wide_at(s, p4, m as nat, Seq::empty()) {
                            None => None,
                            Some((wide, _)) => Some(LineTableView { starts, wide, len }),
                        },
                    },
                }
            },
        },
    }
}

fn get_rest(b: &[u8], at: usize, k: u32) -> (r: Option<(u64, usize)>)
    requires
        at <= b@.len(),
        k <= 5,
    ensures
        match u32_rest_at(b@, at as int, k as nat) {
            Some((v, end)) => r matches Some((w, e)) && w == v && e == end,
            None => r is None,
        },
        r matches Some((w, e)) ==> w < weight((5 - k) as nat) && e <= b@.len(),
    decreases 5 - k,
{
    proof {
        lemma_u32_rest_bounds(b@, at as int, k as nat);
    }
    if at >= b.len() || k >= 5 {
        return None;
    }
    let byte: u8 = b[at];
    if byte < 128 {
        return Some((byte as u64, at + 1));
    }
    match get_rest(b, at + 1, k + 1) {
        Some((v, end)) => {
            proof {
                assert(weight(5) == 0x8_0000_0000 && weight(4) == 0x1000_0000) by {
                    reveal_with_fuel(weight, 7);
                }
                lemma_weight_grows((4 - k) as nat, 4);
            }
            Some(((byte - 128) as u64 + 128 * v, end))
        },
        None => None,
    }
}

proof fn lemma_weight_grows(i: nat, j: nat)
    requires
        i <= j,
    ensures
        weight(i) <= weight(j),
    decreases j - i,
{
    if i < j {
        lemma_weight_grows(i, (j - 1) as nat);
        lemma_weight_positive((j - 1) as nat);
    }
}

fn get(b: &[u8], at: usize) -> (r: Option<(u32, usize)>)
    requires
        at <= b@.len(),
    ensures
        match u32_at(b@, at as int) {
            Some((v, end)) => r matches Some((w, e)) && w == v && e == end,
            None => r is None,
        },
        r matches Some((w, e)) ==> e <= b@.len(),
{
    match get_rest(b, at, 0) {
        Some((v, end)) => Some(((v % 0x1_0000_0000) as u32, end)),
        None => None,
    }
}

impl LineTable {
    /// The compact form of a table.
    pub fn encode(&self) -> (r: Vec<u8>)
        requires
            self.wf(),
        ensures
            r@ == table_bytes(self@),
    {
        let mut out: Vec<u8> = Vec::new();
        crate::bytecode::wire::uv(&mut out, self.len as u64);
        crate::bytecode::wire::uv(&mut out, (self.starts.len() - 1) as u64);
        let ghost st = self.starts@;
        let ghost wd = self.wide@;
        let ghost head = out@;
        let mut i: usize = 1;
        assert(head + start_bytes(st, 1) =~= out@ + start_bytes(st, 1));
        while i < self.starts.len()
            invariant
                st == self.starts@,
                ascending(st),
                1 <= i <= st.len(),
                out@ + start_bytes(st, i as int) == head + start_bytes(st, 1),
            decreases st.len() - i,
        {
            assert(st[i - 1] <= st[i as int]);
            let d: u32 = self.starts[i] - self.starts[i - 1];
            let ghost before = out@;
            crate::bytecode::wire::uv(&mut out, d as u64);
            assert(before + (uv_bytes(d as nat) + start_bytes(st, i + 1)) =~= out@ + start_bytes(
                st,
                i + 1,
            ));
            i = i + 1;
        }
        assert(out@ =~= head + start_bytes(st, 1));
        crate::bytecode::wire::uv(&mut out, self.wide.len() as u64);
        let ghost mid = out@;
        let mut pp: u32 = 0;
        let mut pe: u32 = 0;
        let mut j: usize = 0;
        while j < self.wide.len()
            invariant
                wd == self.wide@,
                wide_ascending(wd),
                j <= wd.len(),
                (pp, pe) == wide_before(wd, j as int),
                out@ + wide_bytes(wd, j as int) == mid + wide_bytes(wd, 0),
            decreases wd.len() - j,
        {
            let (p, e): (u32, u32) = self.wide[j];
            proof {
                if j > 0 {
                    assert(wd[j - 1].0 <= wd[j as int].0);
                }
            }
            let ghost before = out@;
            crate::bytecode::wire::uv(&mut out, (p - pp) as u64);
            crate::bytecode::wire::uv(&mut out, (e - pe) as u64);
            assert(before + (uv_bytes((p - pp) as nat) + uv_bytes((e - pe) as nat) + wide_bytes(
                wd,
                j + 1,
            )) =~= out@ + wide_bytes(wd, j + 1));
            pp = p;
            pe = e;
            j = j + 1;
        }
        assert(out@ =~= mid + wide_bytes(wd, 0));
        assert(out@ =~= table_bytes(self@));
        out
    }

    /// Reads a table; none when the bytes are malformed.
    pub fn decode(b: &[u8]) -> (r: Option<LineTable>)
        ensures
            match r {
                Some(t) => t.wf() && table_at(b@) == Some(t@),
                None => table_at(b@) is None,
            },
    {
        let (len, p1): (u32, usize) = match get(b, 0) {
            Some(x) => x,
            None => {
                return None;
            },
        };
        let (n, p2): (u32, usize) = match get(b, p1) {
            Some(x) => x,
            None => {
                return None;
            },
        };
        if n == u32::MAX {
            return None;
        }
        let ghost s = b@;
        let mut starts: Vec<u32> = Vec::new();
        starts.push(0);
        assert(starts@ =~= seq![0u32]);
        let mut prev: u32 = 0;
        let mut at: usize = p2;
        let mut i: u32 = 0;
        while i < n
            invariant
                s == b@,
                at <= s.len(),
                i <= n < u32::MAX,
                starts@.len() == i + 1,
                starts@[0] == 0,
                starts@.last() == prev,
                ascending(starts@),
                starts_at(s, at as int, (n - i) as nat, starts@) == starts_at(
                    s,
                    p2 as int,
                    n as nat,
                    seq![0u32],
                ),
                u32_at(s, 0) == Some((len, p1 as int)),
                u32_at(s, p1 as int) == Some((n, p2 as int)),
            decreases n - i,
        {
            let (d, next): (u32, usize) = match get(b, at) {
                Some(x) => x,
                None => {
                    return None;
                },
            };
            if d > u32::MAX - prev {
                return None;
            }
            let ghost before = starts@;
            prev = prev + d;
            starts.push(prev);
            assert forall|x: int, y: int| 0 <= x <= y < starts@.len() implies starts@[x]
                <= starts@[y] by {
                if y < before.len() {
                    assert(before[x] <= before[y]);
                } else if x < before.len() {
                    assert(before[x] <= before[before.len() - 1]);
                }
            }
            at = next;
            i = i + 1;
        }
        let ghost p3 = at as int;
        let (m, p4): (u32, usize) = match get(b, at) {
            Some(x) => x,
            None => {
                return None;
            },
        };
        let mut wide: Vec<(u32, u32)> = Vec::new();
        let mut pp: u32 = 0;
        let mut pe: u32 = 0;
        let ghost st = starts@;
        let mut at: usize = p4;
        let mut j: u32 = 0;
        assert(wide@ =~= Seq::<(u32, u32)>::empty());
        while j < m
            invariant
                s == b@,
                at <= s.len(),
                j <= m,
                wide@.len() == j,
                (pp, pe) == wide_before(wide@, j as int),
                wide_ascending(wide@),
                wide_at(s, at as int, (m - j) as nat, wide@) == wide_at(
                    s,
                    p4 as int,
                    m as nat,
                    Seq::empty(),
                ),
                u32_at(s, 0) == Some((len, p1 as int)),
                u32_at(s, p1 as int) == Some((n, p2 as int)),
                n < u32::MAX,
                starts_at(s, p2 as int, n as nat, seq![0u32]) == Some((st, p3)),
                u32_at(s, p3) == Some((m, p4 as int)),
            decreases m - j,
        {
            let (d, next): (u32, usize) = match get(b, at) {
                Some(x) => x,
                None => {
                    return None;
                },
            };
            if d > u32::MAX - pp {
                return None;
            }
            let (e, end): (u32, usize) = match get(b, next) {
                Some(x) => x,
                None => {
                    return None;
                },
            };
            if e > u32::MAX - pe {
                return None;
            }
            let ghost before = wide@;
            pp = pp + d;
            pe = pe + e;
            wide.push((pp, pe));
            assert forall|x: int, y: int| 0 <= x <= y < wide@.len() implies (#[trigger] wide@[x]).0
                <= (#[trigger] wide@[y]).0 && wide@[x].1 <= wide@[y].1 by {
                if y < before.len() {
                    assert(before[x].0 <= before[y].0);
                } else if x < before.len() {
                    assert(before[x].0 <= before[before.len() - 1].0);
                }
            }
            at = end;
            j = j + 1;
        }
        Some(LineTable { starts, wide, len })
    }
}

proof fn lemma_starts_read_back(s: Seq<u8>, pos: int, starts: Seq<u32>, i: int)
    requires
        ascending(starts),
        1 <= i <= starts.len(),
        has_at(s, pos, start_bytes(starts, i)),
    ensures
        starts_at(s, pos, (starts.len() - i) as nat, starts.take(i)) == Some(
            (starts, pos + start_bytes(starts, i).len()),
        ),
    decreases starts.len() - i,
{
    if i < starts.len() {
        assert(starts[i - 1] <= starts[i]);
        let d = (starts[i] - starts[i - 1]) as u32;
        let head = uv_bytes(d as nat);
        lemma_has_at_split(s, pos, head, start_bytes(starts, i + 1));
        lemma_u32_reads_back(s, pos, d);
        lemma_starts_read_back(s, pos + head.len(), starts, i + 1);
        assert(starts.take(i).push(starts[i]) =~= starts.take(i + 1));
    } else {
        assert(starts.take(i) =~= starts);
    }
}

proof fn lemma_wide_read_back(s: Seq<u8>, pos: int, wide: Seq<(u32, u32)>, i: int)
    requires
        wide_ascending(wide),
        0 <= i <= wide.len(),
        has_at(s, pos, wide_bytes(wide, i)),
    ensures
        wide_at(s, pos, (wide.len() - i) as nat, wide.take(i)) == Some(
            (wide, pos + wide_bytes(wide, i).len()),
        ),
    decreases wide.len() - i,
{
    if i < wide.len() {
        let b = wide_before(wide, i);
        if i > 0 {
            assert(wide[i - 1].0 <= wide[i].0);
        }
        assert(wide_before(wide.take(i), i) == b);
        let d = (wide[i].0 - b.0) as u32;
        let e = (wide[i].1 - b.1) as u32;
        let h1 = uv_bytes(d as nat);
        let h2 = uv_bytes(e as nat);
        let rest = wide_bytes(wide, i + 1);
        assert(h1 + h2 + rest =~= h1 + (h2 + rest));
        lemma_has_at_split(s, pos, h1, h2 + rest);
        lemma_has_at_split(s, pos + h1.len(), h2, rest);
        lemma_u32_reads_back(s, pos, d);
        lemma_u32_reads_back(s, pos + h1.len(), e);
        lemma_wide_read_back(s, pos + h1.len() + h2.len(), wide, i + 1);
        assert(wide.take(i).push(wide[i]) =~= wide.take(i + 1));
    } else {
        assert(wide.take(i) =~= wide);
    }
}

proof fn lemma_table_parts(s: Seq<u8>, a: Seq<u8>, b: Seq<u8>, c: Seq<u8>, d: Seq<u8>, e: Seq<u8>)
    requires
        s == a + (b + (c + (d + e))),
    ensures
        has_at(s, 0, a),
        has_at(s, a.len() as int, b),
        has_at(s, (a.len() + b.len()) as int, c),
        has_at(s, (a.len() + b.len() + c.len()) as int, d),
        has_at(s, (a.len() + b.len() + c.len() + d.len()) as int, e),
{
    assert(s.subrange(0, s.len() as int) =~= s);
    lemma_has_at_split(s, 0, a, b + (c + (d + e)));
    lemma_has_at_split(s, a.len() as int, b, c + (d + e));
    lemma_has_at_split(s, (a.len() + b.len()) as int, c, d + e);
    lemma_has_at_split(s, (a.len() + b.len() + c.len()) as int, d, e);
}

/// Reading what a table was written as gives the table back.
pub proof fn lemma_table_round_trip(t: LineTableView)
    requires
        t.wf(),
    ensures
        table_at(table_bytes(t)) == Some(t),
{
    let s = table_bytes(t);
    let n = (t.starts.len() - 1) as u32;
    let m = t.wide.len() as u32;
    let p1 = uv_bytes(t.len as nat).len() as int;
    let p2 = p1 + uv_bytes(n as nat).len();
    let p3 = p2 + start_bytes(t.starts, 1).len();
    let p4 = p3 + uv_bytes(m as nat).len();
    lemma_table_parts(
        s,
        uv_bytes(t.len as nat),
        uv_bytes(n as nat),
        start_bytes(t.starts, 1),
        uv_bytes(m as nat),
        wide_bytes(t.wide, 0),
    );
    assert(u32_at(s, 0) == Some((t.len, p1))) by {
        lemma_u32_reads_back(s, 0, t.len);
    }
    assert(u32_at(s, p1) == Some((n, p2))) by {
        lemma_u32_reads_back(s, p1, n);
    }
    assert(starts_at(s, p2, n as nat, seq![0u32]) == Some((t.starts, p3))) by {
        lemma_starts_read_back(s, p2, t.starts, 1);
        assert(t.starts.take(1) =~= seq![0u32]);
    }
    assert(u32_at(s, p3) == Some((m, p4))) by {
        lemma_u32_reads_back(s, p3, m);
    }
    assert(wide_at(s, p4, m as nat, Seq::empty()) matches Some((w, _)) && w == t.wide) by {
        lemma_wide_read_back(s, p4, t.wide, 0);
        assert(t.wide.take(0) =~= Seq::<(u32, u32)>::empty());
    }
}

/// A line table, or the bytes of one that is read on its first lookup.
pub enum LazyTable {
    Encoded(Vec<u8>),
    Ready(LineTable),
    /// The bytes were malformed: there are no positions.
    Malformed,
}

impl LazyTable {
    pub open spec fn wf(self) -> bool {
        self matches LazyTable::Ready(t) ==> t.wf()
    }

    /// The table.
    pub open spec fn table(self) -> Option<LineTableView> {
        match self {
            LazyTable::Encoded(b) => table_at(b@),
            LazyTable::Ready(t) => Some(t@),
            LazyTable::Malformed => None,
        }
    }

    pub open spec fn spec_line_col(self, p: u32) -> Option<(u32, u32)> {
        match self.table() {
            Some(t) => t.line_col(p),
            None => None,
        }
    }

    /// A table that is read from bytes on its first lookup.
    pub fn lazy(b: Vec<u8>) -> (r: LazyTable)
        ensures
            r.wf(),
            r.table() == table_at(b@),
    {
        LazyTable::Encoded(b)
    }

    /// The 1-based line and the 0-based UTF-16 column of a byte offset. The first lookup reads
    /// the table.
    pub fn line_col(&mut self, p: u32) -> (r: Option<(u32, u32)>)
        requires
            old(self).wf(),
        ensures
            final(self).wf(),
            final(self).table() == old(self).table(),
            !(*final(self) is Encoded),
            r == old(self).spec_line_col(p),
    {
        let read: Option<Option<LineTable>> = match self {
            LazyTable::Encoded(b) => Some(LineTable::decode(b.as_slice())),
            _ => None,
        };
        match read {
            Some(Some(t)) => {
                *self = LazyTable::Ready(t);
            },
            Some(None) => {
                *self = LazyTable::Malformed;
            },
            None => {},
        }
        match self {
            LazyTable::Ready(t) => t.line_col(p),
            _ => None,
        }
    }
}

} // verus!
