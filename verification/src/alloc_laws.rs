//! Laws of size classes and allocation counts.

use crate::fastalloc::{
    at_least_zero, categorized, class_size, gives, resized, spec_bucket, spec_cap, spec_class_of,
    takes, with_header, BlockLayout, ClassAlloc, Resize, Source, Stats, Tally, Totals, NUM_CLASSES,
};
use vstd::prelude::*;

verus! {

/// Small blocks are handed out in classes sixteen bytes apart: a block's class is the first
/// whose size it fits. Larger or more strictly aligned blocks have none, nor has an empty one.
pub proof fn lemma_blocks_fit_the_first_class(l: BlockLayout, c: usize)
    ensures
        spec_class_of(l) == Some(c) <==> {
            &&& l.align <= 16
            &&& 0 < l.size <= 1024
            &&& 16 * c < l.size <= 16 * (c + 1)
        },
        spec_class_of(l) is None <==> l.align > 16 || l.size == 0 || l.size > 1024,
        class_size(c as int) == 16 * (c + 1),
{
}

/// A class keeps blocks of a quarter of a megabyte, or of four megabytes where they are small,
/// and no more.
pub proof fn lemma_classes_keep_so_many_bytes(c: int)
    requires
        0 <= c < NUM_CLASSES,
    ensures
        ({
            let room = if class_size(c) <= 128 {
                4194304int
            } else {
                262144
            };
            &&& spec_cap(c) * class_size(c) <= room
            &&& (spec_cap(c) + 1) * class_size(c) > room
        }),
{
    let s = class_size(c);
    let room: int = if s <= 128 {
        4194304
    } else {
        262144
    };
    vstd::arithmetic::div_mod::lemma_fundamental_div_mod(room, s);
    vstd::arithmetic::div_mod::lemma_mod_bound(room, s);
    let k = room / s;
    assert(k * s == s * k) by (nonlinear_arith);
    assert((k + 1) * s == k * s + s) by (nonlinear_arith);
}

/// A block stays where it is while its new size has the same class; otherwise what both sizes
/// hold is copied.
pub proof fn lemma_blocks_stay_within_their_class(l: BlockLayout, n: usize)
    ensures
        resized(l, n) is Keep <==> {
            &&& l.align <= 16
            &&& 0 < l.size <= 1024
            &&& 0 < n <= 1024
            &&& (l.size + 15) / 16 == (n + 15) / 16
        },
        resized(l, n) matches Resize::Move { copy } ==> copy <= l.size && copy <= n && (copy == l.size
            || copy == n),
{
}

/// A block is taken from its class's list, the last that was given first, and from the system
/// when the list is empty or it has no class.
pub proof fn lemma_blocks_are_taken_last_first(
    before: ClassAlloc,
    after: ClassAlloc,
    l: BlockLayout,
    r: Source,
    k: int,
)
    requires
        before.wf(),
        takes(before, after, l, r),
    ensures
        spec_class_of(l) is None ==> r == Source::System(l) && after == before,
        spec_class_of(l) matches Some(c) ==> {
            let list = before.cache.lists@[c as int]@;
            &&& r matches Source::Cached(p) ==> list.len() > 0 && p == list[list.len() - 1]
                && after.cache.lists@[c as int]@ == list.take(list.len() - 1)
            &&& r matches Source::System(s) ==> list.len() == 0 && s.size == 16 * (c + 1) && s.align
                == 16 && after == before
            &&& list.len() > 0 ==> r is Cached
            &&& 0 <= k < NUM_CLASSES && k != c ==> after.cache.lists@[k]@ == before.cache.lists@[k]@
        },
        after.cache.guard == before.cache.guard,
{
    if let Some(c) = spec_class_of(l) {
        let list = before.cache.lists@[c as int]@;
        if list.len() > 0 {
            assert(list.take(list.len() - 1) =~= list.drop_last());
        }
    }
}

/// A block that is given back is kept while its class has room and the thread lives; otherwise
/// it goes back to the system in its class's size.
pub proof fn lemma_blocks_are_kept_while_there_is_room(
    before: ClassAlloc,
    after: ClassAlloc,
    p: u64,
    l: BlockLayout,
    r: Option<BlockLayout>,
    k: int,
)
    requires
        before.wf(),
        gives(before, after, p, l, r),
    ensures
        spec_class_of(l) is None ==> r == Some(l) && after == before,
        spec_class_of(l) matches Some(c) ==> {
            let list = before.cache.lists@[c as int]@;
            &&& r is None <==> !(before.cache.guard is Dead) && list.len() < spec_cap(c as int)
            &&& r is None ==> after.cache.lists@[c as int]@ == list.push(p)
            &&& r matches Some(s) ==> s.size == 16 * (c + 1) && s.align == 16
                && after.cache.lists@[c as int]@ == list
            &&& before.cache.guard is Unset ==> after.cache.guard is Live
            &&& !(before.cache.guard is Unset) ==> after.cache.guard == before.cache.guard
            &&& 0 <= k < NUM_CLASSES && k != c ==> after.cache.lists@[k]@ == before.cache.lists@[k]@
        },
{
}

/// The buckets of sizes.
pub proof fn lemma_sizes_have_buckets(n: usize)
    ensures
        spec_bucket(n) == 0 <==> n <= 32,
        spec_bucket(n) == 1 <==> 32 < n <= 64,
        spec_bucket(n) == 2 <==> 64 < n <= 128,
        spec_bucket(n) == 3 <==> 128 < n <= 256,
        spec_bucket(n) == 4 <==> 256 < n <= 1024,
        spec_bucket(n) == 5 <==> 1024 < n <= 4096,
        spec_bucket(n) == 6 <==> 4096 < n <= 65536,
        spec_bucket(n) == 7 <==> n > 65536,
{
}

/// Counting an allocation adds its bytes and one to the count, freeing takes its bytes away, and
/// the peak is the most that was live.
pub proof fn lemma_counts_follow_allocations(t: Totals, n: usize, d: i64)
    ensures
        n <= i64::MAX && t.live + n <= i64::MAX ==> {
            let u = t.after(Tally::Alloc(n));
            &&& u.live == t.live + n
            &&& u.peak >= u.live && u.peak >= t.peak && (u.peak == u.live || u.peak == t.peak)
            &&& t.count < u64::MAX ==> u.count == t.count + 1
        },
        n <= i64::MAX && t.live - n >= i64::MIN ==> {
            let u = t.after(Tally::Free(n));
            u.live == t.live - n && u.peak == t.peak && u.count == t.count
        },
        i64::MIN <= t.live + d <= i64::MAX ==> {
            let u = t.after(Tally::Slab(d));
            &&& u.live == t.live + d
            &&& u.peak >= u.live && u.peak >= t.peak && (u.peak == u.live || u.peak == t.peak)
            &&& u.count == t.count
        },
        d >= 0 ==> at_least_zero(d) == d,
        d < 0 ==> at_least_zero(d) == 0,
        n <= i64::MAX && t.live + n <= i64::MAX ==> t.after(Tally::Alloc(n)).after(
            Tally::Free(n),
        ).live == t.live,
{
}

/// A counted block carries a header of sixteen bytes before it; a block that is more strictly
/// aligned carries none.
pub proof fn lemma_counted_blocks_have_a_header(l: BlockLayout)
    requires
        l.size + 16 <= usize::MAX,
    ensures
        l.align > 16 ==> with_header(l) == l,
        l.align <= 16 ==> with_header(l).size == l.size + 16 && with_header(l).align == 16,
{
}

/// A block is counted under its category, and under its size among the category's; one that is
/// more strictly aligned under the slab's category alone.
pub proof fn lemma_blocks_are_counted_by_category(
    s: Stats,
    k: Stats,
    l: BlockLayout,
    cat: u8,
    slab: u8,
    d: i64,
    i: int,
)
    requires
        s.wf(),
        categorized(s, k, l, cat, slab, d),
    ensures
        ({
            let c = if l.align > 16 {
                slab as int % 32
            } else {
                cat as int % 32
            };
            &&& k.cats@.len() == s.cats@.len()
            &&& i64::MIN <= s.cats@[c] + d <= i64::MAX ==> k.cats@[c] == s.cats@[c] + d
            &&& 0 <= i < s.cats@.len() && i != c ==> k.cats@[i] == s.cats@[i]
        }),
        l.align > 16 ==> k.sizes == s.sizes,
        l.align <= 16 ==> {
            let b = (cat as int % 32) * 8 + spec_bucket(l.size);
            &&& k.sizes@.len() == s.sizes@.len()
            &&& i64::MIN <= s.sizes@[b] + d <= i64::MAX ==> k.sizes@[b] == s.sizes@[b] + d
            &&& 0 <= i < s.sizes@.len() && i != b ==> k.sizes@[i] == s.sizes@[i]
        },
{
}

} // verus!
