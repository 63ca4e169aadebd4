//! A caching allocator by size class: its free lists, what it asks of the system, and its
//! statistics.
//!
//! Small blocks are rounded up to a size class and served from a free list per class. Every
//! cacheable request is made to the system with the layout of its class, never the caller's, so a
//! block may serve any request of its class. Large or over-aligned requests pass through.

use vstd::prelude::*;

verus! {

/// The largest cached block size, in bytes.
pub const MAX_CLASS: usize = 1024;

/// The step of the size classes, and the largest alignment of a cached block.
pub const STEP: usize = 16;

pub const NUM_CLASSES: usize = 64;

/// The most cached storage of a size class.
pub const BYTES_PER_CLASS: usize = 262144;

/// The classes up to this size have a deeper list.
pub const SMALL_CLASS_BYTES: usize = 128;

pub const BYTES_PER_SMALL_CLASS: usize = 4194304;

/// The size and alignment of a block.
#[derive(Clone, Copy, Debug, PartialEq, Eq, Structural)]
pub struct BlockLayout {
    pub size: usize,
    pub align: usize,
}

/// The size class of a layout; none for one that passes through.
pub open spec fn spec_class_of(l: BlockLayout) -> Option<usize> {
    if l.align <= STEP && 0 < l.size <= MAX_CLASS {
        Some(((l.size + STEP - 1) / STEP as int - 1) as usize)
    } else {
        None
    }
}

/// The size class of a layout; none for one that passes through.
pub fn class_of(l: BlockLayout) -> (r: Option<usize>)
    ensures
        r == spec_class_of(l),
        r matches Some(c) ==> c < NUM_CLASSES,
{
    if l.align <= STEP && l.size <= MAX_CLASS && l.size > 0 {
        Some((l.size + STEP - 1) / STEP - 1)
    } else {
        None
    }
}

/// The size of the blocks of a class.
pub open spec fn class_size(class: int) -> int {
    (class + 1) * STEP
}

/// The layout that the blocks of a class have.
pub fn class_layout(class: usize) -> (r: BlockLayout)
    requires
        class < NUM_CLASSES,
    ensures
        r.size == class_size(class as int),
        r.align == STEP,
{
    BlockLayout { size: (class + 1) * STEP, align: STEP }
}

/// The most blocks that a class keeps.
pub open spec fn spec_cap(class: int) -> int {
    if class_size(class) <= SMALL_CLASS_BYTES {
        BYTES_PER_SMALL_CLASS as int / class_size(class)
    } else {
        BYTES_PER_CLASS as int / class_size(class)
    }
}

/// The most blocks that a class keeps.
pub fn class_cap(class: usize) -> (r: usize)
    requires
        class < NUM_CLASSES,
    ensures
        r == spec_cap(class as int),
{
    let size: usize = (class + 1) * STEP;
    if size <= SMALL_CLASS_BYTES {
        BYTES_PER_SMALL_CLASS / size
    } else {
        BYTES_PER_CLASS / size
    }
}

/// Whether the lists are given back when their thread ends.
#[derive(Clone, Copy, Debug, PartialEq, Eq, Structural)]
pub enum Teardown {
    /// Not registered yet.
    Unset,
    Live,
    /// The thread has ended: frees go straight to the system.
    Dead,
}

/// A thread's free lists, each with the last freed block last.
pub struct Cache {
    pub lists: Vec<Vec<u64>>,
    pub guard: Teardown,
}

/// Where a requested block comes from.
#[derive(Clone, Copy, Debug, PartialEq, Eq, Structural)]
pub enum Source {
    Cached(u64),
    /// The system, asked with this layout.
    System(BlockLayout),
}

/// What growing or shrinking a block takes.
#[derive(Clone, Copy, Debug, PartialEq, Eq, Structural)]
pub enum Resize {
    /// Nothing: the block serves the new size too.
    Keep,
    /// A new block, into which this many bytes are copied.
    Move { copy: usize },
}

/// Whether a freed block joins the list of its class, which holds this many: while there is room
/// and the thread lives.
pub fn keeps(class: usize, held: usize, guard: Teardown) -> (r: bool)
    requires
        class < NUM_CLASSES,
    ensures
        r == (guard != Teardown::Dead && held < spec_cap(class as int)),
{
    guard != Teardown::Dead && held < class_cap(class)
}

/// What a new size takes of a block: nothing within its class, else a move that copies what both
/// sizes have.
pub open spec fn resized(l: BlockLayout, new_size: usize) -> Resize {
    let a = spec_class_of(l);
    if a is Some && a == spec_class_of(BlockLayout { size: new_size, align: l.align }) {
        Resize::Keep
    } else {
        Resize::Move {
            copy: if l.size < new_size {
                l.size
            } else {
                new_size
            },
        }
    }
}

/// What a new size takes of a block.
pub fn resize_of(l: BlockLayout, new_size: usize) -> (r: Resize)
    ensures
        r == resized(l, new_size),
{
    let a = class_of(l);
    let b = class_of(BlockLayout { size: new_size, align: l.align });
    if let (Some(x), Some(y)) = (a, b) {
        if x == y {
            return Resize::Keep;
        }
    }
    Resize::Move {
        copy: if l.size < new_size {
            l.size
        } else {
            new_size
        },
    }
}

/// The allocator.
pub struct ClassAlloc {
    pub cache: Cache,
}

impl ClassAlloc {
    /// No list is longer than its class allows.
    pub open spec fn wf(self) -> bool {
        &&& self.cache.lists@.len() == NUM_CLASSES
        &&& forall|k: int|
            0 <= k < NUM_CLASSES ==> (#[trigger] self.cache.lists@[k])@.len() <= spec_cap(k)
    }

    /// An allocator with empty lists.
    pub fn new() -> (r: ClassAlloc)
        ensures
            r.wf(),
            r.cache.guard == Teardown::Unset,
            forall|k: int| 0 <= k < NUM_CLASSES ==> (#[trigger] r.cache.lists@[k])@.len() == 0,
    {
        let mut lists: Vec<Vec<u64>> = Vec::new();
        let mut i: usize = 0;
        while i < NUM_CLASSES
            invariant
                i <= NUM_CLASSES,
                lists@.len() == i,
                forall|k: int| 0 <= k < i ==> (#[trigger] lists@[k])@.len() == 0,
            decreases NUM_CLASSES - i,
        {
            lists.push(Vec::new());
            i = i + 1;
        }
        let r = ClassAlloc { cache: Cache { lists, guard: Teardown::Unset } };
        assert forall|k: int| 0 <= k < NUM_CLASSES implies (
        #[trigger] r.cache.lists@[k])@.len() <= spec_cap(k) by {
            lemma_cap(k);
        }
        r
    }

    /// Takes a block: the last freed one of its class, else one from the system with the layout
    /// of the class.
    pub fn raw_alloc(&mut self, l: BlockLayout) -> (r: Source)
        requires
            old(self).wf(),
        ensures
            final(self).wf(),
            takes(*old(self), *final(self), l, r),
    {
        match class_of(l) {
            Some(c) => {
                let n: usize = self.cache.lists[c].len();
                if n > 0 {
                    let p = self.cache.lists[c].remove(n - 1);
                    assert(self.cache.lists@[c as int]@ =~= old(
                        self).cache.lists@[c as int]@.drop_last());
                    return Source::Cached(p);
                }
                Source::System(class_layout(c))
            },
            None => Source::System(l),
        }
    }

    /// Gives a block back: it joins the list of its class while there is room and the thread
    /// lives, else it goes to the system, with the layout it was asked for with.
    pub fn raw_dealloc(&mut self, p: u64, l: BlockLayout) -> (r: Option<BlockLayout>)
        requires
            old(self).wf(),
        ensures
            final(self).wf(),
            gives(*old(self), *final(self), p, l, r),
    {
        match class_of(l) {
            Some(c) => {
                if self.cache.guard == Teardown::Unset {
                    self.cache.guard = Teardown::Live;
                }
                if keeps(c, self.cache.lists[c].len(), self.cache.guard) {
                    self.cache.lists[c].push(p);
                    return None;
                }
                Some(class_layout(c))
            },
            None => Some(l),
        }
    }

    /// Resizes a block: within a size class that is free, else the block moves.
    pub fn raw_realloc(&self, l: BlockLayout, new_size: usize) -> (r: Resize)
        ensures
            r == resized(l, new_size),
    {
        resize_of(l, new_size)
    }

    /// Takes every cached block off the lists, for the system: the blocks of each class.
    pub fn drain(&mut self) -> (r: Vec<Vec<u64>>)
        requires
            old(self).wf(),
        ensures
            final(self).wf(),
            final(self).cache.guard == old(self).cache.guard,
            r@ == old(self).cache.lists@,
            forall|k: int|
                0 <= k < NUM_CLASSES ==> (#[trigger] final(self).cache.lists@[k])@.len() == 0,
    {
        let mut empty = ClassAlloc::new();
        empty.cache.guard = self.cache.guard;
        let mut lists = empty.cache.lists;
        std::mem::swap(&mut lists, &mut self.cache.lists);
        lists
    }

    /// The thread ends: the lists go to the system, and later frees do too.
    pub fn end_thread(&mut self) -> (r: Vec<Vec<u64>>)
        requires
            old(self).wf(),
        ensures
            final(self).wf(),
            final(self).cache.guard == Teardown::Dead,
            r@ == old(self).cache.lists@,
            forall|k: int|
                0 <= k < NUM_CLASSES ==> (#[trigger] final(self).cache.lists@[k])@.len() == 0,
    {
        let r = self.drain();
        self.cache.guard = Teardown::Dead;
        r
    }
}

/// A block is taken: the last freed one of its class, else one from the system with the layout
/// of the class.
pub open spec fn takes(before: ClassAlloc, after: ClassAlloc, l: BlockLayout, r: Source) -> bool {
    match spec_class_of(l) {
        Some(c) => {
            let list = before.cache.lists@[c as int]@;
            if list.len() > 0 {
                &&& r == Source::Cached(list.last())
                &&& after.cache.guard == before.cache.guard
                &&& after.cache.lists@[c as int]@ == list.drop_last()
                &&& same_lists_but(before.cache.lists@, after.cache.lists@, c as int)
            } else {
                &&& r matches Source::System(s)
                &&& s.size == class_size(c as int)
                &&& s.align == STEP
                &&& after == before
            }
        },
        None => r == Source::System(l) && after == before,
    }
}

/// A block is given back: it joins the list of its class while there is room and the thread
/// lives, else it goes to the system, with the layout it was asked for with.
pub open spec fn gives(
    before: ClassAlloc,
    after: ClassAlloc,
    p: u64,
    l: BlockLayout,
    r: Option<BlockLayout>,
) -> bool {
    match spec_class_of(l) {
        Some(c) => {
            let list = before.cache.lists@[c as int]@;
            let kept = before.cache.guard != Teardown::Dead && list.len() < spec_cap(c as int);
            &&& after.cache.guard == if before.cache.guard == Teardown::Unset {
                Teardown::Live
            } else {
                before.cache.guard
            }
            &&& same_lists_but(before.cache.lists@, after.cache.lists@, c as int)
            &&& if kept {
                r is None && after.cache.lists@[c as int]@ == list.push(p)
            } else {
                &&& r matches Some(s)
                &&& s.size == class_size(c as int)
                &&& s.align == STEP
                &&& after.cache.lists@[c as int]@ == list
            }
        },
        None => r == Some(l) && after == before,
    }
}

/// The lists are the same, but for that of one class.
pub open spec fn same_lists_but(a: Seq<Vec<u64>>, b: Seq<Vec<u64>>, c: int) -> bool {
    &&& b.len() == a.len()
    &&& forall|k: int| 0 <= k < a.len() && k != c ==> (#[trigger] b[k])@ == a[k]@
}

proof fn lemma_cap(class: int)
    requires
        0 <= class < NUM_CLASSES,
    ensures
        spec_cap(class) >= 0,
        spec_cap(class) * class_size(class) <= if class_size(class) <= SMALL_CLASS_BYTES {
            BYTES_PER_SMALL_CLASS as int
        } else {
            BYTES_PER_CLASS as int
        },
{
    let s = class_size(class);
    assert(s > 0);
    let t = if s <= SMALL_CLASS_BYTES {
        BYTES_PER_SMALL_CLASS as int
    } else {
        BYTES_PER_CLASS as int
    };
    assert(0 <= t / s && (t / s) * s <= t) by (nonlinear_arith)
        requires
            s > 0,
            t >= 0,
    ;
}

/// A block of a class is large enough for every request of the class, and wastes less than a
/// step.
pub proof fn lemma_class_blocks_fit(l: BlockLayout)
    ensures
        spec_class_of(l) matches Some(c) ==> l.size <= class_size(c as int) < l.size + STEP && l.align
            <= STEP,
{
}

/// A freed block that was kept serves the next request of its class, and the lists are then as
/// they were before it was freed.
pub proof fn lemma_freed_blocks_are_reused(
    a: ClassAlloc,
    b: ClassAlloc,
    c: ClassAlloc,
    p: u64,
    freed: BlockLayout,
    asked: BlockLayout,
    r: Source,
)
    requires
        a.wf(),
        spec_class_of(freed) is Some,
        spec_class_of(asked) == spec_class_of(freed),
        gives(a, b, p, freed, None),
        takes(b, c, asked, r),
    ensures
        r == Source::Cached(p),
        forall|k: int|
            0 <= k < NUM_CLASSES ==> (#[trigger] c.cache.lists@[k])@ == a.cache.lists@[k]@,
{
    let k = spec_class_of(freed)->0 as int;
    let list = a.cache.lists@[k]@;
    assert(list.push(p).drop_last() =~= list);
    assert forall|i: int| 0 <= i < NUM_CLASSES implies (#[trigger] c.cache.lists@[i])@
        == a.cache.lists@[i]@ by {
        if i != k {
            assert(b.cache.lists@[i]@ == a.cache.lists@[i]@);
        }
    }
}

/// The bytes that the lists of the first classes hold.
pub open spec fn cached_bytes(lists: Seq<Vec<u64>>, n: int) -> int
    decreases n,
{
    if n <= 0 {
        0
    } else {
        cached_bytes(lists, n - 1) + lists[n - 1]@.len() * class_size(n - 1)
    }
}

proof fn lemma_cached_bytes(lists: Seq<Vec<u64>>, n: int)
    requires
        0 <= n <= NUM_CLASSES,
        lists.len() == NUM_CLASSES,
        forall|k: int| 0 <= k < NUM_CLASSES ==> (#[trigger] lists[k])@.len() <= spec_cap(k),
    ensures
        cached_bytes(lists, n) <= if n <= 8 {
            n * BYTES_PER_SMALL_CLASS
        } else {
            8 * BYTES_PER_SMALL_CLASS + (n - 8) * BYTES_PER_CLASS
        },
    decreases n,
{
    if n > 0 {
        lemma_cached_bytes(lists, n - 1);
        lemma_cap(n - 1);
        let len = lists[n - 1]@.len() as int;
        let cap = spec_cap(n - 1);
        let s = class_size(n - 1);
        assert(len * s <= cap * s) by (nonlinear_arith)
            requires
                0 <= len <= cap,
                s >= 0,
        ;
    }
}

/// A thread's lists never hold more than eight times four megabytes of the small classes and 56
/// times a quarter of a megabyte of the others.
pub proof fn lemma_cache_is_bounded(a: ClassAlloc)
    requires
        a.wf(),
    ensures
        cached_bytes(a.cache.lists@, NUM_CLASSES as int) <= 48234496,
{
    lemma_cached_bytes(a.cache.lists@, NUM_CLASSES as int);
}

// ---- statistics -----------------------------------------------------------------------------

/// The number of categories.
pub const CATEGORIES: usize = 32;

/// The number of size buckets.
pub const BUCKETS: usize = 8;

/// The allocation counters.
pub struct Stats {
    pub live: i64,
    pub peak: i64,
    pub in_lists: i64,
    pub count: u64,
    /// The live bytes of each category.
    pub cats: Vec<i64>,
    /// The live bytes of each category and size bucket, the buckets of a category together.
    pub sizes: Vec<i64>,
    /// Allocations of at least this many bytes are reported; 0 for none.
    pub trace_at: usize,
}

/// A sum as the counters make it.
pub open spec fn wrap_sum(a: i64, b: i64) -> i64 {
    a.wrapping_add(b)
}

/// A counter read as a size: none is negative.
pub open spec fn at_least_zero(a: i64) -> u64 {
    if a < 0 {
        0
    } else {
        a as u64
    }
}

/// The size bucket of a block: up to 32, 64, 128, 256, 1 K, 4 K and 64 K bytes, and larger.
pub open spec fn spec_bucket(n: usize) -> usize {
    if n <= 32 {
        0
    } else if n <= 64 {
        1
    } else if n <= 128 {
        2
    } else if n <= 256 {
        3
    } else if n <= 1024 {
        4
    } else if n <= 4096 {
        5
    } else if n <= 65536 {
        6
    } else {
        7
    }
}

/// The size bucket of a block.
pub fn bucket(n: usize) -> (r: usize)
    ensures
        r == spec_bucket(n),
        r < BUCKETS,
{
    if n <= 32 {
        0
    } else if n <= 64 {
        1
    } else if n <= 128 {
        2
    } else if n <= 256 {
        3
    } else if n <= 1024 {
        4
    } else if n <= 4096 {
        5
    } else if n <= 65536 {
        6
    } else {
        7
    }
}

/// The peak once the live bytes are so many.
pub open spec fn raised(peak: i64, live: i64) -> i64 {
    if live > peak {
        live
    } else {
        peak
    }
}

/// The live bytes, the most there were, and the allocations.
#[derive(Clone, Copy, Debug, PartialEq, Eq, Structural)]
pub struct Totals {
    pub live: i64,
    pub peak: i64,
    pub count: u64,
}

/// What the totals count.
#[derive(Clone, Copy, Debug, PartialEq, Eq, Structural)]
pub enum Tally {
    Alloc(usize),
    Free(usize),
    /// Slab chunks mapped or unmapped outside the allocator.
    Slab(i64),
}

impl Totals {
    /// The totals after an event.
    pub open spec fn after(self, t: Tally) -> Totals {
        match t {
            Tally::Alloc(n) => {
                let live = wrap_sum(self.live, n as i64);
                Totals {
                    live,
                    peak: raised(self.peak, live),
                    count: self.count.wrapping_add(1),
                }
            },
            Tally::Free(n) => Totals { live: self.live.wrapping_sub(n as i64), ..self },
            Tally::Slab(d) => {
                let live = wrap_sum(self.live, d);
                Totals { live, peak: raised(self.peak, live), ..self }
            },
        }
    }

    /// The totals after a run of events.
    pub open spec fn run(self, ts: Seq<Tally>) -> Totals
        decreases ts.len(),
    {
        if ts.len() == 0 {
            self
        } else {
            self.run(ts.drop_last()).after(ts.last())
        }
    }

    /// Counting an event overflows no counter.
    pub open spec fn counts(self, t: Tally) -> bool {
        match t {
            Tally::Alloc(n) => n <= i64::MAX && self.live + n <= i64::MAX && self.count < u64::MAX,
            Tally::Free(n) => n <= i64::MAX && self.live - n >= i64::MIN,
            Tally::Slab(d) => i64::MIN <= self.live + d <= i64::MAX,
        }
    }

    /// Counting a run of events overflows no counter.
    pub open spec fn counts_all(self, ts: Seq<Tally>) -> bool
        decreases ts.len(),
    {
        ts.len() > 0 ==> self.counts_all(ts.drop_last()) && self.run(ts.drop_last()).counts(
            ts.last(),
        )
    }
}

/// The peak is never below the live bytes, and neither the peak nor the number of allocations
/// ever falls, whatever is allocated, freed and mapped; so it is too of what
/// [`Stats::counters`] shows.
pub proof fn lemma_peak_covers_live(t: Totals, ts: Seq<Tally>)
    requires
        t.live <= t.peak,
        t.counts_all(ts),
    ensures
        ({
            let u = t.run(ts);
            &&& u.live <= u.peak
            &&& t.peak <= u.peak
            &&& t.count <= u.count
            &&& at_least_zero(u.live) <= at_least_zero(u.peak)
            &&& at_least_zero(t.peak) <= at_least_zero(u.peak)
        }),
    decreases ts.len(),
{
    if ts.len() > 0 {
        lemma_peak_covers_live(t, ts.drop_last());
    }
}

impl Stats {
    pub open spec fn totals(self) -> Totals {
        Totals { live: self.live, peak: self.peak, count: self.count }
    }

    pub open spec fn wf(self) -> bool {
        self.cats@.len() == CATEGORIES && self.sizes@.len() == CATEGORIES * BUCKETS
    }

    /// Every counter is 0.
    pub fn new() -> (r: Stats)
        ensures
            r.wf(),
            r.live == 0,
            r.peak == 0,
            r.in_lists == 0,
            r.count == 0,
            r.trace_at == 0,
            forall|i: int| 0 <= i < CATEGORIES ==> r.cats@[i] == 0,
            forall|i: int| 0 <= i < CATEGORIES * BUCKETS ==> r.sizes@[i] == 0,
    {
        let mut cats: Vec<i64> = Vec::new();
        let mut i: usize = 0;
        while i < CATEGORIES
            invariant
                i <= CATEGORIES,
                cats@.len() == i,
                forall|k: int| 0 <= k < i ==> cats@[k] == 0,
            decreases CATEGORIES - i,
        {
            cats.push(0);
            i = i + 1;
        }
        let mut sizes: Vec<i64> = Vec::new();
        let mut j: usize = 0;
        while j < CATEGORIES * BUCKETS
            invariant
                j <= CATEGORIES * BUCKETS,
                sizes@.len() == j,
                forall|k: int| 0 <= k < j ==> sizes@[k] == 0,
            decreases CATEGORIES * BUCKETS - j,
        {
            sizes.push(0);
            j = j + 1;
        }
        Stats { live: 0, peak: 0, in_lists: 0, count: 0, cats, sizes, trace_at: 0 }
    }

    /// Counts an allocation.
    pub fn count_alloc(&mut self, n: usize)
        requires
            n <= i64::MAX,
        ensures
            final(self).totals() == old(self).totals().after(Tally::Alloc(n)),
            *final(self) == (Stats {
                live: final(self).live,
                count: final(self).count,
                peak: final(self).peak,
                ..*old(self)
            }),
    {
        self.live = self.live.wrapping_add(n as i64);
        self.count = self.count.wrapping_add(1);
        if self.live > self.peak {
            self.peak = self.live;
        }
    }

    /// Counts a free.
    pub fn free(&mut self, n: usize)
        requires
            n <= i64::MAX,
        ensures
            final(self).totals() == old(self).totals().after(Tally::Free(n)),
            *final(self) == (Stats { live: final(self).live, ..*old(self) }),
    {
        self.live = self.live.wrapping_sub(n as i64);
    }

    /// Counts slab chunks that are mapped outside the allocator, or unmapped.
    pub fn note_slab(&mut self, slab: u8, delta: i64)
        requires
            old(self).wf(),
        ensures
            final(self).wf(),
            final(self).totals() == old(self).totals().after(Tally::Slab(delta)),
            final(self).cats@ == old(self).cats@.update(
                slab as int % 32,
                wrap_sum(old(self).cats@[slab as int % 32], delta),
            ),
            *final(self) == (Stats {
                live: final(self).live,
                peak: final(self).peak,
                cats: final(self).cats,
                ..*old(self)
            }),
    {
        self.cat_add(slab, delta);
        self.live = self.live.wrapping_add(delta);
        if self.live > self.peak {
            self.peak = self.live;
        }
    }

    /// Counts bytes onto or off the lists.
    pub fn cached(&mut self, delta: i64)
        ensures
            *final(self) == (Stats {
                in_lists: wrap_sum(old(self).in_lists, delta),
                ..*old(self)
            }),
    {
        self.in_lists = self.in_lists.wrapping_add(delta);
    }

    /// Counts bytes of a category.
    pub fn cat_add(&mut self, cat: u8, delta: i64)
        requires
            old(self).wf(),
        ensures
            final(self).wf(),
            final(self).cats@ == old(self).cats@.update(
                cat as int % 32,
                wrap_sum(old(self).cats@[cat as int % 32], delta),
            ),
            *final(self) == (Stats { cats: final(self).cats, ..*old(self) }),
    {
        let k: usize = (cat % 32) as usize;
        let v: i64 = self.cats[k].wrapping_add(delta);
        self.cats.set(k, v);
    }

    /// Counts bytes of a category and a block size.
    pub fn size_add(&mut self, cat: u8, size: usize, delta: i64)
        requires
            old(self).wf(),
        ensures
            final(self).wf(),
            ({
                let k = (cat as int % 32) * BUCKETS + spec_bucket(size);
                final(self).sizes@ == old(self).sizes@.update(
                    k,
                    wrap_sum(old(self).sizes@[k], delta),
                )
            }),
            *final(self) == (Stats { sizes: final(self).sizes, ..*old(self) }),
    {
        let k: usize = (cat % 32) as usize * BUCKETS + bucket(size);
        let v: i64 = self.sizes[k].wrapping_add(delta);
        self.sizes.set(k, v);
    }

    /// The live bytes of each category and size bucket.
    pub fn size_buckets(&self) -> (r: Vec<i64>)
        ensures
            r@ == self.sizes@,
    {
        let mut out: Vec<i64> = Vec::new();
        let mut i: usize = 0;
        while i < self.sizes.len()
            invariant
                i <= self.sizes@.len(),
                out@ == self.sizes@.take(i as int),
            decreases self.sizes@.len() - i,
        {
            out.push(self.sizes[i]);
            i = i + 1;
            assert(out@ =~= self.sizes@.take(i as int));
        }
        assert(out@ =~= self.sizes@);
        out
    }

    /// Reports every later allocation of at least this many bytes; 0 turns it off.
    pub fn trace_allocations_from(&mut self, bytes: usize)
        ensures
            *final(self) == (Stats { trace_at: bytes, ..*old(self) }),
    {
        self.trace_at = bytes;
    }

    /// Whether an allocation is reported.
    pub fn traces(&self, size: usize) -> (r: bool)
        ensures
            r == (self.trace_at != 0 && size >= self.trace_at),
    {
        self.trace_at != 0 && size >= self.trace_at
    }

    /// The live bytes of each category.
    pub fn category_bytes(&self) -> (r: Vec<i64>)
        ensures
            r@ == self.cats@,
    {
        let mut out: Vec<i64> = Vec::new();
        let mut i: usize = 0;
        while i < self.cats.len()
            invariant
                i <= self.cats@.len(),
                out@ == self.cats@.take(i as int),
            decreases self.cats@.len() - i,
        {
            out.push(self.cats[i]);
            i = i + 1;
            assert(out@ =~= self.cats@.take(i as int));
        }
        assert(out@ =~= self.cats@);
        out
    }

    /// The live bytes, the most there were, the bytes on the lists, and the allocations.
    pub fn counters(&self) -> (r: (u64, u64, u64, u64))
        ensures
            r == (
                at_least_zero(self.live),
                at_least_zero(self.peak),
                at_least_zero(self.in_lists),
                self.count,
            ),
    {
        let live: u64 = if self.live < 0 {
            0
        } else {
            self.live as u64
        };
        let peak: u64 = if self.peak < 0 {
            0
        } else {
            self.peak as u64
        };
        let lists: u64 = if self.in_lists < 0 {
            0
        } else {
            self.in_lists as u64
        };
        (live, peak, lists, self.count)
    }
}

/// A block's layout with the header that records its category; an over-aligned block has none.
pub open spec fn with_header(l: BlockLayout) -> BlockLayout {
    if l.align > STEP {
        l
    } else {
        BlockLayout { size: (l.size + STEP) as usize, align: STEP }
    }
}

/// The counters with bytes of a category and of a block size counted.
pub open spec fn categorized(
    s: Stats,
    k: Stats,
    l: BlockLayout,
    cat: u8,
    slab: u8,
    delta: i64,
) -> bool {
    if l.align > STEP {
        &&& k.cats@ == s.cats@.update(
            slab as int % 32,
            wrap_sum(s.cats@[slab as int % 32], delta),
        )
        &&& k.sizes == s.sizes
    } else {
        let b = (cat as int % 32) * BUCKETS + spec_bucket(l.size);
        &&& k.cats@ == s.cats@.update(cat as int % 32, wrap_sum(s.cats@[cat as int % 32], delta))
        &&& k.sizes@ == s.sizes@.update(b, wrap_sum(s.sizes@[b], delta))
    }
}

impl Stats {
    fn categorize(&mut self, l: BlockLayout, cat: u8, slab: u8, delta: i64)
        requires
            old(self).wf(),
        ensures
            final(self).wf(),
            categorized(*old(self), *final(self), l, cat, slab, delta),
            *final(self) == (Stats {
                cats: final(self).cats,
                sizes: final(self).sizes,
                ..*old(self)
            }),
    {
        if l.align > STEP {
            self.cat_add(slab, delta);
        } else {
            self.cat_add(cat, delta);
            self.size_add(cat, l.size, delta);
        }
    }

    /// Counts an allocation that is asked for, and gives the layout to ask for: over-aligned
    /// blocks count for the slabs and have no header. A block with a header is counted for its
    /// category once it is there (see [`Stats::counted_block`]).
    pub fn counted_alloc(&mut self, l: BlockLayout, slab: u8) -> (r: BlockLayout)
        requires
            old(self).wf(),
            l.size <= i64::MAX,
            l.size + STEP <= usize::MAX,
        ensures
            final(self).wf(),
            r == with_header(l),
            final(self).totals() == old(self).totals().after(Tally::Alloc(l.size)),
            if l.align > STEP {
                categorized(*old(self), *final(self), l, slab, slab, l.size as i64)
            } else {
                final(self).cats == old(self).cats && final(self).sizes == old(self).sizes
            },
            final(self).in_lists == old(self).in_lists,
            final(self).trace_at == old(self).trace_at,
    {
        self.count_alloc(l.size);
        if l.align > STEP {
            self.cat_add(slab, l.size as i64);
            l
        } else {
            BlockLayout { size: l.size + STEP, align: STEP }
        }
    }

    /// Counts a block with a header, which was allocated, for its category. Says whether the
    /// allocation is reported.
    pub fn counted_block(&mut self, l: BlockLayout, cat: u8) -> (r: bool)
        requires
            old(self).wf(),
            l.align <= STEP,
            l.size <= i64::MAX,
        ensures
            final(self).wf(),
            r == (old(self).trace_at != 0 && l.size >= old(self).trace_at),
            categorized(*old(self), *final(self), l, cat, cat, l.size as i64),
            *final(self) == (Stats {
                cats: final(self).cats,
                sizes: final(self).sizes,
                ..*old(self)
            }),
    {
        self.categorize(l, cat, cat, l.size as i64);
        self.traces(l.size)
    }

    /// Counts a free of a block of a category, and gives the layout to free with.
    pub fn counted_dealloc(&mut self, l: BlockLayout, cat: u8, slab: u8) -> (r: BlockLayout)
        requires
            old(self).wf(),
            l.size <= i64::MAX,
            l.size + STEP <= usize::MAX,
        ensures
            final(self).wf(),
            r == with_header(l),
            final(self).totals() == old(self).totals().after(Tally::Free(l.size)),
            categorized(*old(self), *final(self), l, cat, slab, (-(l.size as i64)) as i64),
            final(self).in_lists == old(self).in_lists,
            final(self).trace_at == old(self).trace_at,
    {
        self.free(l.size);
        let size: i64 = l.size as i64;
        self.categorize(l, cat, slab, -size);
        if l.align > STEP {
            l
        } else {
            BlockLayout { size: l.size + STEP, align: STEP }
        }
    }

    /// Counts a resize that succeeded: the old block's bytes go, the new block's come. Says
    /// whether it is reported: it reaches the traced size, which the old block did not.
    pub fn counted_realloc(&mut self, l: BlockLayout, new_size: usize, cat: u8, slab: u8) -> (r: bool)
        requires
            old(self).wf(),
            l.size <= i64::MAX,
            new_size <= i64::MAX,
        ensures
            final(self).wf(),
            final(self).totals() == old(self).totals().after(Tally::Free(l.size)).after(
                Tally::Alloc(new_size),
            ),
            final(self).in_lists == old(self).in_lists,
            final(self).trace_at == old(self).trace_at,
            r == (l.align <= STEP && old(self).trace_at != 0 && new_size >= old(self).trace_at
                && l.size < old(self).trace_at),
            exists|mid: Stats|
                {
                    &&& #[trigger] categorized(
                        *old(self),
                        mid,
                        l,
                        cat,
                        slab,
                        (-(l.size as i64)) as i64,
                    )
                    &&& categorized(
                        mid,
                        *final(self),
                        BlockLayout { size: new_size, align: l.align },
                        cat,
                        slab,
                        new_size as i64,
                    )
                },
    {
        self.free(l.size);
        self.count_alloc(new_size);
        let size: i64 = l.size as i64;
        let ghost counted = *self;
        self.categorize(l, cat, slab, -size);
        let ghost mid = *self;
        self.categorize(
            BlockLayout { size: new_size, align: l.align },
            cat,
            slab,
            new_size as i64,
        );
        assert(categorized(*old(self), mid, l, cat, slab, (-(l.size as i64)) as i64));
        l.align <= STEP && self.trace_at != 0 && new_size >= self.trace_at && l.size
            < self.trace_at
    }
}

} // verus!
