//! The size-class allocator and its counters.

use lumen::fastalloc::{
    bucket, class_cap, class_layout, class_of, keeps, resize_of, BlockLayout, ClassAlloc, Resize,
    Source, Stats, Teardown,
};

fn layout(size: usize) -> BlockLayout {
    BlockLayout { size, align: 8 }
}

#[test]
fn classes_round_up_in_steps() {
    assert_eq!(class_of(layout(1)), Some(0));
    assert_eq!(class_of(layout(16)), Some(0));
    assert_eq!(class_of(layout(17)), Some(1));
    assert_eq!(class_of(layout(1024)), Some(63));
    assert_eq!(class_of(layout(1025)), None);
    assert_eq!(class_of(BlockLayout { size: 64, align: 32 }), None);
    assert_eq!(class_layout(3), BlockLayout { size: 64, align: 16 });
    assert_eq!(class_cap(63), 256);
    assert_eq!(class_cap(0), 262144);
}

#[test]
fn freed_blocks_are_reused_last_first() {
    let mut a = ClassAlloc::new();
    assert_eq!(a.raw_alloc(layout(40)), Source::System(BlockLayout { size: 48, align: 16 }));
    assert_eq!(a.raw_dealloc(1000, layout(40)), None);
    assert_eq!(a.raw_dealloc(2000, layout(33)), None);
    assert_eq!(a.raw_alloc(layout(48)), Source::Cached(2000));
    assert_eq!(a.raw_alloc(layout(48)), Source::Cached(1000));
    let big = layout(5000);
    assert_eq!(a.raw_alloc(big), Source::System(big));
    assert_eq!(a.raw_dealloc(7, big), Some(big));
}

#[test]
fn full_lists_give_blocks_back() {
    let mut a = ClassAlloc::new();
    let l = layout(1024);
    for p in 0..class_cap(63) as u64 {
        assert_eq!(a.raw_dealloc(p, l), None);
    }
    assert_eq!(a.raw_dealloc(9999, l), Some(BlockLayout { size: 1024, align: 16 }));
    let drained = a.drain();
    assert_eq!(drained[63].len(), 256);
    assert_eq!(a.raw_alloc(l), Source::System(BlockLayout { size: 1024, align: 16 }));
    a.end_thread();
    assert!(a.raw_dealloc(1, l).is_some());
}

#[test]
fn blocks_stay_while_their_class_does() {
    let a = ClassAlloc::new();
    assert_eq!(a.raw_realloc(layout(20), 30), Resize::Keep);
    assert_eq!(a.raw_realloc(layout(20), 40), Resize::Move { copy: 20 });
    assert_eq!(a.raw_realloc(layout(2000), 100), Resize::Move { copy: 100 });
    assert_eq!(resize_of(layout(100), 112), Resize::Keep);
}

#[test]
fn freed_blocks_are_kept_while_there_is_room() {
    assert!(keeps(63, 255, Teardown::Live));
    assert!(!keeps(63, 256, Teardown::Live));
    assert!(!keeps(63, 0, Teardown::Dead));
    assert!(keeps(0, 256, Teardown::Unset));
}

#[test]
fn counters_follow_the_blocks() {
    let mut s = Stats::new();
    s.count_alloc(100);
    s.count_alloc(50);
    s.free(100);
    let (live, peak, _, count) = s.counters();
    assert_eq!((live, peak, count), (50, 150, 2));
    s.cat_add(3, 40);
    s.cat_add(3, -15);
    assert_eq!(s.category_bytes()[3], 25);
    assert!(!s.traces(10));
    s.trace_allocations_from(64);
    assert!(s.traces(64) && !s.traces(63));
    assert!(bucket(1) < bucket(1 << 20));
}

#[test]
fn the_peak_covers_the_live_bytes() {
    let mut s = Stats::new();
    let mut before = s.counters();
    let steps: [i64; 6] = [100, -60, 500, -500, 30, 900];
    for (k, d) in steps.into_iter().enumerate() {
        if k % 3 == 2 {
            s.note_slab(7, d);
        } else if d > 0 {
            s.count_alloc(d as usize);
        } else {
            s.free((-d) as usize);
        }
        let now = s.counters();
        assert!(now.1 >= now.0 && now.1 >= before.1 && now.3 >= before.3);
        before = now;
    }
    assert_eq!(s.counters(), (970, 970, 0, 2));
    assert_eq!(s.category_bytes()[7], 1400);
}

#[test]
fn counted_blocks_carry_a_header() {
    let mut s = Stats::new();
    s.trace_allocations_from(100);
    assert_eq!(s.counted_alloc(layout(40), 7), BlockLayout { size: 56, align: 16 });
    // Nothing is counted for the category until the block is there.
    assert_eq!((s.category_bytes()[2], s.size_buckets()[2 * 8 + 1], s.counters().0), (0, 0, 40));
    assert!(!s.counted_block(layout(40), 2));
    assert_eq!(s.category_bytes()[2], 40);
    assert_eq!(s.size_buckets()[2 * 8 + 1], 40);
    assert!(s.counted_realloc(layout(40), 120, 2, 7));
    assert_eq!((s.category_bytes()[2], s.size_buckets()[2 * 8 + 2]), (120, 120));
    assert_eq!(s.counters().1, 120);
    assert!(!s.counted_realloc(layout(120), 200, 2, 7));
    assert_eq!(s.counted_dealloc(layout(200), 2, 7), BlockLayout { size: 216, align: 16 });
    assert_eq!((s.category_bytes()[2], s.counters().0), (0, 0));
    // Over-aligned blocks have none, and count for the slabs.
    let slab = BlockLayout { size: 4096, align: 4096 };
    assert_eq!(s.counted_alloc(slab, 7), slab);
    assert_eq!(s.category_bytes()[7], 4096);
    assert!(s.counted_block(layout(100), 3));
    s.cached(64);
    s.cached(-16);
    assert_eq!(s.counters().2, 48);
}
