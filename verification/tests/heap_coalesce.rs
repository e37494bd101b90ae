use exofs::storage::heap_free_map::HeapFreeMap;
use exofs::storage::heap_coalesce::{HeapCoalescer, CoalesceOptions};

fn make_map(total: u64) -> HeapFreeMap {
    HeapFreeMap::new(total).unwrap()
}

#[test]
fn test_coalesce_no_fragmentation() {
    let mut m = make_map(64);
    let opts = CoalesceOptions::default();
    let rep = HeapCoalescer::run(&mut m, &opts).unwrap();
    assert_eq!(rep.merges, 0);
}

#[test]
fn test_coalesce_two_adjacent_runs() {
    let mut m = make_map(10);
    m.mark_used(3, 1);
    let frag = m.fragmentation_pct();
    assert!(frag > 0);
    m.mark_free(3, 1);
    assert_eq!(m.free_run_count(), 1);
}

#[test]
fn test_buddy_of() {
    assert_eq!(HeapCoalescer::buddy_of(0, 0), Some(1));
    assert_eq!(HeapCoalescer::buddy_of(1, 0), Some(0));
    assert_eq!(HeapCoalescer::buddy_of(0, 1), Some(2));
    assert_eq!(HeapCoalescer::buddy_of(4, 2), Some(0));
}

#[test]
fn test_are_buddies() {
    assert!(HeapCoalescer::are_buddies(0, 1, 0));
    assert!(HeapCoalescer::are_buddies(0, 2, 1));
    assert!(!HeapCoalescer::are_buddies(0, 3, 0));
}

#[test]
fn test_analyze_no_merge() {
    let m = make_map(64);
    let rep = HeapCoalescer::analyze(&m);
    assert_eq!(rep.merges, 0);
    assert_eq!(rep.free_blocks, 64);
}

#[test]
fn test_estimate_gain_no_frag() {
    let m = make_map(64);
    let (merges, _) = HeapCoalescer::estimate_gain(&m);
    assert_eq!(merges, 0);
}

#[test]
fn test_consolidate_adjacent() {
    let mut m = make_map(30);
    m.mark_used(5, 3);
    let (merges, _) = HeapCoalescer::estimate_gain(&m);
    assert_eq!(merges, 0);
    m.mark_free(5, 3);
    assert_eq!(m.free_run_count(), 1);
}

#[test]
fn coalesce_run_leaves_fragmented_map_unchanged() {
    let mut m = make_map(40);
    m.mark_used(2, 2);
    m.mark_used(10, 5);
    let before_free = m.free_blocks();
    let before_runs = m.free_run_count();
    let rep = HeapCoalescer::run(&mut m, &CoalesceOptions::default()).unwrap();
    assert_eq!(rep.merges, 0);
    assert_eq!(rep.runs_before, rep.runs_after);
    assert_eq!(m.free_blocks(), before_free);
    assert_eq!(m.free_run_count(), before_runs);
    assert!(!rep.improved());
}

#[test]
fn coalesce_estimate_gain_counts_free_blocks() {
    let mut m = make_map(30);
    m.mark_used(5, 3);
    assert_eq!(HeapCoalescer::estimate_gain(&m), (0, 27));
}

#[test]
fn coalesce_try_merge_buddies_counts_free_orders() {
    let mut m = make_map(16);
    // Block 0's buddies at orders 0, 1, 2, 3 are 1, 2, 4, 8: all free.
    assert_eq!(HeapCoalescer::try_merge_buddies(&mut m, 0, 4), 4);
    m.mark_used(4, 1);
    assert_eq!(HeapCoalescer::try_merge_buddies(&mut m, 0, 4), 2);
    assert!(HeapCoalescer::should_coalesce(&m, 0));
}
