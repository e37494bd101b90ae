use exofs::storage::heap_free_map::HeapFreeMap;

#[test]
fn test_new_all_free() {
    let m = HeapFreeMap::new(128).unwrap();
    assert_eq!(m.free_blocks(), 128);
    assert!(m.is_free(0));
    assert!(m.is_free(127));
}

#[test]
fn test_mark_used_and_free() {
    let mut m = HeapFreeMap::new(64).unwrap();
    m.mark_used(10, 5);
    assert_eq!(m.free_blocks(), 59);
    assert!(!m.is_free(10));
    assert!(!m.is_free(14));
    assert!(m.is_free(15));
    m.mark_free(12, 2);
    assert_eq!(m.free_blocks(), 61);
    assert!(m.is_free(12));
}

#[test]
fn test_find_free_run() {
    let mut m = HeapFreeMap::new(64).unwrap();
    m.mark_used(0, 10);
    let run = m.find_free_run(5);
    assert_eq!(run, Some(10));
}

#[test]
fn test_find_free_run_none() {
    let mut m = HeapFreeMap::new(20).unwrap();
    m.mark_used(0, 20);
    assert!(m.find_free_run(1).is_none());
}

#[test]
fn test_fragmentation_pct() {
    let mut m = HeapFreeMap::new(10).unwrap();
    m.mark_used(1, 1);
    m.mark_used(3, 1);
    m.mark_used(5, 1);
    assert!(m.fragmentation_pct() > 0);
}

#[test]
fn test_full_boundary_bits() {
    let m = HeapFreeMap::new(65).unwrap();
    assert!(m.is_free(0));
    assert!(m.is_free(64));
    assert!(!m.is_free(65));
}

#[test]
fn test_largest_free_run() {
    let mut m = HeapFreeMap::new(20).unwrap();
    m.mark_used(5, 5);
    assert_eq!(m.largest_free_run(), 10);
}

#[test]
fn free_map_fragmentation_exact() {
    let mut m = HeapFreeMap::new(10).unwrap();
    m.mark_used(1, 1);
    m.mark_used(3, 1);
    m.mark_used(5, 1);
    // 4 runs of free blocks, 7 free blocks: (4 - 1) * 100 / 7 = 42.
    assert_eq!(m.free_run_count(), 4);
    assert_eq!(m.fragmentation_pct(), 42);
}

#[test]
fn free_map_runs_and_hint() {
    let mut m = HeapFreeMap::new(32).unwrap();
    m.mark_used(4, 4);
    let runs = m.free_runs().unwrap();
    assert_eq!(runs.len(), 2);
    assert_eq!((runs[0].start, runs[0].len), (0, 4));
    assert_eq!((runs[1].start, runs[1].len), (8, 24));
    assert_eq!(m.find_free_run_hint(2, 6), Some(8));
    assert_eq!(m.find_free_run_hint(30, 6), None);
    assert_eq!(m.used_blocks(), 4);
    assert_eq!(m.used_pct(), 12);
}

#[test]
fn free_map_mark_used_then_free_restores() {
    let mut m = HeapFreeMap::new(100).unwrap();
    m.mark_used(20, 30);
    m.mark_free(20, 30);
    assert_eq!(m.free_blocks(), 100);
    assert_eq!(m.free_run_count(), 1);
    assert!(HeapFreeMap::new(0).is_err());
}
