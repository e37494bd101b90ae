use exofs::storage::heap::{ExofsHeap, required_heap_size, check_heap_space, HeapConfig};
use exofs::storage::heap_allocator::Extent;
use exofs::storage::layout::{BLOCK_SIZE, HEAP_START_OFFSET};
use exofs::types::DiskOffset;

const DISK_SIZE: u64 = 64 * 1024 * 1024;

fn make_heap() -> ExofsHeap {
    ExofsHeap::new(DISK_SIZE).unwrap()
}

#[test]
fn test_new_heap() {
    let h = make_heap();
    assert!(h.total_bytes() > 0);
    assert_eq!(h.free_bytes(), h.total_bytes());
}

#[test]
fn heap_test_alloc_and_free() {
    let mut h = make_heap();
    let ext = h.allocate(8192).unwrap();
    assert_eq!(ext.size, 8192);
    assert!(h.extent_in_bounds(&ext));
    h.free(ext).unwrap();
    assert_eq!(h.free_bytes(), h.total_bytes());
}

#[test]
fn test_alloc_blocks() {
    let mut h = make_heap();
    let ext = h.alloc_blocks(3).unwrap();
    assert_eq!(ext.size, 3 * BLOCK_SIZE);
}

#[test]
fn test_heap_start_offset() {
    let h = make_heap();
    assert_eq!(h.heap_start().0, HEAP_START_OFFSET);
}

#[test]
fn test_stats() {
    let h = make_heap();
    let s = h.stats();
    assert_eq!(s.free_bytes, s.total_bytes);
    assert_eq!(s.used_bytes, 0);
}

#[test]
fn test_check_heap_space() {
    let h = make_heap();
    assert!(check_heap_space(&h, 4096).is_ok());
    assert!(check_heap_space(&h, u64::MAX).is_err());
}

#[test]
fn test_required_heap_size() {
    let s = required_heap_size(100, 4096, 10).unwrap();
    assert_eq!(s, 100 * 4096 + (100 * 4096 / 10));
}

#[test]
fn test_extent_out_of_bounds() {
    let h = make_heap();
    let bad = Extent { offset: DiskOffset(0), size: 4096 };
    assert!(!h.extent_in_bounds(&bad));
}

#[test]
fn heap_config_and_errors() {
    assert!(ExofsHeap::new(1024).is_err());
    let c = HeapConfig::from_disk_size(DISK_SIZE).unwrap();
    assert_eq!(c.heap_start_offset, HEAP_START_OFFSET);
    assert_eq!(c.heap_end_offset, DISK_SIZE - 8192);
    assert_eq!(c.total_blocks().unwrap(), (DISK_SIZE - 8192 - HEAP_START_OFFSET + 4095) / 4096);
    assert!(required_heap_size(u64::MAX, 2, 0).is_err());
    let mut h = make_heap();
    assert!(h.alloc_blocks(u64::MAX).is_err());
    assert!(h.reserve_range(DiskOffset(0), 4096).is_err());
    h.reserve_range(DiskOffset(HEAP_START_OFFSET), 8192).unwrap();
    assert_eq!(h.free_bytes(), h.total_bytes() - 8192);
    h.format().unwrap();
    assert_eq!(h.free_bytes(), h.total_bytes());
}
