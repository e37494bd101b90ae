use exofs::storage::heap_allocator::{HeapAllocator, AllocationPolicy, Extent};
use exofs::types::DiskOffset;

const HEAP_START: u64 = 1024 * 1024;
const N_BLOCKS: u64 = 1024;

fn make_allocator() -> HeapAllocator {
    HeapAllocator::new(HEAP_START, N_BLOCKS).unwrap()
}

#[test]
fn test_alloc_basic() {
    let mut a = make_allocator();
    let ext = a.allocate(4096).unwrap();
    assert_eq!(ext.offset.0, HEAP_START);
    assert_eq!(ext.size, 4096);
    assert_eq!(a.n_allocs(), 1);
}

#[test]
fn test_alloc_rounds_up() {
    let mut a = make_allocator();
    let ext = a.allocate(1).unwrap();
    assert_eq!(ext.size, 4096);
}

#[test]
fn heap_allocator_test_alloc_and_free() {
    let mut a = make_allocator();
    let ext = a.allocate(4096).unwrap();
    a.free_extent(ext).unwrap();
    assert_eq!(a.n_frees(), 1);
    let ext2 = a.allocate(4096).unwrap();
    assert_eq!(ext2.offset.0, HEAP_START);
    let mut b = HeapAllocator::new_with_policy(HEAP_START, N_BLOCKS, AllocationPolicy::FirstFit).unwrap();
    let e = b.allocate(4096).unwrap();
    b.free_extent(e).unwrap();
    assert_eq!(b.allocate(4096).unwrap().offset.0, HEAP_START);
}

#[test]
fn test_alloc_out_of_space() {
    let mut a = HeapAllocator::new(HEAP_START, 2).unwrap();
    let _e1 = a.allocate(4096).unwrap();
    let _e2 = a.allocate(4096).unwrap();
    assert!(a.allocate(4096).is_err());
    assert_eq!(a.n_failures(), 1);
}

#[test]
fn test_free_bytes() {
    let mut a = make_allocator();
    let init_free = a.free_bytes();
    let _e = a.allocate(4096 * 10).unwrap();
    assert!(a.free_bytes() < init_free);
}

#[test]
fn test_alloc_zero_fails() {
    let mut a = make_allocator();
    assert!(a.allocate(0).is_err());
}

#[test]
fn heap_allocator_best_fit_picks_shortest_run() {
    let mut a = HeapAllocator::new_with_policy(0, 64, AllocationPolicy::FirstFit).unwrap();
    // Runs after this: [0..10) free? No: reserve blocks so that runs are
    // [0,8) of 8, [9,12) of 3, [13,64) of 51.
    a.reserve_range(8, 1);
    a.reserve_range(12, 1);
    let e = a.alloc_with_policy(3 * 4096, AllocationPolicy::BestFit).unwrap();
    assert_eq!(e.offset.0, 9 * 4096);
    let f = a.alloc_with_policy(4096, AllocationPolicy::FirstFit).unwrap();
    assert_eq!(f.offset.0, 0);
}

#[test]
fn heap_allocator_free_refusals() {
    let mut a = make_allocator();
    let bad_size = Extent { offset: DiskOffset(HEAP_START), size: 100 };
    assert!(a.free_extent(bad_size).is_err());
    let below = Extent { offset: DiskOffset(0), size: 4096 };
    assert!(a.free_extent(below).is_err());
    let misaligned = Extent { offset: DiskOffset(HEAP_START + 1), size: 4096 };
    assert!(a.free_extent(misaligned).is_err());
    let past = Extent { offset: DiskOffset(HEAP_START + N_BLOCKS * 4096), size: 4096 };
    assert!(a.free_extent(past).is_err());
    assert_eq!(a.n_frees(), 0);
}

#[test]
fn heap_allocator_extent_helpers_and_reset() {
    let e = Extent { offset: DiskOffset(4096), size: 8192 };
    assert_eq!(e.end().unwrap().0, 12288);
    assert_eq!(e.block_count(), 2);
    assert!(e.is_valid());
    assert!(Extent { offset: DiskOffset(u64::MAX), size: 1 }.end().is_err());
    let mut a = make_allocator();
    let _ = a.allocate(8192).unwrap();
    assert_eq!(a.allocated_bytes(), 8192);
    assert_eq!(a.usage_pct(), 0);
    a.reset_all_free().unwrap();
    assert_eq!(a.free_bytes(), N_BLOCKS * 4096);
    assert_eq!(a.n_allocs(), 0);
    assert_eq!(a.largest_free_extent(), N_BLOCKS * 4096);
    assert!(a.coalesce().is_ok());
    assert_eq!(AllocationPolicy::default(), AllocationPolicy::NextFit);
}

#[test]
fn heap_allocator_free_gives_back_the_blocks() {
    let mut a = make_allocator();
    let before = a.free_bytes();
    let ext = a.allocate(3 * 4096).unwrap();
    assert_eq!(a.free_bytes(), before - 3 * 4096);
    a.free_extent(ext).unwrap();
    assert_eq!(a.free_bytes(), before);
    let again = a.allocate(3 * 4096).unwrap();
    assert_eq!(again.offset, ext.offset);
}
