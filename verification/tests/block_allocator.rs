use exofs::storage::block_allocator::{BlockAllocator, ExtentHandle, ExtentState, BlockAllocRequest};
use exofs::storage::heap_allocator::{Extent, AllocationPolicy};
use exofs::types::DiskOffset;

const HEAP_START: u64 = 1024 * 1024;
const N_BLOCKS: u64 = 512;

fn make() -> BlockAllocator {
    BlockAllocator::new(HEAP_START, N_BLOCKS).unwrap()
}

#[test]
fn test_alloc_commit() {
    let mut a = make();
    let ext = a.alloc_extent(4096).unwrap();
    a.commit_extent(ext.offset, 4096).unwrap();
    assert_eq!(a.n_commits(), 1);
}

#[test]
fn test_alloc_rollback() {
    let mut a = make();
    let ext = a.alloc_extent(4096).unwrap();
    a.rollback_extent(ext.offset).unwrap();
    assert_eq!(a.n_rollbacks(), 1);
}

#[test]
fn test_commit_not_found() {
    let mut a = make();
    let r = a.commit_extent(DiskOffset(0), 4096);
    assert!(r.is_err());
}

#[test]
fn test_free_committed() {
    let mut a = make();
    let ext = a.alloc_extent(4096).unwrap();
    a.commit_extent(ext.offset, 4096).unwrap();
    a.free_committed(ext.offset).unwrap();
}

#[test]
fn test_zero_size_fails() {
    let mut a = make();
    assert!(a.alloc_extent(0).is_err());
}

#[test]
fn test_gc_freed() {
    let mut a = make();
    let ext = a.alloc_extent(4096).unwrap();
    a.commit_extent(ext.offset, 4096).unwrap();
    a.free_committed(ext.offset).unwrap();
    let freed = a.gc_freed_handles().unwrap();
    assert_eq!(freed, 0);
}

#[test]
fn block_allocator_life_cycle_counts() {
    let mut a = make();
    let e1 = a.alloc_extent(4096).unwrap();
    let e2 = a.alloc_with_request(&BlockAllocRequest { size: 8192, policy: AllocationPolicy::FirstFit, align: 0 }).unwrap();
    assert_eq!(a.active_handles(), 2);
    assert_eq!(a.n_allocs(), 2);
    a.commit_extent(e1.offset, 100).unwrap();
    assert_eq!(a.bytes_committed(), 100);
    // Committing twice is refused.
    assert!(a.commit_extent(e1.offset, 100).is_err());
    a.rollback_extent(e2.offset).unwrap();
    // The rolled-back handle stays until drained.
    assert_eq!(a.active_handles(), 2);
    assert_eq!(a.gc_freed_handles().unwrap(), 1);
    assert_eq!(a.active_handles(), 1);
    assert!(a.free_committed(DiskOffset(7)).is_err());
    assert_eq!(a.free_bytes(), (N_BLOCKS - 1) * 4096);
}

#[test]
fn block_allocator_handle_helpers() {
    let mut h = ExtentHandle::new(Extent { offset: DiskOffset(0), size: 4096 });
    assert_eq!(h.state, ExtentState::Reserved);
    assert_eq!(h.fill_pct(), 0);
    h.commit(1024);
    assert_eq!(h.state, ExtentState::Committed);
    assert_eq!(h.fill_pct(), 25);
    h.free_it();
    assert_eq!(h.state, ExtentState::Freed);
    let r = BlockAllocRequest::of_size(10);
    assert_eq!(r.size, 10);
    assert_eq!(r.policy, AllocationPolicy::NextFit);
}

#[test]
fn gc_after_rollback_keeps_reused_block_allocated() {
    let mut a = BlockAllocator::new(HEAP_START, 1).unwrap();
    let e1 = a.alloc_extent(4096).unwrap();
    a.rollback_extent(e1.offset).unwrap();
    assert_eq!(a.free_bytes(), 4096);
    let e2 = a.alloc_extent(4096).unwrap();
    assert_eq!(e2.offset, e1.offset);
    assert_eq!(a.free_bytes(), 0);
    assert_eq!(a.gc_freed_handles().unwrap(), 1);
    // The live extent's block is still allocated.
    assert_eq!(a.free_bytes(), 0);
}
