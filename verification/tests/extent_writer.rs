use std::cell::RefCell;

use exofs::storage::extent_writer::{Extent, ExtentMap, ExtentWriter};
use exofs::types::{DiskOffset, ExofsError, ExofsResult};

fn mock_write(data: &[u8], _off: DiskOffset) -> ExofsResult<usize> {
    Ok(data.len())
}

fn mock_write_short(_data: &[u8], _off: DiskOffset) -> ExofsResult<usize> {
    Ok(0)
}

#[test]
fn test_write_basic() {
    let mut w = ExtentWriter::new();
    let buf = vec![0xABu8; 4096];
    let r = w.write(DiskOffset(0), &buf, &mock_write).unwrap();
    assert_eq!(r.bytes_written, 4096);
    assert_eq!(r.extent.size, 4096);
}

#[test]
fn test_write_short_detects() {
    let mut w = ExtentWriter::new();
    let buf = vec![0u8; 4096];
    assert!(w.write(DiskOffset(0), &buf, &mock_write_short).is_err());
    assert_eq!(w.error_count(), 1);
}

#[test]
fn test_write_blocks_multi() {
    let mut w = ExtentWriter::new();
    let buf = vec![0x42u8; 12288];
    let r = w.write_blocks(DiskOffset(0), &buf, &mock_write).unwrap();
    assert_eq!(r.bytes_written, 12288);
    assert_eq!(r.segments, 3);
}

#[test]
fn test_split_into_segments() {
    let data = vec![1u8; 5000];
    let segs = ExtentWriter::split_into_segments(DiskOffset(0), &data).unwrap();
    assert_eq!(segs.len(), 2);
    assert_eq!(segs[0].data.len(), 4096);
}

#[test]
fn test_extent_map() {
    let mut m = ExtentMap::new();
    m.add(Extent::new(DiskOffset(0), 4096)).unwrap();
    m.add(Extent::new(DiskOffset(4096), 8192)).unwrap();
    assert_eq!(m.total_bytes(), 12288);
    assert!(m.find_extent(DiskOffset(4096)).is_some());
}

#[test]
fn test_write_scattered() {
    let mut w = ExtentWriter::new();
    let exts = vec![Extent::new(DiskOffset(0), 4096), Extent::new(DiskOffset(8192), 4096)];
    let data = vec![0x11u8; 8192];
    let r = w.write_scattered(&exts, &data, &mock_write).unwrap();
    assert_eq!(r.total_written, 8192);
    assert_eq!(r.segments, 2);
}

#[test]
fn test_zero_extent() {
    let w = ExtentWriter::new();
    let ext = Extent::new(DiskOffset(0), 8192);
    let n = w.zero_extent(&ext, &mock_write).unwrap();
    assert_eq!(n, 8192);
}

#[test]
fn test_extent_overlaps() {
    let a = Extent::new(DiskOffset(0), 8192);
    let b = Extent::new(DiskOffset(4096), 4096);
    assert!(a.overlaps(&b));
    let c = Extent::new(DiskOffset(8192), 4096);
    assert!(!a.overlaps(&c));
}

#[test]
fn test_extent_block_aligned() {
    let e1 = Extent::new(DiskOffset(4096), 8192);
    assert!(e1.is_block_aligned());
    let e2 = Extent::new(DiskOffset(1000), 4096);
    assert!(!e2.is_block_aligned());
}

#[test]
fn extent_writer_test_stats_snapshot() {
    let mut w = ExtentWriter::new();
    let buf = vec![0u8; 1024];
    w.write(DiskOffset(0), &buf, &mock_write).unwrap();
    let s = w.stats();
    assert_eq!(s.bytes_written, 1024);
    assert_eq!(s.errors, 0);
}

#[test]
fn blocks_land_at_consecutive_offsets() {
    let seen: RefCell<Vec<(u64, usize)>> = RefCell::new(Vec::new());
    let rec = |d: &[u8], off: DiskOffset| -> ExofsResult<usize> {
        seen.borrow_mut().push((off.0, d.len()));
        Ok(d.len())
    };
    let mut w = ExtentWriter::new();
    let data = vec![3u8; 9000];
    let r = w.write_blocks(DiskOffset(100), &data, &rec).unwrap();
    assert_eq!(r.segments, 3);
    assert_eq!(*seen.borrow(), vec![(100, 4096), (4196, 4096), (8292, 808)]);
    assert_eq!(w.total_write_ops(), 3);
    assert_eq!(w.total_bytes_written(), 9000);
}

#[test]
fn empty_and_overflowing_inputs() {
    let mut w = ExtentWriter::new();
    assert!(matches!(w.write(DiskOffset(0), &[], &mock_write), Err(ExofsError::InvalidArgument)));
    let exts = vec![Extent::new(DiskOffset(0), 4)];
    assert!(matches!(w.write_scattered(&exts, &[1, 2, 3, 4, 5], &mock_write), Err(ExofsError::InvalidSize)));
    assert!(matches!(w.write_scattered(&[], &[1], &mock_write), Err(ExofsError::InvalidArgument)));
    assert_eq!(ExtentWriter::align_to_block(4097), 8192);
    assert_eq!(ExtentWriter::align_to_block(4096), 4096);
    let e = Extent::new(DiskOffset(u64::MAX - 1), 5);
    assert!(e.end().is_none());
    assert_eq!(Extent::new(DiskOffset(0), 4097).block_count(), 2);
    assert!(Extent::new(DiskOffset(10), 5).contains_offset(DiskOffset(14)));
    assert!(!Extent::new(DiskOffset(10), 5).contains_offset(DiskOffset(15)));
}
