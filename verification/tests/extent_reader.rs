use exofs::storage::block_cache::BlockCache;
use exofs::storage::extent_reader::{scatter_read, ExtentBlockIterator, ExtentReader};
use exofs::storage::extent_writer::Extent;
use exofs::types::{DiskOffset, ExofsError, ExofsResult};

fn mock_read(_off: DiskOffset, buf: &mut [u8]) -> ExofsResult<usize> {
    buf.fill(0xCC);
    Ok(buf.len())
}

fn mock_read_eof(_off: DiskOffset, _buf: &mut [u8]) -> ExofsResult<usize> {
    Ok(0)
}

fn mock_read_dd(_: DiskOffset, buf: &mut [u8]) -> ExofsResult<usize> {
    buf.fill(0xDD);
    Ok(buf.len())
}

#[test]
fn test_read_basic() {
    let mut r = ExtentReader::new();
    let result = r.read(DiskOffset(0), 4096, &mock_read).unwrap();
    assert_eq!(result.bytes_read, 4096);
    assert_eq!(result.data[0], 0xCC);
}

#[test]
fn test_read_blocks_multi() {
    let mut r = ExtentReader::new();
    let result = r.read_blocks(DiskOffset(0), 12288, &mock_read).unwrap();
    assert_eq!(result.bytes_read, 12288);
    assert_eq!(result.segments, 3);
}

#[test]
fn test_read_eof_terminates() {
    let mut r = ExtentReader::new();
    let result = r.read_blocks(DiskOffset(0), 4096, &mock_read_eof).unwrap();
    assert_eq!(result.bytes_read, 0);
}

#[test]
fn test_scatter_read() {
    let extents = vec![Extent::new(DiskOffset(0), 512), Extent::new(DiskOffset(4096), 512)];
    let mut r = ExtentReader::new();
    let items = scatter_read(&extents, &mut r, &mock_read).unwrap();
    assert_eq!(items.len(), 2);
    assert!(items.iter().all(|i| i.ok));
}

#[test]
fn test_gather_read() {
    let extents = vec![Extent::new(DiskOffset(0), 512), Extent::new(DiskOffset(4096), 512)];
    let mut r = ExtentReader::new();
    let data = r.gather_read(&extents, &mock_read_dd).unwrap();
    assert_eq!(data.len(), 1024);
    assert!(data.iter().all(|&b| b == 0xDD));
}

#[test]
fn test_read_partial() {
    let extent = Extent::new(DiskOffset(0), 8192);
    let mut r = ExtentReader::new();
    let result = r.read_partial(&extent, 0, 512, &mock_read_dd).unwrap();
    assert_eq!(result.bytes_read, 512);
}

#[test]
fn test_read_partial_out_of_bounds() {
    let extent = Extent::new(DiskOffset(0), 4096);
    let mut r = ExtentReader::new();
    assert!(r.read_partial(&extent, 4000, 200, &mock_read_dd).is_err());
}

#[test]
fn test_block_iterator() {
    let extent = Extent::new(DiskOffset(0), 12288);
    let mut it = ExtentBlockIterator::new(&extent);
    assert_eq!(it.remaining_blocks(), 3);
    let b0 = it.next_block().unwrap();
    assert_eq!(b0, DiskOffset(0));
    let b1 = it.next_block().unwrap();
    assert_eq!(b1, DiskOffset(4096));
    assert_eq!(it.remaining_blocks(), 1);
}

fn read_by_offset(off: DiskOffset, buf: &mut [u8]) -> ExofsResult<usize> {
    for (i, b) in buf.iter_mut().enumerate() {
        *b = ((off.0 as usize + i) % 251) as u8;
    }
    Ok(buf.len())
}

#[test]
fn read_partial_reads_at_the_right_place() {
    let extent = Extent::new(DiskOffset(1000), 4096);
    let mut r = ExtentReader::new();
    let res = r.read_partial(&extent, 10, 4, &read_by_offset).unwrap();
    assert_eq!(res.data, vec![(1010 % 251) as u8, (1011 % 251) as u8, (1012 % 251) as u8, (1013 % 251) as u8]);
    assert_eq!(res.extent.offset, DiskOffset(1010));
    let s = r.stats_snapshot();
    assert_eq!(s.bytes_read, 4);
    assert_eq!(s.read_ops, 1);
}

#[test]
fn zero_size_and_failed_reads() {
    let mut r = ExtentReader::new();
    assert!(matches!(r.read(DiskOffset(0), 0, &mock_read), Err(ExofsError::InvalidArgument)));
    let fail = |_: DiskOffset, _: &mut [u8]| -> ExofsResult<usize> { Err(ExofsError::IoError) };
    assert!(matches!(r.read(DiskOffset(0), 16, &fail), Err(ExofsError::IoError)));
    let extents = vec![Extent::new(DiskOffset(0), 8)];
    let items = scatter_read(&extents, &mut r, &fail).unwrap();
    assert!(!items[0].ok);
    assert!(items[0].data.is_empty());
}

#[test]
fn cached_block_reads() {
    let mut r = ExtentReader::new();
    let mut cache = BlockCache::new(4);
    let a = r.read_cached(DiskOffset(4096), &mut cache, &mock_read).unwrap();
    assert_eq!(a.bytes_read, 4096);
    assert!(a.data.iter().all(|&b| b == 0xCC));
    let b = r.read_cached_blocks(DiskOffset(0), 2, &mut cache, &mock_read).unwrap();
    assert_eq!(b.bytes_read, 8192);
    assert_eq!(r.cache_ops(), 3);
    let mut it = ExtentBlockIterator::new(&Extent::new(DiskOffset(0), 100));
    assert_eq!(it.next_block(), Some(DiskOffset(0)));
    assert_eq!(it.next_block(), None);
    it.reset(&Extent::new(DiskOffset(8192), 8192));
    assert_eq!(it.remaining_blocks(), 2);
}

#[test]
fn gather_read_of_no_extent_is_empty() {
    let mut r = ExtentReader::new();
    let read = |_o: DiskOffset, _b: &mut [u8]| -> ExofsResult<usize> { Err(ExofsError::IoError) };
    let out = r.gather_read(&[], &read).unwrap();
    assert!(out.is_empty());
    assert_eq!(r.total_read_ops(), 0);
}

#[test]
fn read_cached_blocks_from_cache_needs_no_reader() {
    let mut cache = BlockCache::new(8);
    cache.write_block_dirty(DiskOffset(8192), &[0x11u8; 4096]).unwrap();
    cache.write_block_dirty(DiskOffset(12288), &[0x22u8; 4096]).unwrap();
    let failing = |_o: DiskOffset, _b: &mut [u8]| -> ExofsResult<usize> { Err(ExofsError::IoError) };
    let mut r = ExtentReader::new();
    let res = r.read_cached_blocks(DiskOffset(8192), 2, &mut cache, &failing).unwrap();
    assert_eq!(res.data.len(), 8192);
    assert!(res.data[..4096].iter().all(|&b| b == 0x11));
    assert!(res.data[4096..].iter().all(|&b| b == 0x22));
    let none = r.read_cached_blocks(DiskOffset(0), 0, &mut cache, &failing).unwrap();
    assert!(none.data.is_empty());
}
