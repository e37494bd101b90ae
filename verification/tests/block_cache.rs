use exofs::storage::block_cache::BlockCache;
use exofs::types::{DiskOffset, ExofsError, ExofsResult};

const BLK: usize = 4096;

fn make_cache() -> BlockCache {
    BlockCache::new(8)
}

fn mock_read(_offset: DiskOffset, buf: &mut [u8]) -> ExofsResult<usize> {
    buf.fill(0xAB);
    Ok(buf.len())
}

fn mock_write(data: &[u8], _offset: DiskOffset) -> ExofsResult<usize> {
    Ok(data.len())
}

fn failing_write(_data: &[u8], _offset: DiskOffset) -> ExofsResult<usize> {
    Err(ExofsError::IoError)
}

#[test]
fn test_read_miss_then_hit() {
    let mut c = make_cache();
    let off = DiskOffset(4096);
    let mut buf = vec![0u8; BLK];
    c.read_block(off, &mut buf, &mock_read).unwrap();
    assert_eq!(c.miss_count(), 1);
    c.read_block(off, &mut buf, &mock_read).unwrap();
    assert_eq!(c.hit_count(), 1);
}

#[test]
fn test_write_dirty_then_flush() {
    let mut c = make_cache();
    let off = DiskOffset(4096);
    let data = vec![0xFFu8; BLK];
    c.write_block_dirty(off, &data).unwrap();
    assert_eq!(c.dirty_count(), 1);
    c.flush_dirty(&mock_write).unwrap();
    assert_eq!(c.dirty_count(), 0);
    assert_eq!(c.flush_count(), 1);
}

#[test]
fn test_invalidate() {
    let mut c = make_cache();
    let off = DiskOffset(4096);
    let mut buf = vec![0u8; BLK];
    c.read_block(off, &mut buf, &mock_read).unwrap();
    assert_eq!(c.cached_count(), 1);
    c.invalidate(off);
    assert_eq!(c.cached_count(), 0);
}

#[test]
fn test_eviction_lru() {
    let mut c = BlockCache::new(2);
    let mut buf = vec![0u8; BLK];
    c.read_block(DiskOffset(0), &mut buf, &mock_read).unwrap();
    c.read_block(DiskOffset(4096), &mut buf, &mock_read).unwrap();
    c.read_block(DiskOffset(8192), &mut buf, &mock_read).unwrap();
    assert_eq!(c.cached_count(), 2);
    assert_eq!(c.eviction_count(), 1);
}

#[test]
fn block_cache_read_returns_written_block() {
    let mut c = make_cache();
    let data: Vec<u8> = (0..BLK).map(|i| (i % 251) as u8).collect();
    c.write_block_dirty(DiskOffset(8192), &data).unwrap();
    let mut out = vec![0u8; BLK + 3];
    let n = c.read_block(DiskOffset(8192), &mut out, &mock_read).unwrap();
    assert_eq!(n, BLK);
    assert_eq!(&out[..BLK], &data[..]);
    assert_eq!(&out[BLK..], &[0u8, 0, 0]);
    assert_eq!(c.hit_count(), 1);
    assert_eq!(c.miss_count(), 0);
}

#[test]
fn block_cache_refusals_and_rates() {
    let mut c = make_cache();
    let mut small = vec![0u8; 10];
    assert_eq!(c.read_block(DiskOffset(0), &mut small, &mock_read), Err(ExofsError::InvalidArgument));
    assert_eq!(c.write_block_dirty(DiskOffset(0), &[1u8; 10]), Err(ExofsError::InvalidArgument));
    assert_eq!(c.hit_rate_pct(), 0);
    let mut buf = vec![0u8; BLK];
    c.read_block(DiskOffset(0), &mut buf, &mock_read).unwrap();
    c.read_block(DiskOffset(0), &mut buf, &mock_read).unwrap();
    c.read_block(DiskOffset(0), &mut buf, &mock_read).unwrap();
    c.read_block(DiskOffset(4096), &mut buf, &mock_read).unwrap();
    assert_eq!(c.hit_rate_pct(), 50);
    let mut zero = BlockCache::new(0);
    assert_eq!(zero.read_block(DiskOffset(0), &mut buf, &mock_read), Err(ExofsError::NoMemory));
    assert!(zero.is_empty());
    assert_eq!(zero.capacity(), 0);
}

#[test]
fn block_cache_sync_and_failed_flush() {
    let mut c = make_cache();
    let data = vec![7u8; BLK];
    assert_eq!(c.write_block_sync(DiskOffset(0), &data, &mock_write).unwrap(), BLK);
    assert_eq!(c.dirty_count(), 0);
    c.write_block_dirty(DiskOffset(4096), &data).unwrap();
    assert_eq!(c.flush_dirty(&failing_write).unwrap(), 0);
    assert_eq!(c.dirty_count(), 1);
    c.invalidate_all();
    assert!(c.is_empty());
}

#[test]
fn block_cache_evicts_clean_before_dirty() {
    let mut c = BlockCache::new(2);
    let data = vec![1u8; BLK];
    c.write_block_dirty(DiskOffset(0), &data).unwrap();
    let mut buf = vec![0u8; BLK];
    c.read_block(DiskOffset(4096), &mut buf, &mock_read).unwrap();
    c.read_block(DiskOffset(8192), &mut buf, &mock_read).unwrap();
    // The clean block at 4096 was evicted; the older dirty block stayed.
    assert_eq!(c.dirty_count(), 1);
    assert_eq!(c.eviction_count(), 1);
    c.read_block(DiskOffset(0), &mut buf, &mock_read).unwrap();
    assert_eq!(buf, data);
}

#[test]
fn block_cache_keeps_dirty_blocks_until_flushed() {
    let mut c = BlockCache::new(1);
    c.write_block_dirty(DiskOffset(0), &[1u8; BLK]).unwrap();
    assert_eq!(c.write_block_dirty(DiskOffset(4096), &[2u8; BLK]), Err(ExofsError::BufferFull));
    assert_eq!(c.dirty_count(), 1);
    assert_eq!(c.eviction_count(), 0);
    let writer = |_b: &[u8], _o: DiskOffset| -> ExofsResult<usize> { Ok(BLK) };
    assert_eq!(c.flush_dirty(&writer), Ok(1));
    c.write_block_dirty(DiskOffset(4096), &[2u8; BLK]).unwrap();
    assert_eq!(c.eviction_count(), 1);
}
