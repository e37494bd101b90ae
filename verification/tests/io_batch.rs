use exofs::storage::io_batch::{IoBatch, IoBatchQueue, IoOp, BatchStats};
use exofs::types::{DiskOffset, ExofsError, ExofsResult};

fn mock_write(data: &[u8], _offset: DiskOffset) -> ExofsResult<usize> {
    Ok(data.len())
}

fn mock_read(_offset: DiskOffset, buf: &mut [u8]) -> ExofsResult<usize> {
    buf.fill(0xCC);
    Ok(buf.len())
}

fn short_write(data: &[u8], _offset: DiskOffset) -> ExofsResult<usize> {
    Ok(data.len() / 2)
}

#[test]
fn test_batch_write() {
    let mut b = IoBatch::new();
    let data = vec![1u8; 4096];
    b.add_write(DiskOffset(0), data).unwrap();
    let report = b.submit(&mock_write, &mock_read).unwrap();
    assert!(report.all_succeeded());
    assert_eq!(report.stats.bytes_written, 4096);
}

#[test]
fn test_coalesce_two_writes() {
    let mut b = IoBatch::new().no_sort();
    b.add_write(DiskOffset(0), vec![0xAAu8; 4096]).unwrap();
    b.add_write(DiskOffset(4096), vec![0xBBu8; 4096]).unwrap();
    b.coalesce_writes();
    assert_eq!(b.len(), 1);
    assert_eq!(b.op_at(0).byte_count(), 8192);
}

#[test]
fn test_batch_read() {
    let mut b = IoBatch::new();
    b.add_read(DiskOffset(4096), 4096).unwrap();
    let report = b.submit(&mock_write, &mock_read).unwrap();
    assert!(report.all_succeeded());
    assert_eq!(report.stats.bytes_read, 4096);
}

#[test]
fn test_double_submit_fails() {
    let mut b = IoBatch::new();
    b.add_read(DiskOffset(0), 512).unwrap();
    b.submit(&mock_write, &mock_read).unwrap();
    assert!(b.submit(&mock_write, &mock_read).is_err());
}

#[test]
fn io_batch_sorts_and_keeps_gaps_unwritten() {
    let mut b = IoBatch::new();
    b.add_write(DiskOffset(8192 + 100), vec![2u8; 10]).unwrap();
    b.add_write(DiskOffset(0), vec![1u8; 8192]).unwrap();
    b.add_read(DiskOffset(50), 7).unwrap();
    let report = b.submit(&mock_write, &mock_read).unwrap();
    // Sorted: write@0, read@50, write@8292; the read splits the writes.
    assert_eq!(report.results.len(), 3);
    assert_eq!(report.results[0].offset.0, 0);
    assert_eq!(report.results[1].offset.0, 50);
    assert_eq!(report.stats.coalesce_merges, 0);
    let mut c = IoBatch::new();
    c.add_write(DiskOffset(0), vec![1u8; 100]).unwrap();
    c.add_write(DiskOffset(150), vec![2u8; 10]).unwrap();
    c.add_write(DiskOffset(160), vec![3u8; 5]).unwrap();
    // Only the writes at 150 and 160 meet; bytes 100..150 stay unwritten.
    assert_eq!(c.coalesce_writes(), 1);
    assert_eq!(c.len(), 2);
    assert_eq!(c.op_at(0).byte_count(), 100);
    assert_eq!(c.op_at(1).byte_count(), 15);
    assert_eq!(c.total_write_bytes(), 115);
    assert!(c.has_writes());
    assert!(!c.has_reads());
}

#[test]
fn io_batch_short_write_fails_op() {
    let mut b = IoBatch::new();
    b.add_write(DiskOffset(0), vec![1u8; 10]).unwrap();
    let report = b.submit(&short_write, &mock_read).unwrap();
    assert!(!report.all_succeeded());
    assert_eq!(report.error_count(), 1);
    assert_eq!(report.results[0].error, Some(ExofsError::ShortWrite));
    assert_eq!(report.failed_ops().len(), 1);
    assert_eq!(report.stats.ops_failed, 1);
}

#[test]
fn io_batch_limits_and_queue() {
    let mut b = IoBatch::new();
    for i in 0..256u64 {
        b.add_read(DiskOffset(i * 512), 512).unwrap();
    }
    assert_eq!(b.add_read(DiskOffset(0), 1), Err(ExofsError::BufferFull));
    assert_eq!(b.total_read_bytes(), 256 * 512);
    let mut q = IoBatchQueue::new();
    q.enqueue(b).unwrap();
    let mut w = IoBatch::with_capacity(4).unwrap();
    w.add_op(IoOp::write(DiskOffset(0), vec![0u8; 8]).with_prio(3)).unwrap();
    q.enqueue(w).unwrap();
    assert_eq!(q.pending_count(), 2);
    let s = q.flush(&mock_write, &mock_read).unwrap();
    assert_eq!(s.total_batches, 2);
    assert_eq!(s.ops_submitted, 257);
    assert_eq!(s.bytes_read, 256 * 512);
    assert_eq!(s.bytes_written, 8);
    assert_eq!(q.pending_count(), 0);
    assert_eq!(q.error_count(), 0);
    assert_eq!(q.global_stats().ops_succeeded, 257);
    q.shutdown();
    assert_eq!(q.enqueue(IoBatch::new()), Err(ExofsError::Shutdown));
    let m = BatchStats::default().merge(&s);
    assert_eq!(m.ops_submitted, 257);
}
