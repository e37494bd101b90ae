use exofs::hash::compute_blob_id;
use exofs::storage::dedup_reader::{read_blobs_batch, resolve_and_read, verify_blob_integrity, DedupReadPipeline, DedupReader};
use exofs::storage::dedup_writer::{DedupEntry, DedupWriter};
use exofs::types::{DiskOffset, ExofsError, ExofsResult};

fn mock_read(buf: Vec<u8>) -> impl Fn(DiskOffset, &mut [u8]) -> ExofsResult<usize> {
    move |_off, out| {
        let n = out.len().min(buf.len());
        out[..n].copy_from_slice(&buf[..n]);
        Ok(n)
    }
}

#[test]
fn test_resolve_not_found_without_index() {
    let mut reader = DedupReader::new();
    let writer = DedupWriter::new();
    let id = compute_blob_id(b"test");
    let r = reader.resolve(&id, &writer);
    assert!(r.is_err());
}

#[test]
fn test_resolve_from_entry() {
    let mut reader = DedupReader::new();
    let data = b"dedup blob data";
    let id = compute_blob_id(data);
    let entry = DedupEntry::new(id, DiskOffset(4096), data.len() as u64);
    let r = reader.resolve_from_entry(&entry).unwrap();
    assert_eq!(r.offset, DiskOffset(4096));
    assert_eq!(reader.cache_size(), 1);
}

#[test]
fn test_read_and_verify_ok() {
    let mut reader = DedupReader::new();
    let data = b"verified blob content";
    let id = compute_blob_id(data);
    let buf = data.to_vec();
    let rfn = mock_read(buf);
    let result = reader.read_and_verify(&id, DiskOffset(0), data.len() as u64, &rfn);
    assert!(result.is_ok());
    assert_eq!(result.unwrap(), data);
}

#[test]
fn test_cache_invalidate() {
    let mut reader = DedupReader::new();
    let data = b"cache test data";
    let id = compute_blob_id(data);
    let entry = DedupEntry::new(id, DiskOffset(0), data.len() as u64);
    reader.resolve_from_entry(&entry).unwrap();
    assert_eq!(reader.cache_size(), 1);
    reader.invalidate(&id);
    assert_eq!(reader.cache_size(), 0);
}

#[test]
fn test_verify_blob_integrity_ok() {
    let data = b"integrity check data";
    let blob_id = compute_blob_id(data);
    assert!(verify_blob_integrity(data, &blob_id));
}

#[test]
fn test_verify_blob_integrity_fail() {
    let data = b"integrity check data";
    let blob_id = compute_blob_id(data);
    let corrupt = b"corrupted data XXXX!";
    assert!(!verify_blob_integrity(corrupt, &blob_id));
}

#[test]
fn dedup_reader_test_stats_snapshot() {
    let reader = DedupReader::new();
    let stats = reader.stats();
    assert_eq!(stats.total_reads, 0);
}

#[test]
fn corrupted_read_is_refused_and_counted() {
    let mut reader = DedupReader::new();
    let id = compute_blob_id(b"good bytes");
    let rfn = mock_read(b"evil bytes".to_vec());
    let r = reader.read_and_verify(&id, DiskOffset(0), 10, &rfn);
    assert!(matches!(r, Err(ExofsError::ChecksumMismatch)));
    assert_eq!(reader.verify_error_count(), 1);
}

#[test]
fn resolve_answers_from_cache_only() {
    let mut writer = DedupWriter::new();
    let data = b"indexed";
    let id = compute_blob_id(data);
    writer.register(id, DiskOffset(512), 7).unwrap();
    let mut reader = DedupReader::new();
    assert!(matches!(reader.resolve(&id, &writer), Err(ExofsError::NotFound)));
    assert_eq!(reader.cache_miss_count(), 1);
    reader.resolve_from_entry(&DedupEntry::new(id, DiskOffset(512), 7)).unwrap();
    let r2 = reader.resolve(&id, &writer).unwrap();
    assert!(r2.cached);
    assert_eq!(r2.offset, DiskOffset(512));
    assert_eq!(reader.cache_hit_count(), 1);
    assert_eq!(reader.cache_hit_rate_pct(), 50);
    reader.invalidate_all();
    assert_eq!(reader.cache_size(), 0);
    let rfn = mock_read(data.to_vec());
    let mut pipe = DedupReadPipeline::new(&mut reader, &writer);
    assert!(pipe.read_blob(&id, &rfn).is_err());
    let mut reader2 = DedupReader::new();
    reader2.resolve_from_entry(&DedupEntry::new(id, DiskOffset(0), 7)).unwrap();
    let mut pipe2 = DedupReadPipeline::new(&mut reader2, &writer);
    assert_eq!(pipe2.read_blob(&id, &rfn).unwrap(), data.to_vec());
}

#[test]
fn batch_and_single_reads() {
    let data = b"batch one";
    let id = compute_blob_id(data);
    let other = compute_blob_id(b"other");
    let rfn = mock_read(data.to_vec());
    let mut reader = DedupReader::new();
    let out = read_blobs_batch(&[(id, DiskOffset(0), 9), (other, DiskOffset(0), 9)], &mut reader, &rfn).unwrap();
    assert_eq!(out.len(), 2);
    assert!(out[0].ok);
    assert_eq!(out[0].data, data.to_vec());
    assert!(!out[1].ok);
    assert!(out[1].data.is_empty());
    let entry = DedupEntry::new(id, DiskOffset(0), 9);
    assert_eq!(resolve_and_read(&id, &entry, &mut reader, &rfn).unwrap(), data.to_vec());
}
