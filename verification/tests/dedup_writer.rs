use exofs::hash::compute_blob_id;
use exofs::storage::dedup_writer::{DedupDecision, DedupWriter};
use exofs::types::DiskOffset;

fn make_offset(n: u64) -> DiskOffset {
    DiskOffset(n * 4096)
}

#[test]
fn test_first_write_is_miss() {
    let mut w = DedupWriter::new();
    let dec = w.check(b"unique data abc");
    assert!(dec.is_miss());
    assert_eq!(w.miss_count(), 1);
}

#[test]
fn test_second_write_is_hit() {
    let mut w = DedupWriter::new();
    let data = b"duplicate blob content 1234567890";
    let dec = w.check(data);
    let id = *dec.blob_id();
    w.register(id, make_offset(1), data.len() as u64).unwrap();
    let dec2 = w.check(data);
    assert!(dec2.is_hit());
    assert_eq!(w.hit_count(), 1);
}

#[test]
fn test_bytes_saved() {
    let mut w = DedupWriter::new();
    let data = b"some data ABCDEF0123456";
    let dec = w.check(data);
    let id = *dec.blob_id();
    w.register(id, make_offset(2), data.len() as u64).unwrap();
    w.check(data);
    assert_eq!(w.bytes_saved(), data.len() as u64);
}

#[test]
fn test_entry_count_and_unregister() {
    let mut w = DedupWriter::new();
    let data = b"content to dedup";
    let dec = w.check(data);
    let id = *dec.blob_id();
    w.register(id, make_offset(3), data.len() as u64).unwrap();
    assert_eq!(w.entry_count(), 1);
    w.unregister(&id);
    assert_eq!(w.entry_count(), 0);
}

#[test]
fn test_gc_removes_zero_ref() {
    let mut w = DedupWriter::new();
    let data = b"gc test data 12345";
    let dec = w.check(data);
    let id = *dec.blob_id();
    w.register(id, DiskOffset(0), data.len() as u64).unwrap();
    w.dec_ref(&id);
    let report = w.gc().unwrap();
    assert_eq!(report.entries_removed, 1);
}

#[test]
fn test_snapshot_restore() {
    let mut w1 = DedupWriter::new();
    let data = b"snapshot content ABCDEF";
    let dec = w1.check(data);
    let id = *dec.blob_id();
    w1.register(id, DiskOffset(8192), data.len() as u64).unwrap();
    let snap = w1.snapshot().unwrap();
    let mut w2 = DedupWriter::new();
    w2.restore_snapshot(&snap).unwrap();
    assert_eq!(w2.entry_count(), 1);
}

#[test]
fn test_orphan_detection() {
    let mut w = DedupWriter::new();
    let d1 = b"orphan candidate data 1234";
    let dec = w.check(d1);
    w.register(*dec.blob_id(), DiskOffset(0), d1.len() as u64).unwrap();
    let orphans = w.orphans();
    assert!(!orphans.is_empty());
}

#[test]
fn hit_reports_stored_offset_and_refs() {
    let mut w = DedupWriter::new();
    let data = b"payload";
    let id = compute_blob_id(data);
    assert!(w.check(data).blob_id().ct_eq(&id));
    w.register(id, make_offset(5), 7).unwrap();
    match w.check(data) {
        DedupDecision::Hit { offset, saved, .. } => {
            assert_eq!(offset, make_offset(5));
            assert_eq!(saved, 7);
        },
        DedupDecision::Miss { .. } => panic!("expected a hit"),
    }
    assert!(w.inc_ref(&id));
    assert_eq!(w.dec_ref(&id), Some(1));
    assert_eq!(w.dec_ref(&id), Some(0));
    assert_eq!(w.dec_ref(&id), Some(0));
    assert_eq!(w.entry_count(), 1);
    assert!(w.orphans().is_empty());
    let gone = w.unregister(&id).unwrap();
    assert_eq!(gone.size, 7);
    assert!(w.unregister(&id).is_none());
    assert_eq!(w.dec_ref(&id), None);
    assert!(!w.inc_ref(&id));
}

#[test]
fn ratio_after_hits() {
    let mut w = DedupWriter::new();
    assert_eq!(w.dedup_ratio_milli(), 0);
    let data = b"abcdefgh";
    let id = compute_blob_id(data);
    w.check(data);
    w.register(id, make_offset(0), 8).unwrap();
    w.check(data);
    assert_eq!(w.hit_count(), 1);
    assert_eq!(w.miss_count(), 1);
    assert_eq!(w.dedup_ratio_milli(), 500);
}
