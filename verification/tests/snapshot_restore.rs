use exofs::hash::compute_blob_id;
use exofs::snapshot::snapshot::{make_snapshot_name, Snapshot};
use exofs::snapshot::snapshot_list::SnapshotList;
use exofs::snapshot::snapshot_restore::{
    check_blob, write_verdict, MemBlobSource, NullRestoreSink, RestoreErrorKind, RestoreOptions, RestoreSink,
    SnapshotBlobSource, SnapshotRestore,
};
use exofs::types::{BlobId, DiskOffset, EpochId, ExofsError, ExofsResult, SnapshotId};

fn push_snap(list: &mut SnapshotList, id: u64) {
    list.register(Snapshot {
        id: SnapshotId(id),
        epoch_id: EpochId(1),
        parent_id: None,
        root_blob: BlobId([0u8; 32]),
        created_at: 0,
        n_blobs: 1,
        total_bytes: 0,
        flags: 0,
        blob_catalog_offset: DiskOffset(0),
        blob_catalog_size: 0,
        name: make_snapshot_name(b"restore-test"),
    })
    .unwrap();
}

#[test]
fn restore_null_sink_ok() {
    let mut list = SnapshotList::new_const();
    push_snap(&mut list, 1);
    let raw = b"hello world";
    let bid = compute_blob_id(raw);
    let mut source = MemBlobSource::new();
    source.add_blob(SnapshotId(1), bid, raw.to_vec()).unwrap();
    let mut sink = NullRestoreSink::new();
    let restore = SnapshotRestore::new();
    let result = restore.restore(&mut list, SnapshotId(1), &source, &mut sink, RestoreOptions::default()).unwrap();
    assert_eq!(result.n_blobs_ok, 1);
    assert_eq!(result.n_blobs_error, 0);
    assert_eq!(sink.bytes_received, raw.len() as u64);
    assert!(!list.get(SnapshotId(1)).unwrap().is_restoring());
}

#[test]
fn restore_corrupted_blob_detected() {
    let mut list = SnapshotList::new_const();
    push_snap(&mut list, 2);
    let raw = b"original data";
    let bid = compute_blob_id(raw);
    let mut source = MemBlobSource::new();
    source.add_blob(SnapshotId(2), bid, b"corrupted data".to_vec()).unwrap();
    let mut sink = NullRestoreSink::new();
    let restore = SnapshotRestore::new();
    let err = restore.restore(&mut list, SnapshotId(2), &source, &mut sink, RestoreOptions::default());
    assert!(err.is_err());
    assert_eq!(sink.blobs_received, 0);
}

#[test]
fn resilient_mode_continues_on_error() {
    let mut list = SnapshotList::new_const();
    push_snap(&mut list, 3);
    let bid = compute_blob_id(b"real");
    let mut source = MemBlobSource::new();
    source.add_blob(SnapshotId(3), bid, b"fake".to_vec()).unwrap();
    let mut sink = NullRestoreSink::new();
    let opts = RestoreOptions { verify_integrity: true, resilient: true, ..Default::default() };
    let restore = SnapshotRestore::new();
    let result = restore.restore(&mut list, SnapshotId(3), &source, &mut sink, opts).unwrap();
    assert_eq!(result.n_blobs_error, 1);
    assert_eq!(result.errors[0].kind, RestoreErrorKind::IntegrityFailed);
}

#[test]
fn abort_stops_restore() {
    let mut restore = SnapshotRestore::new();
    restore.abort();
    assert!(restore.is_aborted());
    restore.reset();
    assert!(!restore.is_aborted());
}

#[test]
fn aborted_restorer_refuses_blobs() {
    let mut list = SnapshotList::new_const();
    push_snap(&mut list, 4);
    let raw = b"abc";
    let mut source = MemBlobSource::new();
    source.add_blob(SnapshotId(4), compute_blob_id(raw), raw.to_vec()).unwrap();
    let mut sink = NullRestoreSink::new();
    let mut restore = SnapshotRestore::new();
    restore.abort();
    let r = restore.restore(&mut list, SnapshotId(4), &source, &mut sink, RestoreOptions::default());
    assert!(matches!(r, Err(ExofsError::Shutdown)));
    assert!(!list.get(SnapshotId(4)).unwrap().is_restoring());
}

#[test]
fn restore_missing_snapshot() {
    let mut list = SnapshotList::new_const();
    let source = MemBlobSource::new();
    let mut sink = NullRestoreSink::new();
    let restore = SnapshotRestore::new();
    let r = restore.restore(&mut list, SnapshotId(8), &source, &mut sink, RestoreOptions::default());
    assert!(matches!(r, Err(ExofsError::NotFound)));
}

#[test]
fn restore_limit_truncates() {
    let mut list = SnapshotList::new_const();
    push_snap(&mut list, 5);
    let mut source = MemBlobSource::new();
    for d in [b"a".as_slice(), b"bb".as_slice(), b"ccc".as_slice()] {
        source.add_blob(SnapshotId(5), compute_blob_id(d), d.to_vec()).unwrap();
    }
    let mut sink = NullRestoreSink::new();
    let restore = SnapshotRestore::new();
    let opts = RestoreOptions { max_blobs: 2, ..Default::default() };
    let res = restore.restore(&mut list, SnapshotId(5), &source, &mut sink, opts).unwrap();
    assert!(res.truncated);
    assert_eq!(res.n_blobs_ok, 2);
    assert_eq!(res.bytes_restored, 3);
}

#[test]
fn source_gives_back_what_was_added() {
    let mut source = MemBlobSource::new();
    let a = compute_blob_id(b"one");
    source.add_blob(SnapshotId(1), a, b"one".to_vec()).unwrap();
    source.add_blob(SnapshotId(1), a, b"uno".to_vec()).unwrap();
    assert_eq!(source.read_blob(SnapshotId(1), a).unwrap(), b"uno".to_vec());
    assert!(matches!(source.read_blob(SnapshotId(1), BlobId([9; 32])), Err(ExofsError::NotFound)));
    assert_eq!(source.list_blobs(SnapshotId(1)).unwrap().len(), 2);
    assert_eq!(source.list_blobs(SnapshotId(2)).unwrap().len(), 0);
}

struct ShortSink;

impl RestoreSink for ShortSink {
    fn write_blob(&mut self, _blob_id: BlobId, data: &[u8]) -> ExofsResult<usize> {
        Ok(data.len() / 2)
    }
    fn finalize(&mut self) -> ExofsResult<()> {
        Ok(())
    }
    fn abort(&mut self) {}
}

#[test]
fn short_write_reported() {
    let mut list = SnapshotList::new_const();
    push_snap(&mut list, 6);
    let mut source = MemBlobSource::new();
    source.add_blob(SnapshotId(6), compute_blob_id(b"wxyz"), b"wxyz".to_vec()).unwrap();
    let restore = SnapshotRestore::new();
    let mut sink = ShortSink;
    let opts = RestoreOptions { resilient: true, ..Default::default() };
    let res = restore.restore(&mut list, SnapshotId(6), &source, &mut sink, opts).unwrap();
    assert_eq!(res.errors[0].kind, RestoreErrorKind::ShortWrite);
    assert_eq!(write_verdict(Ok(4), 4), Ok(4));
    assert_eq!(write_verdict(Err(ExofsError::IoError), 4), Err(RestoreErrorKind::WriteFailed));
    let opts_off = RestoreOptions { verify_integrity: false, ..Default::default() };
    assert_eq!(check_blob(&BlobId([0; 32]), b"x", opts_off), None);
    assert_eq!(check_blob(&BlobId([0; 32]), b"x", RestoreOptions::default()), Some(RestoreErrorKind::IntegrityFailed));
}
