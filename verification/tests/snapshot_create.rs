use exofs::hash::compute_blob_id;
use exofs::snapshot::snapshot::{make_snapshot_name, SNAPSHOT_NAME_LEN};
use exofs::snapshot::snapshot_create::{entries_from_raw, BlobEntry, SnapshotBlobSet, SnapshotCreator, SnapshotParams};
use exofs::snapshot::snapshot_list::SnapshotList;
use exofs::types::{BlobId, DiskOffset, EpochId, ExofsError, SnapshotId};

fn base_params(name: &[u8]) -> SnapshotParams {
    SnapshotParams {
        name: make_snapshot_name(name),
        parent_id: None,
        epoch_id: EpochId(1),
        flags: 0,
        quota_bytes: 0,
        created_at: 1000,
        blob_catalog_offset: DiskOffset(0),
        blob_catalog_size: 0,
    }
}

#[test]
fn create_empty_snapshot() {
    let mut list = SnapshotList::new_const();
    let params = base_params(b"empty-snap");
    let result = SnapshotCreator::create_empty(&mut list, &params).unwrap();
    assert_eq!(result.n_blobs, 0);
    assert_eq!(result.total_bytes, 0);
}

#[test]
fn create_with_blobs_hash02() {
    let raw1 = b"hello world";
    let raw2 = b"exo-os kernel";
    let mut set = SnapshotBlobSet::new();
    set.push(BlobEntry::new(compute_blob_id(raw1), raw1.len() as u64)).unwrap();
    set.push(BlobEntry::new(compute_blob_id(raw2), raw2.len() as u64)).unwrap();
    let mut list = SnapshotList::new_const();
    let params = base_params(b"snap-with-blobs");
    let result = SnapshotCreator::create(&mut list, &params, set).unwrap();
    assert_eq!(result.n_blobs, 2);
    assert_eq!(result.total_bytes, (raw1.len() + raw2.len()) as u64);
}

#[test]
fn quota_exceeded_returns_error() {
    let mut params = base_params(b"quota-snap");
    params.quota_bytes = 4;
    let mut set = SnapshotBlobSet::new();
    let raw = b"too much data";
    set.push(BlobEntry::new(compute_blob_id(raw), raw.len() as u64)).unwrap();
    let mut list = SnapshotList::new_const();
    let err = SnapshotCreator::create(&mut list, &params, set);
    assert!(matches!(err, Err(ExofsError::InvalidSize)));
    assert_eq!(list.count(), 0);
}

#[test]
fn empty_name_invalid() {
    let mut params = base_params(b"");
    params.name = [0u8; SNAPSHOT_NAME_LEN];
    let err = SnapshotCreator::validate_params(&params);
    assert!(matches!(err, Err(ExofsError::InvalidArgument)));
}

#[test]
fn blob_set_total_bytes_overflow() {
    let mut set = SnapshotBlobSet::new();
    set.push(BlobEntry::new(BlobId([0u8; 32]), u64::MAX)).unwrap();
    set.push(BlobEntry::new(BlobId([1u8; 32]), 1)).unwrap();
    let err = set.total_bytes();
    assert!(matches!(err, Err(ExofsError::Overflow)));
}

#[test]
fn root_blob_deterministic() {
    let mut set1 = SnapshotBlobSet::new();
    let mut set2 = SnapshotBlobSet::new();
    let bid = compute_blob_id(b"data");
    set1.push(BlobEntry::new(bid, 4)).unwrap();
    set2.push(BlobEntry::new(bid, 4)).unwrap();
    let r1 = set1.compute_root_blob().unwrap();
    let r2 = set2.compute_root_blob().unwrap();
    assert!(r1.ct_eq(&r2));
}

#[test]
fn root_blob_depends_on_order() {
    let a = compute_blob_id(b"a");
    let b = compute_blob_id(b"b");
    let mut set1 = SnapshotBlobSet::new();
    set1.push(BlobEntry::new(a, 1)).unwrap();
    set1.push(BlobEntry::new(b, 1)).unwrap();
    let mut set2 = SnapshotBlobSet::new();
    set2.push(BlobEntry::new(b, 1)).unwrap();
    set2.push(BlobEntry::new(a, 1)).unwrap();
    let r1 = set1.compute_root_blob().unwrap();
    let r2 = set2.compute_root_blob().unwrap();
    assert!(!r1.ct_eq(&r2));
}

#[test]
fn created_snapshots_get_increasing_ids() {
    let mut list = SnapshotList::new_const();
    let r1 = SnapshotCreator::create_empty(&mut list, &base_params(b"one")).unwrap();
    let r2 = SnapshotCreator::create_empty(&mut list, &base_params(b"two")).unwrap();
    assert_eq!(r1.id, SnapshotId(1));
    assert_eq!(r2.id, SnapshotId(2));
    assert_eq!(list.count(), 2);
    let s = list.get(r2.id).unwrap();
    assert_eq!(s.name_str(), "two");
}

#[test]
fn incremental_needs_parent() {
    let mut list = SnapshotList::new_const();
    let err = SnapshotCreator::create_incremental(&mut list, SnapshotId(9), Vec::new(), EpochId(1), b"inc", 5);
    assert!(matches!(err, Err(ExofsError::NotFound)));
    let base = SnapshotCreator::create_empty(&mut list, &base_params(b"base")).unwrap();
    let blobs = entries_from_raw(&[b"xy".as_slice(), b"z".as_slice()]).unwrap();
    let inc = SnapshotCreator::create_incremental(&mut list, base.id, blobs, EpochId(2), b"inc", 5).unwrap();
    assert_eq!(inc.n_blobs, 2);
    assert_eq!(inc.total_bytes, 3);
    let s = list.get(inc.id).unwrap();
    assert_eq!(s.parent_id, Some(base.id));
    assert!(s.is_incremental());
}

#[test]
fn invalid_epoch_refused() {
    let mut params = base_params(b"epoch0");
    params.epoch_id = EpochId(0);
    assert!(matches!(SnapshotCreator::validate_params(&params), Err(ExofsError::InvalidArgument)));
}
