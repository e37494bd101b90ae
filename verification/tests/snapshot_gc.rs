use exofs::snapshot::snapshot::{flags, make_snapshot_name, Snapshot};
use exofs::snapshot::snapshot_gc::{GcReason, SnapshotGc, SnapshotRetentionPolicy};
use exofs::snapshot::snapshot_list::SnapshotList;
use exofs::types::{BlobId, DiskOffset, EpochId, SnapshotId};

fn snap_age(id: u64, created_at: u64, bytes: u64, fl: u32) -> Snapshot {
    Snapshot {
        id: SnapshotId(id),
        epoch_id: EpochId(1),
        parent_id: None,
        root_blob: BlobId([0u8; 32]),
        created_at,
        n_blobs: 0,
        total_bytes: bytes,
        flags: fl,
        blob_catalog_offset: DiskOffset(0),
        blob_catalog_size: 0,
        name: make_snapshot_name(b"gc-test"),
    }
}

fn push_snap_age(list: &mut SnapshotList, id: u64, created_at: u64, bytes: u64) {
    list.register(snap_age(id, created_at, bytes, 0)).unwrap();
}

#[test]
fn unlimited_policy_does_nothing() {
    let mut list = SnapshotList::new_const();
    push_snap_age(&mut list, 1, 0, 10);
    let policy = SnapshotRetentionPolicy::default();
    let report = SnapshotGc::run(&mut list, policy, 9999).unwrap();
    assert_eq!(report.n_deleted, 0);
    assert_eq!(list.count(), 1);
}

#[test]
fn dry_run_by_age() {
    let mut list = SnapshotList::new_const();
    push_snap_age(&mut list, 1, 100, 0);
    push_snap_age(&mut list, 2, 200, 0);
    push_snap_age(&mut list, 3, 8000, 0);
    let policy = SnapshotRetentionPolicy::default().max_age(500);
    let candidates = SnapshotGc::dry_run(&list, policy, 1000).unwrap();
    let ids: Vec<u64> = candidates.iter().map(|c| c.id.0).collect();
    assert!(ids.contains(&1));
    assert!(ids.contains(&2));
    assert!(!ids.contains(&3));
}

#[test]
fn estimate_freed_arithmetic() {
    let mut list = SnapshotList::new_const();
    push_snap_age(&mut list, 10, 100, 1024);
    push_snap_age(&mut list, 11, 200, 2048);
    let policy = SnapshotRetentionPolicy::default().max_age(500);
    let freed = SnapshotGc::estimate_freed(&list, policy, 1000).unwrap();
    assert_eq!(freed, 3072);
}

#[test]
fn gc_protected_skipped() {
    let mut list = SnapshotList::new_const();
    list.register(snap_age(20, 10, 0, flags::PROTECTED)).unwrap();
    let policy = SnapshotRetentionPolicy { max_age_ticks: 500, respect_protected: true, ..Default::default() };
    let report = SnapshotGc::run(&mut list, policy, 1000).unwrap();
    assert_eq!(report.n_deleted, 0);
    assert!(report.n_skipped > 0);
    assert!(list.get(SnapshotId(20)).is_ok());
}

#[test]
fn gc_by_count_deletes_oldest_first() {
    let mut list = SnapshotList::new_const();
    push_snap_age(&mut list, 1, 300, 1);
    push_snap_age(&mut list, 2, 100, 2);
    push_snap_age(&mut list, 3, 200, 4);
    let policy = SnapshotRetentionPolicy::default().max_count(1);
    let cands = SnapshotGc::dry_run(&list, policy, 400).unwrap();
    assert_eq!(cands.len(), 2);
    assert_eq!(cands[0].id, SnapshotId(2));
    assert_eq!(cands[1].id, SnapshotId(3));
    assert_eq!(cands[0].reason, GcReason::CountExceeded);
    let rep = SnapshotGc::run(&mut list, policy, 400).unwrap();
    assert_eq!(rep.n_deleted, 2);
    assert_eq!(rep.bytes_freed, 6);
    assert_eq!(rep.remaining_count, 1);
    assert!(list.get(SnapshotId(1)).is_ok());
}

#[test]
fn gc_by_quota_frees_down_to_limit() {
    let mut list = SnapshotList::new_const();
    push_snap_age(&mut list, 1, 10, 100);
    push_snap_age(&mut list, 2, 20, 100);
    push_snap_age(&mut list, 3, 30, 100);
    let policy = SnapshotRetentionPolicy::default().max_bytes(150);
    let rep = SnapshotGc::run(&mut list, policy, 40).unwrap();
    assert_eq!(rep.n_deleted, 2);
    assert_eq!(list.count(), 1);
    assert!(list.get(SnapshotId(3)).is_ok());
}

#[test]
fn policy_builders() {
    let p = SnapshotRetentionPolicy::default();
    assert!(p.is_unlimited());
    let p = p.max_age(5);
    assert!(!p.is_unlimited());
    assert_eq!(p.max_age_ticks, 5);
}

#[test]
fn gc_by_count_with_cascade_takes_subtrees() {
    let mut list = SnapshotList::new_const();
    push_snap_age(&mut list, 1, 100, 10);
    let mut child = snap_age(2, 200, 20, 0);
    child.parent_id = Some(SnapshotId(1));
    list.register(child).unwrap();
    push_snap_age(&mut list, 3, 300, 30);
    let policy = SnapshotRetentionPolicy { cascade: true, ..SnapshotRetentionPolicy::default().max_count(1) };
    let report = SnapshotGc::run(&mut list, policy, 1000).unwrap();
    assert_eq!(report.n_deleted, 2);
    assert_eq!(report.bytes_freed, 60);
    assert_eq!(report.deleted_ids, vec![SnapshotId(1), SnapshotId(3)]);
    assert_eq!(list.count(), 0);
}
