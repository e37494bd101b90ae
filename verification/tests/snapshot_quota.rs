use exofs::snapshot::snapshot::{make_snapshot_name, Snapshot};
use exofs::snapshot::snapshot_list::SnapshotList;
use exofs::snapshot::snapshot_quota::{GlobalQuotaPolicy, SnapshotQuotaEntry, SnapshotQuotaTable};
use exofs::types::{BlobId, DiskOffset, EpochId, ExofsError, SnapshotId};

fn push_snap(list: &mut SnapshotList, id: u64) {
    list.register(Snapshot {
        id: SnapshotId(id),
        epoch_id: EpochId(1),
        parent_id: None,
        root_blob: BlobId([0u8; 32]),
        created_at: 0,
        n_blobs: 0,
        total_bytes: 0,
        flags: 0,
        blob_catalog_offset: DiskOffset(0),
        blob_catalog_size: 0,
        name: make_snapshot_name(b"q-test"),
    })
    .unwrap();
}

#[test]
fn set_and_get_quota() {
    let mut list = SnapshotList::new_const();
    push_snap(&mut list, 1);
    let mut qt = SnapshotQuotaTable::new_const();
    qt.set(&mut list, SnapshotId(1), 1024, 10).unwrap();
    let entry = qt.get(SnapshotId(1)).unwrap();
    assert_eq!(entry.max_bytes, 1024);
    assert_eq!(entry.max_blobs, 10);
}

#[test]
fn can_allocate_within_quota() {
    let mut list = SnapshotList::new_const();
    push_snap(&mut list, 2);
    let mut qt = SnapshotQuotaTable::new_const();
    qt.set(&mut list, SnapshotId(2), 4096, 5).unwrap();
    assert!(qt.check_allocation(&list, SnapshotId(2), 1000, 2).is_ok());
}

#[test]
fn allocation_exceeds_quota_rejected() {
    let mut list = SnapshotList::new_const();
    push_snap(&mut list, 3);
    let mut qt = SnapshotQuotaTable::new_const();
    qt.set(&mut list, SnapshotId(3), 100, 0).unwrap();
    let err = qt.check_allocation(&list, SnapshotId(3), 200, 0);
    assert!(matches!(err, Err(ExofsError::InvalidSize)));
}

#[test]
fn global_quota_respected() {
    let mut list = SnapshotList::new_const();
    push_snap(&mut list, 4);
    let mut qt = SnapshotQuotaTable::new_const();
    qt.set_policy(GlobalQuotaPolicy { max_total_bytes: 500, ..Default::default() });
    qt.update_usage(SnapshotId(4), 400, 0).unwrap();
    let err = qt.check_allocation(&list, SnapshotId(4), 200, 0);
    assert!(matches!(err, Err(ExofsError::InvalidSize)));
}

#[test]
fn update_usage_negative_saturates() {
    let mut list = SnapshotList::new_const();
    push_snap(&mut list, 5);
    let mut qt = SnapshotQuotaTable::new_const();
    qt.set(&mut list, SnapshotId(5), 0, 0).unwrap();
    qt.update_usage(SnapshotId(5), 100, 5).unwrap();
    qt.update_usage(SnapshotId(5), -200, -10).unwrap();
    let e = qt.get(SnapshotId(5)).unwrap();
    assert_eq!(e.used_bytes, 0);
}

#[test]
fn exceeded_snapshots_detected() {
    let mut list = SnapshotList::new_const();
    push_snap(&mut list, 6);
    let mut qt = SnapshotQuotaTable::new_const();
    qt.set(&mut list, SnapshotId(6), 50, 0).unwrap();
    qt.update_usage(SnapshotId(6), 100, 0).unwrap();
    let exceeded = qt.exceeded_snapshots().unwrap();
    assert!(exceeded.iter().any(|id| id.0 == 6));
}

#[test]
fn set_marks_and_remove_unmarks() {
    let mut list = SnapshotList::new_const();
    push_snap(&mut list, 1);
    let mut qt = SnapshotQuotaTable::new_const();
    assert!(matches!(qt.set(&mut list, SnapshotId(2), 1, 1), Err(ExofsError::NotFound)));
    qt.set(&mut list, SnapshotId(1), 1, 1).unwrap();
    assert_ne!(list.get(SnapshotId(1)).unwrap().flags & exofs::snapshot::snapshot::flags::QUOTA_SET, 0);
    qt.remove(&mut list, SnapshotId(1)).unwrap();
    assert_eq!(list.get(SnapshotId(1)).unwrap().flags & exofs::snapshot::snapshot::flags::QUOTA_SET, 0);
    assert!(qt.get(SnapshotId(1)).is_none());
    assert!(matches!(qt.remove(&mut list, SnapshotId(1)), Err(ExofsError::NotFound)));
}

#[test]
fn usage_overflow_refused() {
    let mut list = SnapshotList::new_const();
    push_snap(&mut list, 1);
    let mut qt = SnapshotQuotaTable::new_const();
    qt.set(&mut list, SnapshotId(1), 0, 0).unwrap();
    qt.update_usage(SnapshotId(1), i64::MAX, 0).unwrap();
    qt.update_usage(SnapshotId(1), i64::MAX, 0).unwrap();
    let r = qt.update_usage(SnapshotId(1), 2, 0);
    assert!(matches!(r, Err(ExofsError::Overflow)));
    assert_eq!(qt.get(SnapshotId(1)).unwrap().used_bytes, u64::MAX - 1);
    assert_eq!(qt.global_used_bytes(), u64::MAX - 1);
}

#[test]
fn default_limit_uses_snapshot_bytes() {
    let mut list = SnapshotList::new_const();
    let mut s = Snapshot {
        id: SnapshotId(1),
        epoch_id: EpochId(1),
        parent_id: None,
        root_blob: BlobId([0u8; 32]),
        created_at: 0,
        n_blobs: 0,
        total_bytes: 80,
        flags: 0,
        blob_catalog_offset: DiskOffset(0),
        blob_catalog_size: 0,
        name: make_snapshot_name(b"d"),
    };
    list.register(s).unwrap();
    s.id = SnapshotId(2);
    list.register(s).unwrap();
    let mut qt = SnapshotQuotaTable::new_const();
    qt.set_policy(GlobalQuotaPolicy { default_snap_max_bytes: 100, ..Default::default() });
    assert!(qt.check_allocation(&list, SnapshotId(1), 20, 0).is_ok());
    assert!(matches!(qt.check_allocation(&list, SnapshotId(1), 21, 0), Err(ExofsError::InvalidSize)));
    assert!(matches!(qt.check_allocation(&list, SnapshotId(9), 1, 0), Err(ExofsError::NotFound)));
}

#[test]
fn snap_count_limit() {
    let mut qt = SnapshotQuotaTable::new_const();
    qt.set_policy(GlobalQuotaPolicy { max_snap_count: 2, ..Default::default() });
    qt.register_snap_creation().unwrap();
    qt.register_snap_creation().unwrap();
    assert!(matches!(qt.register_snap_creation(), Err(ExofsError::BufferFull)));
    assert_eq!(qt.global_snap_count(), 2);
    let list = SnapshotList::new_const();
    assert!(matches!(qt.check_allocation(&list, SnapshotId(1), 0, 0), Err(ExofsError::BufferFull)));
    qt.register_snap_deletion();
    qt.register_snap_deletion();
    qt.register_snap_deletion();
    assert_eq!(qt.global_snap_count(), 0);
    qt.clear();
    assert_eq!(qt.get_policy().max_snap_count, 2);
}

#[test]
fn entry_limits() {
    let e = SnapshotQuotaEntry { snap_id: SnapshotId(1), max_bytes: 10, max_blobs: 2, used_bytes: 9, used_blobs: 2 };
    assert!(e.can_allocate(1, 0));
    assert!(!e.can_allocate(2, 0));
    assert!(!e.can_allocate(0, 1));
    assert!(!e.is_exceeded());
    let e2 = SnapshotQuotaEntry::new(SnapshotId(2), 0, 0);
    assert!(e2.can_allocate(u64::MAX, u64::MAX));
}

#[test]
fn admitted_allocation_stays_within_quota() {
    let mut list = SnapshotList::new_const();
    push_snap(&mut list, 6);
    let mut qt = SnapshotQuotaTable::new_const();
    qt.set_policy(GlobalQuotaPolicy { max_total_bytes: 1000, ..Default::default() });
    qt.set(&mut list, SnapshotId(6), 100, 3).unwrap();
    assert!(qt.check_allocation(&list, SnapshotId(6), 60, 2).is_ok());
    qt.update_usage(SnapshotId(6), 60, 2).unwrap();
    let e = qt.get(SnapshotId(6)).unwrap();
    assert_eq!(e.used_bytes, 60);
    assert_eq!(e.used_blobs, 2);
    assert!(!e.is_exceeded());
    assert_eq!(qt.global_used_bytes(), 60);
    assert!(matches!(qt.check_allocation(&list, SnapshotId(6), 50, 0), Err(ExofsError::InvalidSize)));
}
