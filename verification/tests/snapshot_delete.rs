use exofs::snapshot::snapshot::{flags, make_snapshot_name, Snapshot};
use exofs::snapshot::snapshot_delete::{DeleteDenyReason, DeleteOptions, SnapshotDeleter};
use exofs::snapshot::snapshot_list::SnapshotList;
use exofs::types::{BlobId, DiskOffset, EpochId, ExofsError, SnapshotId};

fn snap(id: u64, bytes: u64, parent: Option<u64>, fl: u32) -> Snapshot {
    Snapshot {
        id: SnapshotId(id),
        epoch_id: EpochId(1),
        parent_id: parent.map(SnapshotId),
        root_blob: BlobId([0u8; 32]),
        created_at: 100 + id,
        n_blobs: 0,
        total_bytes: bytes,
        flags: fl,
        blob_catalog_offset: DiskOffset(0),
        blob_catalog_size: 0,
        name: make_snapshot_name(b"t"),
    }
}

fn push_snap(list: &mut SnapshotList, id: u64, bytes: u64, parent: Option<u64>, fl: u32) {
    list.register(snap(id, bytes, parent, fl)).unwrap();
}

#[test]
fn cannot_delete_protected_without_force() {
    let mut list = SnapshotList::new_const();
    push_snap(&mut list, 1, 0, None, flags::PROTECTED);
    let s = list.get(SnapshotId(1)).unwrap();
    let opts = DeleteOptions::default();
    let err = SnapshotDeleter::check_preconditions(&s, opts);
    assert!(matches!(err, Err(ExofsError::InvalidState)));
}

#[test]
fn force_bypasses_protected() {
    let s = snap(1, 0, None, flags::PROTECTED);
    let opts = DeleteOptions { force: true, ..Default::default() };
    assert!(SnapshotDeleter::check_preconditions(&s, opts).is_ok());
}

#[test]
fn deny_reason_has_children() {
    let mut list = SnapshotList::new_const();
    push_snap(&mut list, 1, 0, None, 0);
    push_snap(&mut list, 2, 0, Some(1), 0);
    let reason = SnapshotDeleter::deny_reason(&list, SnapshotId(1), DeleteOptions::default());
    assert_eq!(reason, Some(DeleteDenyReason::HasChildren));
}

#[test]
fn estimate_cascade_freed_correct() {
    let mut list = SnapshotList::new_const();
    push_snap(&mut list, 10, 1000, None, 0);
    push_snap(&mut list, 11, 2000, Some(10), 0);
    let freed = SnapshotDeleter::estimate_cascade_freed(&list, SnapshotId(10)).unwrap();
    assert_eq!(freed, 3000);
}

#[test]
fn deletion_order_children_first() {
    let mut list = SnapshotList::new_const();
    push_snap(&mut list, 1, 0, None, 0);
    push_snap(&mut list, 2, 0, Some(1), 0);
    push_snap(&mut list, 3, 0, Some(2), 0);
    let order = SnapshotDeleter::deletion_order(&list, SnapshotId(1)).unwrap();
    let pos = |id: u64| order.iter().position(|s| s.0 == id).unwrap();
    assert!(pos(3) < pos(2));
    assert!(pos(2) < pos(1));
}

#[test]
fn delete_protected_keeps_it_without_force() {
    let mut list = SnapshotList::new_const();
    push_snap(&mut list, 1, 50, None, flags::PROTECTED);
    let err = SnapshotDeleter::delete(&mut list, SnapshotId(1), DeleteOptions::default());
    assert!(matches!(err, Err(ExofsError::InvalidState)));
    assert!(list.get(SnapshotId(1)).is_ok());
}

#[test]
fn delete_cascade_frees_subtree() {
    let mut list = SnapshotList::new_const();
    push_snap(&mut list, 1, 10, None, 0);
    push_snap(&mut list, 2, 20, Some(1), 0);
    push_snap(&mut list, 3, 30, Some(2), 0);
    push_snap(&mut list, 4, 40, None, 0);
    let opts = DeleteOptions { cascade: true, ..Default::default() };
    let res = SnapshotDeleter::delete(&mut list, SnapshotId(1), opts).unwrap();
    assert_eq!(res.freed_bytes, 60);
    assert_eq!(res.n_cascade, 2);
    assert_eq!(list.count(), 1);
    assert!(list.get(SnapshotId(4)).is_ok());
    assert!(matches!(list.get(SnapshotId(3)), Err(ExofsError::NotFound)));
}

#[test]
fn delete_missing_is_not_found() {
    let mut list = SnapshotList::new_const();
    let err = SnapshotDeleter::delete(&mut list, SnapshotId(5), DeleteOptions::default());
    assert!(matches!(err, Err(ExofsError::NotFound)));
    assert_eq!(SnapshotDeleter::deny_reason(&list, SnapshotId(5), DeleteOptions::default()), Some(DeleteDenyReason::NotFound));
    assert_eq!(ExofsError::from(DeleteDenyReason::NotFound), ExofsError::NotFound);
    assert_eq!(ExofsError::from(DeleteDenyReason::Mounted), ExofsError::InvalidState);
}

#[test]
fn mounted_refused_unless_allowed() {
    let s = snap(1, 0, None, flags::MOUNTED);
    assert!(SnapshotDeleter::check_preconditions(&s, DeleteOptions::default()).is_err());
    let opts = DeleteOptions { skip_mounted: false, ..Default::default() };
    assert!(SnapshotDeleter::check_preconditions(&s, opts).is_ok());
}

#[test]
fn delete_cascade_stops_at_protected_descendant() {
    let mut list = SnapshotList::new_const();
    push_snap(&mut list, 1, 10, None, 0);
    push_snap(&mut list, 2, 20, Some(1), 0);
    push_snap(&mut list, 3, 30, Some(1), flags::PROTECTED);
    push_snap(&mut list, 4, 40, Some(2), 0);
    let opts = DeleteOptions { cascade: true, ..Default::default() };
    let err = SnapshotDeleter::delete(&mut list, SnapshotId(1), opts);
    assert!(matches!(err, Err(ExofsError::InvalidState)));
    // Protection is checked before anything is removed.
    assert_eq!(list.count(), 4);
    assert!(list.get(SnapshotId(2)).is_ok());
    assert!(list.get(SnapshotId(4)).is_ok());
    assert_eq!(list.total_bytes(), 100);
}

#[test]
fn delete_cascade_with_force_takes_protected() {
    let mut list = SnapshotList::new_const();
    push_snap(&mut list, 1, 10, None, 0);
    push_snap(&mut list, 2, 20, Some(1), 0);
    push_snap(&mut list, 3, 30, Some(1), flags::PROTECTED);
    push_snap(&mut list, 4, 40, Some(2), 0);
    let opts = DeleteOptions { cascade: true, force: true, ..Default::default() };
    let res = SnapshotDeleter::delete(&mut list, SnapshotId(1), opts).unwrap();
    assert_eq!(res.freed_bytes, 100);
    assert_eq!(res.n_cascade, 3);
    let order: Vec<u64> = res.cascade_ids.iter().map(|s| s.0).collect();
    assert_eq!(order, vec![4, 2, 3]);
    assert_eq!(list.count(), 0);
}

#[test]
fn delete_without_cascade_refuses_parent() {
    let mut list = SnapshotList::new_const();
    push_snap(&mut list, 1, 10, None, 0);
    push_snap(&mut list, 2, 20, Some(1), 0);
    let err = SnapshotDeleter::delete(&mut list, SnapshotId(1), DeleteOptions::default());
    assert!(matches!(err, Err(ExofsError::InvalidState)));
    assert_eq!(list.count(), 2);
}

#[test]
fn delete_batch_stops_at_first_error() {
    let mut list = SnapshotList::new_const();
    push_snap(&mut list, 1, 10, None, 0);
    push_snap(&mut list, 2, 20, None, 0);
    let ids = [SnapshotId(1), SnapshotId(9), SnapshotId(2)];
    let err = SnapshotDeleter::delete_batch(&mut list, &ids, DeleteOptions::default());
    assert!(matches!(err, Err(ExofsError::NotFound)));
    assert!(list.get(SnapshotId(1)).is_err());
    assert!(list.get(SnapshotId(2)).is_ok());
    let ok = SnapshotDeleter::delete_batch(&mut list, &[SnapshotId(2)], DeleteOptions::default()).unwrap();
    assert_eq!(ok.len(), 1);
    assert_eq!(ok[0].id, SnapshotId(2));
    assert_eq!(ok[0].freed_bytes, 20);
    assert_eq!(list.count(), 0);
}

#[test]
fn cascade_follows_parents_whatever_their_ids() {
    let mut list = SnapshotList::new_const();
    push_snap(&mut list, 5, 50, None, 0);
    push_snap(&mut list, 1, 10, Some(5), 0);
    push_snap(&mut list, 3, 30, Some(1), 0);
    assert_eq!(SnapshotDeleter::estimate_cascade_freed(&list, SnapshotId(5)).unwrap(), 90);
    let order: Vec<u64> = SnapshotDeleter::deletion_order(&list, SnapshotId(5)).unwrap().iter().map(|s| s.0).collect();
    assert_eq!(order, vec![3, 1, 5]);
    let opts = DeleteOptions { cascade: true, ..Default::default() };
    let res = SnapshotDeleter::delete(&mut list, SnapshotId(5), opts).unwrap();
    assert_eq!(res.freed_bytes, 90);
    assert_eq!(res.n_cascade, 2);
    assert_eq!(list.count(), 0);
}

#[test]
fn deny_reason_foretells_delete() {
    let mut list = SnapshotList::new_const();
    push_snap(&mut list, 1, 10, None, flags::MOUNTED);
    push_snap(&mut list, 2, 20, None, 0);
    let opts = DeleteOptions::default();
    assert_eq!(SnapshotDeleter::deny_reason(&list, SnapshotId(1), opts), Some(DeleteDenyReason::Mounted));
    assert!(!SnapshotDeleter::can_delete(&list, SnapshotId(1), opts));
    assert!(matches!(SnapshotDeleter::delete(&mut list, SnapshotId(1), opts), Err(ExofsError::InvalidState)));
    assert_eq!(list.count(), 2);
    assert!(SnapshotDeleter::can_delete(&list, SnapshotId(2), opts));
    assert!(SnapshotDeleter::delete(&mut list, SnapshotId(2), opts).is_ok());
}
