use exofs::snapshot::snapshot::{flags, make_snapshot_name, Snapshot};
use exofs::snapshot::snapshot_list::{ListConsistencyError, SnapshotList};
use exofs::types::{BlobId, DiskOffset, EpochId, ExofsError, SnapshotId};

fn make_snap(id: u64, bytes: u64, parent: Option<u64>) -> Snapshot {
    Snapshot {
        id: SnapshotId(id),
        epoch_id: EpochId(1),
        parent_id: parent.map(SnapshotId),
        root_blob: BlobId([0u8; 32]),
        created_at: 1000 + id,
        n_blobs: 5,
        total_bytes: bytes,
        flags: 0,
        blob_catalog_offset: DiskOffset(0),
        blob_catalog_size: 0,
        name: make_snapshot_name(b"test"),
    }
}

#[test]
fn register_and_get() {
    let mut list = SnapshotList::new_const();
    list.register(make_snap(10, 4096, None)).unwrap();
    let got = list.get(SnapshotId(10)).unwrap();
    assert_eq!(got.total_bytes, 4096);
    assert_eq!(list.count(), 1);
}

#[test]
fn remove_updates_stats() {
    let mut list = SnapshotList::new_const();
    list.register(make_snap(1, 1024, None)).unwrap();
    list.register(make_snap(2, 2048, Some(1))).unwrap();
    list.remove(SnapshotId(1)).unwrap();
    assert_eq!(list.count(), 1);
    assert_eq!(list.total_bytes(), 2048);
}

#[test]
fn children_of_correct() {
    let mut list = SnapshotList::new_const();
    for i in 1..=4u64 {
        let parent = if i == 1 { None } else if i <= 3 { Some(1) } else { Some(2) };
        list.register(make_snap(i, 0, parent)).unwrap();
    }
    let children = list.children_of(SnapshotId(1)).unwrap();
    assert_eq!(children.len(), 2);
}

#[test]
fn duplicate_register_fails() {
    let mut list = SnapshotList::new_const();
    list.register(make_snap(5, 0, None)).unwrap();
    assert!(matches!(list.register(make_snap(5, 0, None)), Err(ExofsError::InvalidState)));
}

#[test]
fn consistency_ok() {
    let mut list = SnapshotList::new_const();
    list.register(make_snap(20, 512, None)).unwrap();
    assert!(list.verify_consistency().is_ok());
}

#[test]
fn all_refs_sorted() {
    let mut list = SnapshotList::new_const();
    for i in [3u64, 1, 2] {
        list.register(make_snap(i, 0, None)).unwrap();
    }
    let refs = list.all_refs().unwrap();
    assert_eq!(refs[0].id.0, 1);
    assert_eq!(refs[2].id.0, 3);
}

#[test]
fn register_then_remove_restores_registry() {
    let mut list = SnapshotList::new_const();
    list.register(make_snap(1, 10, None)).unwrap();
    list.register(make_snap(3, 30, None)).unwrap();
    list.register(make_snap(2, 20, None)).unwrap();
    let removed = list.remove(SnapshotId(2)).unwrap();
    assert_eq!(removed.total_bytes, 20);
    assert_eq!(list.count(), 2);
    assert_eq!(list.total_bytes(), 40);
    let ids: Vec<u64> = list.all_ids().unwrap().iter().map(|s| s.0).collect();
    assert_eq!(ids, vec![1, 3]);
    assert!(matches!(list.remove(SnapshotId(2)), Err(ExofsError::NotFound)));
}

#[test]
fn allocate_ids_increase() {
    let mut list = SnapshotList::new_const();
    assert_eq!(list.allocate_id().unwrap(), SnapshotId(1));
    assert_eq!(list.allocate_id().unwrap(), SnapshotId(2));
}

#[test]
fn flags_set_and_cleared() {
    let mut list = SnapshotList::new_const();
    list.register(make_snap(1, 0, None)).unwrap();
    list.set_flags(SnapshotId(1), flags::PROTECTED).unwrap();
    assert!(list.get(SnapshotId(1)).unwrap().is_protected());
    list.clear_flags(SnapshotId(1), flags::PROTECTED).unwrap();
    assert!(!list.get(SnapshotId(1)).unwrap().is_protected());
    assert!(matches!(list.set_flags(SnapshotId(9), flags::PROTECTED), Err(ExofsError::NotFound)));
}

#[test]
fn find_by_name_and_older_than() {
    let mut list = SnapshotList::new_const();
    let mut s = make_snap(1, 0, None);
    s.name = make_snapshot_name(b"alpha");
    list.register(s).unwrap();
    list.register(make_snap(2, 0, None)).unwrap();
    assert_eq!(list.find_by_name(b"alpha").unwrap().id, SnapshotId(1));
    assert!(list.find_by_name(b"beta").is_none());
    let old = list.older_than(1001 + 11, 10).unwrap();
    assert_eq!(old.len(), 1);
    assert_eq!(old[0].id, SnapshotId(1));
}

#[test]
fn stats_and_recompute() {
    let mut list = SnapshotList::new_const();
    let mut s = make_snap(1, 100, None);
    s.flags = flags::PROTECTED;
    list.register(s).unwrap();
    list.register(make_snap(2, 50, Some(1))).unwrap();
    let st = list.stats();
    assert_eq!(st.count, 2);
    assert_eq!(st.total_bytes, 150);
    assert_eq!(st.n_protected, 1);
    list.clear();
    assert_eq!(list.count(), 0);
    assert!(matches!(list.verify_consistency(), Ok(())));
    let _ = ListConsistencyError::CountMismatch { recorded: 1, actual: 0 };
}

#[test]
fn counters_stay_consistent_through_register_and_remove() {
    let mut list = SnapshotList::new_const();
    list.register(make_snap(3, 300, None)).unwrap();
    list.register(make_snap(1, 100, None)).unwrap();
    list.register(make_snap(2, 200, Some(1))).unwrap();
    assert!(list.verify_consistency().is_ok());
    list.remove(SnapshotId(1)).unwrap();
    assert!(list.verify_consistency().is_ok());
    assert_eq!(list.count(), 2);
    assert_eq!(list.total_bytes(), 500);
    let ids: Vec<u64> = list.all_refs().unwrap().iter().map(|r| r.id.0).collect();
    assert_eq!(ids, vec![2, 3]);
}

#[test]
fn overflowing_register_leaves_registry_unchanged() {
    let mut list = SnapshotList::new_const();
    list.register(make_snap(1, 10, None)).unwrap();
    assert!(matches!(list.register(make_snap(2, u64::MAX, None)), Err(ExofsError::Overflow)));
    assert_eq!(list.count(), 1);
    assert_eq!(list.total_bytes(), 10);
    assert!(list.get(SnapshotId(2)).is_err());
    assert!(list.verify_consistency().is_ok());
}

#[test]
fn stats_oldest_is_smallest_creation_time() {
    let mut list = SnapshotList::new_const();
    list.register(make_snap(7, 1, None)).unwrap();
    list.register(make_snap(5, 1, None)).unwrap();
    list.register(make_snap(9, 1, None)).unwrap();
    let st = list.stats();
    assert_eq!(st.oldest_created_at, 1005);
    assert_eq!(st.newest_created_at, 1009);
}
