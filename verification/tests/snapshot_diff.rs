use std::collections::BTreeMap;

use exofs::hash::compute_blob_id;
use exofs::snapshot::snapshot::{make_snapshot_name, Snapshot};
use exofs::snapshot::snapshot_diff::{DiffKind, DiffOptions, MetaOnlyEnumerator, SnapshotBlobEnumerator, SnapshotDiff};
use exofs::snapshot::snapshot_list::SnapshotList;
use exofs::types::{BlobId, DiskOffset, EpochId, ExofsError, ExofsResult, SnapshotId};

struct TestEnumerator(BTreeMap<u64, Vec<(BlobId, u64)>>);

impl SnapshotBlobEnumerator for TestEnumerator {
    fn list_blobs_with_sizes(&self, id: SnapshotId) -> ExofsResult<Vec<(BlobId, u64)>> {
        Ok(self.0.get(&id.0).cloned().unwrap_or_default())
    }
}

fn make_snap(id: u64) -> Snapshot {
    Snapshot {
        id: SnapshotId(id),
        epoch_id: EpochId(1),
        parent_id: None,
        root_blob: BlobId([0u8; 32]),
        created_at: 0,
        n_blobs: 0,
        total_bytes: 0,
        flags: 0,
        blob_catalog_offset: DiskOffset(0),
        blob_catalog_size: 0,
        name: make_snapshot_name(b"t"),
    }
}

#[test]
fn diff_added_removed() {
    let mut list = SnapshotList::new_const();
    list.register(make_snap(1)).unwrap();
    list.register(make_snap(2)).unwrap();
    let b1 = compute_blob_id(b"data1");
    let b2 = compute_blob_id(b"data2");
    let b3 = compute_blob_id(b"data3");
    let mut m = BTreeMap::new();
    m.insert(1u64, vec![(b1, 10u64), (b2, 20u64)]);
    m.insert(2u64, vec![(b2, 20u64), (b3, 30u64)]);
    let enumerator = TestEnumerator(m);
    let report = SnapshotDiff::compare(&list, SnapshotId(1), SnapshotId(2), &enumerator, DiffOptions::default()).unwrap();
    assert_eq!(report.n_added, 1);
    assert_eq!(report.n_removed, 1);
    assert!(!report.has_changes() || report.has_changes());
}

#[test]
fn diff_identical_snapshots() {
    let mut list = SnapshotList::new_const();
    let b = compute_blob_id(b"shared");
    let mut s1 = make_snap(10);
    let mut s2 = make_snap(11);
    s1.root_blob = b;
    s1.n_blobs = 1;
    s2.root_blob = b;
    s2.n_blobs = 1;
    list.register(s1).unwrap();
    list.register(s2).unwrap();
    let identical = SnapshotDiff::is_identical(&list, SnapshotId(10), SnapshotId(11)).unwrap();
    assert!(identical);
}

#[test]
fn diff_max_entries_truncation() {
    let mut list = SnapshotList::new_const();
    list.register(make_snap(20)).unwrap();
    list.register(make_snap(21)).unwrap();
    let blobs: Vec<(BlobId, u64)> = (0u8..10)
        .map(|i| {
            let mut b = [0u8; 32];
            b[0] = i;
            (BlobId(b), i as u64 * 10)
        })
        .collect();
    let mut m = BTreeMap::new();
    m.insert(20u64, blobs.clone());
    m.insert(21u64, vec![]);
    let enumerator = TestEnumerator(m);
    let opts = DiffOptions { max_entries: 3, include_unchanged: false };
    let report = SnapshotDiff::compare(&list, SnapshotId(20), SnapshotId(21), &enumerator, opts).unwrap();
    assert!(report.truncated);
    assert_eq!(report.entries.len(), 3);
}

fn id(b: u8) -> BlobId {
    let mut a = [0u8; 32];
    a[0] = b;
    BlobId(a)
}

#[test]
fn diff_sorted_counts_each_kind() {
    let list_l = [(id(1), 5u64), (id(2), 7), (id(4), 9)];
    let list_r = [(id(2), 8u64), (id(3), 1), (id(4), 9)];
    let left = make_snap(1);
    let right = make_snap(2);
    let lr = exofs::snapshot::snapshot::SnapshotRef::from(&left);
    let rr = exofs::snapshot::snapshot::SnapshotRef::from(&right);
    let opts = DiffOptions { include_unchanged: true, max_entries: 0 };
    let rep = SnapshotDiff::diff_sorted(lr, rr, &list_l, &list_r, opts).unwrap();
    assert_eq!(rep.n_removed, 1);
    assert_eq!(rep.n_added, 1);
    assert_eq!(rep.n_modified, 0);
    assert_eq!(rep.n_unchanged, 2);
    assert_eq!(rep.bytes_added, 1);
    assert_eq!(rep.bytes_removed, 5);
    assert_eq!(rep.entries.len(), 4);
    assert_eq!(rep.entries[0].kind, DiffKind::Removed);
    assert_eq!(rep.entries[1].kind, DiffKind::Unchanged);
    assert_eq!(rep.entries[2].kind, DiffKind::Added);
    assert_eq!(rep.entries[3].kind, DiffKind::Unchanged);
    let s = rep.summary();
    assert_eq!(s.n_added, 1);
}

#[test]
fn compare_missing_snapshot_not_found() {
    let mut list = SnapshotList::new_const();
    list.register(make_snap(1)).unwrap();
    let enumerator = MetaOnlyEnumerator { list: &list };
    let r = SnapshotDiff::compare(&list, SnapshotId(1), SnapshotId(9), &enumerator, DiffOptions::default());
    assert!(matches!(r, Err(ExofsError::NotFound)));
}

#[test]
fn blobs_only_in_left() {
    let mut m = BTreeMap::new();
    m.insert(1u64, vec![(id(3), 1u64), (id(1), 1), (id(2), 1)]);
    m.insert(2u64, vec![(id(2), 1u64)]);
    let enumerator = TestEnumerator(m);
    let only = SnapshotDiff::blobs_only_in(SnapshotId(1), SnapshotId(2), &enumerator).unwrap();
    assert_eq!(only.len(), 2);
    assert_eq!(only[0].0[0], 1);
    assert_eq!(only[1].0[0], 3);
}

#[test]
fn blobs_only_in_same_list_is_empty() {
    let mut m = BTreeMap::new();
    m.insert(4u64, vec![(id(9), 1u64), (id(5), 2), (id(7), 3)]);
    m.insert(5u64, vec![(id(7), 3u64), (id(9), 1), (id(5), 2)]);
    let enumerator = TestEnumerator(m);
    assert!(SnapshotDiff::blobs_only_in(SnapshotId(4), SnapshotId(5), &enumerator).unwrap().is_empty());
    assert!(SnapshotDiff::blobs_only_in(SnapshotId(4), SnapshotId(4), &enumerator).unwrap().is_empty());
    let only = SnapshotDiff::blobs_only_in(SnapshotId(4), SnapshotId(6), &enumerator).unwrap();
    assert_eq!(only.len(), 3);
    assert!(only.iter().all(|b| b.0[0] == 5 || b.0[0] == 7 || b.0[0] == 9));
}
