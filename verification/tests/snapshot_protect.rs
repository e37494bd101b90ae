use exofs::snapshot::snapshot::{make_snapshot_name, Snapshot};
use exofs::snapshot::snapshot_list::SnapshotList;
use exofs::snapshot::snapshot_protect::{SnapshotProtect, WormPolicy};
use exofs::types::{BlobId, DiskOffset, EpochId, ExofsError, SnapshotId};

fn push_snap(list: &mut SnapshotList, id: u64) {
    list.register(Snapshot {
        id: SnapshotId(id),
        epoch_id: EpochId(1),
        parent_id: None,
        root_blob: BlobId([0u8; 32]),
        created_at: 0,
        n_blobs: 0,
        total_bytes: 0,
        flags: 0,
        blob_catalog_offset: DiskOffset(0),
        blob_catalog_size: 0,
        name: make_snapshot_name(b"p-test"),
    })
    .unwrap();
}

#[test]
fn protect_and_is_protected() {
    let mut list = SnapshotList::new_const();
    push_snap(&mut list, 1);
    let mut p = SnapshotProtect::new_const();
    p.protect(&mut list, SnapshotId(1), 0).unwrap();
    assert!(p.is_protected(SnapshotId(1)));
    let snap = list.get(SnapshotId(1)).unwrap();
    assert!(snap.is_protected());
}

#[test]
fn unprotect_without_worm() {
    let mut list = SnapshotList::new_const();
    push_snap(&mut list, 2);
    let mut p = SnapshotProtect::new_const();
    p.protect(&mut list, SnapshotId(2), 0).unwrap();
    p.unprotect(&mut list, SnapshotId(2), 999).unwrap();
    assert!(!p.is_protected(SnapshotId(2)));
    assert!(!list.get(SnapshotId(2)).unwrap().is_protected());
}

#[test]
fn worm_blocks_early_unprotect() {
    let mut list = SnapshotList::new_const();
    push_snap(&mut list, 3);
    let mut p = SnapshotProtect::new_const();
    p.protect_worm(&mut list, SnapshotId(3), 1000, 0).unwrap();
    let err = p.unprotect(&mut list, SnapshotId(3), 500);
    assert!(matches!(err, Err(ExofsError::InvalidState)));
    assert!(p.is_protected(SnapshotId(3)));
    assert!(list.get(SnapshotId(3)).unwrap().is_protected());
}

#[test]
fn worm_allows_unprotect_after_expiry() {
    let mut list = SnapshotList::new_const();
    push_snap(&mut list, 4);
    let mut p = SnapshotProtect::new_const();
    p.protect_worm(&mut list, SnapshotId(4), 500, 0).unwrap();
    p.unprotect(&mut list, SnapshotId(4), 600).unwrap();
    assert!(!p.is_protected(SnapshotId(4)));
}

#[test]
fn expired_worm_list() {
    let mut list = SnapshotList::new_const();
    push_snap(&mut list, 10);
    push_snap(&mut list, 11);
    let mut p = SnapshotProtect::new_const();
    p.protect_worm(&mut list, SnapshotId(10), 500, 0).unwrap();
    p.protect_worm(&mut list, SnapshotId(11), 2000, 0).unwrap();
    let expired = p.expired_worm(1000).unwrap();
    assert_eq!(expired.len(), 1);
    assert_eq!(expired[0].0, 10);
}

#[test]
fn stats_count_correct() {
    let mut list = SnapshotList::new_const();
    push_snap(&mut list, 20);
    push_snap(&mut list, 21);
    let mut p = SnapshotProtect::new_const();
    p.protect(&mut list, SnapshotId(20), 0).unwrap();
    p.protect_worm(&mut list, SnapshotId(21), 999, 0).unwrap();
    let s = p.stats();
    assert_eq!(s.n_protected, 2);
    assert_eq!(s.n_worm, 1);
    assert_eq!(s.n_permanent, 1);
    assert_eq!(s.n_expiring_soon, 1);
}

#[test]
fn permanent_worm_never_expires() {
    let w = WormPolicy { activated_at: 10, retain_ticks: 0 };
    assert!(!w.is_expired(u64::MAX));
    assert_eq!(w.expires_at(), 0);
    let w = WormPolicy { activated_at: u64::MAX - 1, retain_ticks: 5 };
    assert_eq!(w.expires_at(), u64::MAX);
    let w = WormPolicy { activated_at: 100, retain_ticks: 50 };
    assert!(!w.is_expired(149));
    assert!(w.is_expired(150));
    assert!(!w.is_expired(20));
}

#[test]
fn protect_missing_snapshot_not_found() {
    let mut list = SnapshotList::new_const();
    let mut p = SnapshotProtect::new_const();
    assert!(matches!(p.protect(&mut list, SnapshotId(9), 0), Err(ExofsError::NotFound)));
    assert!(matches!(p.unprotect(&mut list, SnapshotId(9), 0), Err(ExofsError::NotFound)));
    assert_eq!(p.n_protected(), 0);
}

#[test]
fn note_and_listing() {
    let mut list = SnapshotList::new_const();
    push_snap(&mut list, 3);
    push_snap(&mut list, 1);
    let mut p = SnapshotProtect::new_const();
    p.protect(&mut list, SnapshotId(3), 7).unwrap();
    p.protect_worm(&mut list, SnapshotId(1), 10, 7).unwrap();
    p.set_note(SnapshotId(3), b"keep").unwrap();
    let e = p.get_entry(SnapshotId(3)).unwrap();
    assert_eq!(&e.note[..4], b"keep");
    assert_eq!(e.note[4], 0);
    assert_eq!(e.protected_at, 7);
    assert!(p.is_worm_active(SnapshotId(1), 16));
    assert!(!p.is_worm_active(SnapshotId(1), 17));
    let ids: Vec<u64> = p.all_protected().unwrap().iter().map(|s| s.0).collect();
    assert_eq!(ids, vec![1, 3]);
    assert!(matches!(p.set_note(SnapshotId(8), b"x"), Err(ExofsError::NotFound)));
    p.clear();
    assert_eq!(p.n_worm(), 0);
}

#[test]
fn worm_retention_cannot_be_shortened() {
    let mut list = SnapshotList::new_const();
    push_snap(&mut list, 9);
    let mut p = SnapshotProtect::new_const();
    p.protect_worm(&mut list, SnapshotId(9), 100, 10).unwrap();
    assert_eq!(p.protect(&mut list, SnapshotId(9), 20), Err(ExofsError::InvalidState));
    assert_eq!(p.protect_worm(&mut list, SnapshotId(9), 5, 20), Err(ExofsError::InvalidState));
    assert_eq!(p.unprotect(&mut list, SnapshotId(9), 50), Err(ExofsError::InvalidState));
    assert!(p.is_protected(SnapshotId(9)));
    p.protect_worm(&mut list, SnapshotId(9), 200, 20).unwrap();
    assert_eq!(p.unprotect(&mut list, SnapshotId(9), 150), Err(ExofsError::InvalidState));
    p.unprotect(&mut list, SnapshotId(9), 220).unwrap();
    assert!(!p.is_protected(SnapshotId(9)));
}

#[test]
fn protecting_twice_counts_once() {
    let mut list = SnapshotList::new_const();
    push_snap(&mut list, 1);
    push_snap(&mut list, 2);
    let mut p = SnapshotProtect::new_const();
    p.protect(&mut list, SnapshotId(1), 0).unwrap();
    p.protect(&mut list, SnapshotId(1), 5).unwrap();
    p.protect_worm(&mut list, SnapshotId(2), 100, 0).unwrap();
    p.protect_worm(&mut list, SnapshotId(2), 200, 10).unwrap();
    assert_eq!(p.n_protected(), 2);
    assert_eq!(p.n_protected(), p.all_protected().unwrap().len());
    assert_eq!(p.n_worm(), 1);
    // Replacing a plain protection by a WORM one counts it as WORM.
    p.protect_worm(&mut list, SnapshotId(1), 50, 20).unwrap();
    assert_eq!(p.n_worm(), 2);
    assert_eq!(p.stats().n_worm, 2);
}
