use exofs::snapshot::snapshot::{make_snapshot_name, Snapshot};
use exofs::snapshot::snapshot_list::SnapshotList;
use exofs::snapshot::snapshot_mount::{MountOptions, SnapshotMountRegistry};
use exofs::snapshot::snapshot_protect::SnapshotProtect;
use exofs::snapshot::snapshot_quota::SnapshotQuotaTable;
use exofs::snapshot::{init, shutdown, verify_health};
use exofs::types::{BlobId, DiskOffset, EpochId, SnapshotId};

#[test]
fn health_and_shutdown() {
    init();
    let mut list = SnapshotList::new_const();
    let mut protect = SnapshotProtect::new_const();
    let mut mount = SnapshotMountRegistry::new_const();
    let mut quota = SnapshotQuotaTable::new_const();
    list.register(Snapshot {
        id: SnapshotId(1),
        epoch_id: EpochId(1),
        parent_id: None,
        root_blob: BlobId([0u8; 32]),
        created_at: 0,
        n_blobs: 0,
        total_bytes: 5,
        flags: 0,
        blob_catalog_offset: DiskOffset(0),
        blob_catalog_size: 0,
        name: make_snapshot_name(b"h"),
    })
    .unwrap();
    protect.protect_worm(&mut list, SnapshotId(1), 10, 0).unwrap();
    mount.mount(&mut list, SnapshotId(1), b"/h", MountOptions::default(), 0).unwrap();
    let rep = verify_health(&list, &mount, &protect);
    assert!(rep.is_healthy());
    assert_eq!(rep.n_snaps, 1);
    assert_eq!(rep.n_mounts, 1);
    assert_eq!(rep.n_protected, 1);
    assert_eq!(rep.n_worm, 1);
    shutdown(&mut list, &mut protect, &mut mount, &mut quota);
    let rep = verify_health(&list, &mount, &protect);
    assert_eq!(rep.n_snaps, 0);
    assert_eq!(rep.n_mounts, 0);
    assert_eq!(rep.n_protected, 0);
    assert!(rep.is_healthy());
}
