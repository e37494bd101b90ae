use exofs::snapshot::snapshot::{make_snapshot_name, Snapshot};
use exofs::snapshot::snapshot_list::SnapshotList;
use exofs::snapshot::snapshot_mount::{MountId, MountOptions, SnapshotMountRegistry};
use exofs::types::{BlobId, DiskOffset, EpochId, ExofsError, SnapshotId};

fn push_snap(list: &mut SnapshotList, id: u64) {
    list.register(Snapshot {
        id: SnapshotId(id),
        epoch_id: EpochId(1),
        parent_id: None,
        root_blob: BlobId([0u8; 32]),
        created_at: 0,
        n_blobs: 0,
        total_bytes: 0,
        flags: 0,
        blob_catalog_offset: DiskOffset(0),
        blob_catalog_size: 0,
        name: make_snapshot_name(b"m-test"),
    })
    .unwrap();
}

#[test]
fn mount_and_umount() {
    let mut list = SnapshotList::new_const();
    push_snap(&mut list, 1);
    let mut reg = SnapshotMountRegistry::new_const();
    let mid = reg.mount(&mut list, SnapshotId(1), b"/snap/1", MountOptions::default(), 0).unwrap();
    assert!(reg.is_snap_mounted(SnapshotId(1)));
    assert!(list.get(SnapshotId(1)).unwrap().is_mounted());
    reg.umount(&mut list, mid).unwrap();
    assert!(!reg.is_snap_mounted(SnapshotId(1)));
    assert!(!list.get(SnapshotId(1)).unwrap().is_mounted());
}

#[test]
fn busy_mount_blocks_umount() {
    let mut list = SnapshotList::new_const();
    push_snap(&mut list, 2);
    let mut reg = SnapshotMountRegistry::new_const();
    let mid = reg.mount(&mut list, SnapshotId(2), b"/snap/2", MountOptions::default(), 0).unwrap();
    reg.open(mid).unwrap();
    let err = reg.umount(&mut list, mid);
    assert!(matches!(err, Err(ExofsError::InvalidState)));
    reg.close(mid).unwrap();
    reg.umount(&mut list, mid).unwrap();
}

#[test]
fn force_umount_ignores_busy() {
    let mut list = SnapshotList::new_const();
    push_snap(&mut list, 3);
    let mut reg = SnapshotMountRegistry::new_const();
    let mid = reg.mount(&mut list, SnapshotId(3), b"/snap/3", MountOptions::default(), 0).unwrap();
    reg.open(mid).unwrap();
    reg.force_umount(&mut list, mid).unwrap();
    assert!(!reg.is_snap_mounted(SnapshotId(3)));
}

#[test]
fn find_by_path() {
    let mut list = SnapshotList::new_const();
    push_snap(&mut list, 4);
    let mut reg = SnapshotMountRegistry::new_const();
    reg.mount(&mut list, SnapshotId(4), b"/mnt/snap4", MountOptions::default(), 0).unwrap();
    let mp = reg.find_by_path(b"/mnt/snap4");
    assert!(mp.is_some());
    let mp = mp.unwrap();
    assert_eq!(mp.snap_id, SnapshotId(4));
    assert_eq!(mp.path_str(), "/mnt/snap4");
    assert!(reg.find_by_path(b"/mnt/other").is_none());
}

#[test]
fn mount_missing_snapshot_not_found() {
    let mut list = SnapshotList::new_const();
    let mut reg = SnapshotMountRegistry::new_const();
    let r = reg.mount(&mut list, SnapshotId(7), b"/x", MountOptions::default(), 0);
    assert!(matches!(r, Err(ExofsError::NotFound)));
    assert_eq!(reg.n_mounts(), 0);
}

#[test]
fn mount_is_always_readonly() {
    let mut list = SnapshotList::new_const();
    push_snap(&mut list, 1);
    let mut reg = SnapshotMountRegistry::new_const();
    let opts = MountOptions { readonly: false, nonblock: true, strict: false };
    let mid = reg.mount(&mut list, SnapshotId(1), b"/rw", opts, 5).unwrap();
    let mp = reg.get(mid).unwrap();
    assert!(mp.opts.readonly);
    assert!(mp.opts.nonblock);
    assert_eq!(mp.mounted_at, 5);
    assert_eq!(mp.open_count, 0);
}

#[test]
fn close_without_open_and_unknown_mount() {
    let mut list = SnapshotList::new_const();
    push_snap(&mut list, 1);
    let mut reg = SnapshotMountRegistry::new_const();
    let mid = reg.mount(&mut list, SnapshotId(1), b"/a", MountOptions::default(), 0).unwrap();
    assert!(reg.close(mid).is_ok());
    assert_eq!(reg.get(mid).unwrap().open_count, 0);
    assert!(matches!(reg.open(MountId(999)), Err(ExofsError::NotFound)));
    assert!(matches!(reg.umount(&mut list, MountId(999)), Err(ExofsError::NotFound)));
}

#[test]
fn mounts_for_snap_and_stats() {
    let mut list = SnapshotList::new_const();
    push_snap(&mut list, 1);
    push_snap(&mut list, 2);
    let mut reg = SnapshotMountRegistry::new_const();
    let a = reg.mount(&mut list, SnapshotId(1), b"/a", MountOptions::default(), 0).unwrap();
    let b = reg.mount(&mut list, SnapshotId(2), b"/b", MountOptions::default(), 0).unwrap();
    let c = reg.mount(&mut list, SnapshotId(1), b"/c", MountOptions::default(), 0).unwrap();
    assert_eq!(reg.mounts_for_snap(SnapshotId(1)).unwrap(), vec![a, c]);
    assert_eq!(reg.all_mount_ids().unwrap(), vec![a, b, c]);
    reg.open(b).unwrap();
    reg.open(b).unwrap();
    let st = reg.stats();
    assert_eq!(st.n_mounts, 3);
    assert_eq!(st.n_busy, 1);
    assert_eq!(st.total_opens, 2);
    reg.clear();
    assert_eq!(reg.n_mounts(), 0);
}
