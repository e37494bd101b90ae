use exofs::snapshot::snapshot::{flags, make_snapshot_name, Snapshot, SnapshotHeaderDisk, SNAPSHOT_IMAGE_SIZE, SNAPSHOT_NAME_LEN};
use exofs::snapshot::snapshot::verify_snapshot_header;
use exofs::types::{BlobId, DiskOffset, EpochId, ExofsError, SnapshotId};

fn plain(id: u64) -> Snapshot {
    Snapshot {
        id: SnapshotId(id),
        epoch_id: EpochId(1),
        parent_id: None,
        root_blob: BlobId([0u8; 32]),
        created_at: 0,
        n_blobs: 0,
        total_bytes: 0,
        flags: 0,
        blob_catalog_offset: DiskOffset(0),
        blob_catalog_size: 0,
        name: [0u8; SNAPSHOT_NAME_LEN],
    }
}

#[test]
fn roundtrip_header_checksum() {
    let snap = Snapshot {
        id: SnapshotId(42),
        epoch_id: EpochId(7),
        parent_id: None,
        root_blob: BlobId([0xAB; 32]),
        created_at: 1234567,
        n_blobs: 10,
        total_bytes: 4096 * 10,
        flags: flags::READONLY,
        blob_catalog_offset: DiskOffset(0),
        blob_catalog_size: 0,
        name: make_snapshot_name(b"test-snap"),
    };
    let hdr = snap.to_header_disk();
    assert!(hdr.verify().is_ok());
}

#[test]
fn snapshot_bad_magic_detected() {
    let snap = plain(1);
    let mut hdr = snap.to_header_disk();
    hdr.magic = 0xDEAD_BEEF;
    assert!(matches!(hdr.verify(), Err(ExofsError::BadMagic)));
}

#[test]
fn checksum_mismatch_detected() {
    let snap = plain(1);
    let mut hdr = snap.to_header_disk();
    hdr.n_blobs = 999;
    assert!(matches!(hdr.verify(), Err(ExofsError::ChecksumMismatch)));
}

#[test]
fn from_header_disk_roundtrip() {
    let snap = Snapshot {
        id: SnapshotId(99),
        epoch_id: EpochId(5),
        parent_id: Some(SnapshotId(1)),
        root_blob: BlobId([0xCC; 32]),
        created_at: 88888,
        n_blobs: 5,
        total_bytes: 20480,
        flags: flags::PROTECTED | flags::READONLY,
        blob_catalog_offset: DiskOffset(4096),
        blob_catalog_size: 256,
        name: make_snapshot_name(b"prod-snapshot"),
    };
    let hdr = snap.to_header_disk();
    let snap2 = Snapshot::from_header_disk(&hdr).unwrap();
    assert_eq!(snap2.id.0, snap.id.0);
    assert_eq!(snap2.n_blobs, snap.n_blobs);
    assert_eq!(snap2.parent_id, snap.parent_id);
    assert!(snap2.is_protected());
}

#[test]
fn name_str_valid() {
    let mut snap = plain(1);
    snap.name = make_snapshot_name(b"hello");
    assert_eq!(snap.name_str(), "hello");
}

#[test]
fn header_bytes_roundtrip() {
    let mut snap = plain(7);
    snap.parent_id = Some(SnapshotId(3));
    snap.total_bytes = 12345;
    snap.name = make_snapshot_name(b"bytes");
    let hdr = snap.to_header_disk();
    let raw = hdr.as_bytes();
    assert_eq!(raw.len(), SNAPSHOT_IMAGE_SIZE);
    let back = verify_snapshot_header(&raw).unwrap();
    let snap2 = Snapshot::from_header_disk(&back).unwrap();
    assert_eq!(snap2.id, SnapshotId(7));
    assert_eq!(snap2.parent_id, Some(SnapshotId(3)));
    assert_eq!(snap2.total_bytes, 12345);
    assert_eq!(snap2.name_str(), "bytes");
}

#[test]
fn header_bytes_too_short_refused() {
    let raw = vec![0u8; SNAPSHOT_IMAGE_SIZE - 1];
    assert!(verify_snapshot_header(&raw).is_err());
}

#[test]
fn header_version_checked_after_magic() {
    let mut hdr: SnapshotHeaderDisk = plain(2).to_header_disk();
    hdr.version = 9;
    assert!(matches!(hdr.verify(), Err(ExofsError::InvalidArgument)));
    hdr.magic = 0;
    assert!(matches!(hdr.verify(), Err(ExofsError::BadMagic)));
}

#[test]
fn root_parent_zero_reads_as_none() {
    let snap = plain(5);
    let hdr = snap.to_header_disk();
    assert_eq!(hdr.parent_id, 0);
    let back = Snapshot::from_header_disk(&hdr).unwrap();
    assert_eq!(back.parent_id, None);
}

#[test]
fn flags_and_age() {
    let mut snap = plain(1);
    snap.created_at = 100;
    snap.set_flag(flags::MOUNTED);
    assert!(snap.is_mounted());
    snap.toggle_flag(flags::MOUNTED);
    assert!(!snap.is_mounted());
    assert_eq!(snap.age_ticks(150), 50);
    assert_eq!(snap.age_ticks(50), 0);
}
