use exofs::hash::{compute_blob_id, digest_eq, verify_blob_id};
use exofs::snapshot::snapshot::{Snapshot, SNAPSHOT_NAME_LEN};
use exofs::types::{BlobId, DiskOffset, EpochId, SnapshotId};

fn hex(b: &[u8]) -> String {
    b.iter().map(|x| format!("{:02x}", x)).collect()
}

#[test]
fn blob_id_of_empty_input_is_the_blake3_digest() {
    let id = compute_blob_id(b"");
    assert_eq!(hex(&id.0), "af1349b9f5f9a1a6a0404dea36dcc9499bcb25c9adc112b7cc9a93cae41f3262");
}

#[test]
fn blob_ids_differ_and_verify() {
    let a = compute_blob_id(b"abc");
    let b = compute_blob_id(b"abd");
    assert!(!digest_eq(&a.0, &b.0));
    assert!(verify_blob_id(&a, b"abc"));
    assert!(!verify_blob_id(&a, b"abd"));
    assert!(!verify_blob_id(&BlobId([0u8; 32]), b""));
}

#[test]
fn invalid_utf8_name_reads_as_marker() {
    let mut name = [0u8; SNAPSHOT_NAME_LEN];
    name[0] = 0xFF;
    name[1] = 0xFE;
    let s = Snapshot {
        id: SnapshotId(1),
        epoch_id: EpochId(1),
        parent_id: None,
        root_blob: BlobId([0u8; 32]),
        created_at: 0,
        n_blobs: 0,
        total_bytes: 0,
        flags: 0,
        blob_catalog_offset: DiskOffset(0),
        blob_catalog_size: 0,
        name,
    };
    assert_eq!(s.name_str(), "<invalid>");
    assert_eq!(s.name_len(), 2);
}
