use std::cell::RefCell;

use exofs::storage::blob_reader::{verify_blob_range, BlobReader, BlobVerifyMode};
use exofs::storage::blob_writer::{BlobWriter, BlobWriterConfig};
use exofs::storage::compression_choice::CompressionType;
use exofs::storage::{storage_is_ready, storage_shutdown, StorageInitError, StorageState};
use exofs::storage::blob_writer::BLOB_HEADER_MAGIC;
use exofs::storage::layout::{BLOCK_SIZE, EXOFS_MAGIC, HEAP_START_OFFSET};
use exofs::types::{BlobId, DiskOffset, EpochId, ExofsResult};

#[test]
fn all_modules_declared() {
    let _ = BLOCK_SIZE;
    let _ = HEAP_START_OFFSET;
    let _ = EXOFS_MAGIC;
    let _ = BLOB_HEADER_MAGIC;
}

#[test]
fn storage_is_ready_false_before_init() {
    let state = StorageState::new();
    assert!(!storage_is_ready(&state));
}

#[test]
fn ready_until_shutdown() {
    let mut state = StorageState { initialized: true, shutting_down: false };
    assert!(storage_is_ready(&state));
    storage_shutdown(&mut state);
    assert!(!storage_is_ready(&state));
    assert!(state.shutting_down);
    assert_ne!(StorageInitError::DiskTooSmall, StorageInitError::AlreadyInitialized);
}

#[test]
fn blob_write_read_roundtrip() {
    let data = b"Module-level blob write/read test";
    let config = BlobWriterConfig::new(EpochId(1)).no_dedup().with_algo(CompressionType::Uncompressed);
    let disk = RefCell::new(vec![0u8; 65536usize]);
    let result = BlobWriter::write_blob(
        data,
        &config,
        |_| Ok(DiskOffset(0)),
        |off: DiskOffset, buf: &[u8]| {
            let s = off.0 as usize;
            let mut d = disk.borrow_mut();
            if s + buf.len() <= d.len() {
                d[s..s + buf.len()].copy_from_slice(buf);
            }
            Ok(buf.len())
        },
        |_: &BlobId| None,
    )
    .unwrap();
    assert_eq!(result.original_size, data.len() as u64);
    assert!(!result.dedup_hit);
    let disk = disk.into_inner();
    let read_result = BlobReader::read_blob(
        DiskOffset(0),
        |off: DiskOffset, sz: usize| -> ExofsResult<Vec<u8>> {
            let s = off.0 as usize;
            Ok(disk[s..s + sz].to_vec())
        },
        BlobVerifyMode::Full,
    )
    .unwrap();
    assert_eq!(&read_result.data[..data.len()], data);
    assert!(read_result.id_verified);
}

#[test]
fn compression_type_reexport() {
    let ct = CompressionType::Lz4;
    assert_ne!(ct, CompressionType::Uncompressed);
}

#[test]
fn verify_blob_range_empty() {
    let disk = vec![0u8; 4096usize];
    let report = verify_blob_range(DiskOffset(0), DiskOffset(0), &|off: DiskOffset, sz: usize| -> ExofsResult<Vec<u8>> {
        let s = off.0 as usize;
        Ok(disk[s..s + sz].to_vec())
    });
    assert_eq!(report.checked, 0);
}

#[test]
fn health_report_collects() {
    let state = exofs::storage::StorageState::new();
    let stats = exofs::storage::StorageCounters {
        blobs_created: 0,
        blobs_deleted: 0,
        dedup_hits: 0,
        compress_bytes_in: 0,
        compress_bytes_out: 0,
        io_errors: 0,
        checksum_errors: 0,
    };
    let report = exofs::storage::StorageHealthReport::collect(&state, stats);
    let _ = report.is_healthy();
    let _ = report.dedup_hit_rate_pct;
}

#[test]
fn health_report_ratios_and_verdict() {
    let mut state = exofs::storage::StorageState::new();
    state.initialized = true;
    let stats = exofs::storage::StorageCounters {
        blobs_created: 3,
        blobs_deleted: 1,
        dedup_hits: 2,
        compress_bytes_in: 1000,
        compress_bytes_out: 250,
        io_errors: 5,
        checksum_errors: 0,
    };
    let report = exofs::storage::StorageHealthReport::collect(&state, stats);
    assert_eq!(report.dedup_hit_rate_pct, 50);
    assert_eq!(report.compress_ratio_pct, 75);
    assert_eq!(report.write_errors, 5);
    assert_eq!(report.read_errors, 5);
    assert!(report.is_healthy());
    let bad = exofs::storage::StorageHealthReport::collect(&state, exofs::storage::StorageCounters { checksum_errors: 1, ..stats });
    assert!(!bad.is_healthy());
    let stopped = exofs::storage::StorageHealthReport::collect(&exofs::storage::StorageState::new(), stats);
    assert!(!stopped.is_healthy());
}
