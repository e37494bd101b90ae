use std::cell::RefCell;

use exofs::storage::blob_reader::{
    verify_blob_range, BatchBlobReader, BlobReadRequest, BlobReader, BlobScanner, BlobVerifyMode,
};
use exofs::storage::blob_writer::{BlobWriter, BlobWriterConfig};
use exofs::storage::compression_choice::CompressionType;
use exofs::types::{BlobId, DiskOffset, EpochId, ExofsError, ExofsResult};

fn make_disk(size: usize) -> Vec<u8> {
    vec![0u8; size]
}

fn write_blob_to_disk(disk: &mut Vec<u8>, data: &[u8], offset: usize) {
    let config = BlobWriterConfig::new(EpochId(1)).no_dedup().with_algo(CompressionType::Uncompressed);
    let cell = RefCell::new(std::mem::take(disk));
    let _ = BlobWriter::write_blob(
        data,
        &config,
        |_| Ok(DiskOffset(offset as u64)),
        |off: DiskOffset, buf: &[u8]| {
            let s = off.0 as usize;
            let mut d = cell.borrow_mut();
            if s + buf.len() <= d.len() {
                d[s..s + buf.len()].copy_from_slice(buf);
            }
            Ok(buf.len())
        },
        |_: &BlobId| None,
    );
    *disk = cell.into_inner();
}

#[test]
fn read_roundtrip_no_compression() {
    let data = b"Hello ExoFS blob reader!";
    let mut disk = make_disk(8192);
    write_blob_to_disk(&mut disk, data, 0);
    let read_fn = |off: DiskOffset, sz: usize| -> ExofsResult<Vec<u8>> {
        let s = off.0 as usize;
        let e = s + sz;
        if e > disk.len() {
            return Err(ExofsError::InvalidSize);
        }
        let mut v = Vec::new();
        v.try_reserve(sz).map_err(|_| ExofsError::NoMemory)?;
        v.extend_from_slice(&disk[s..e]);
        Ok(v)
    };
    let r = BlobReader::read_blob(DiskOffset(0), read_fn, BlobVerifyMode::Full).unwrap();
    assert_eq!(&r.data[..data.len()], data);
    assert!(r.id_verified);
    assert_eq!(r.original_size as usize, data.len());
}

#[test]
fn blob_reader_bad_magic_detected() {
    let mut disk = make_disk(8192);
    disk[0] = 0xFF;
    disk[1] = 0xFF;
    disk[2] = 0xFF;
    disk[3] = 0xFF;
    let read_fn = |off: DiskOffset, sz: usize| -> ExofsResult<Vec<u8>> {
        let s = off.0 as usize;
        Ok(disk[s..s + sz].to_vec())
    };
    let r = BlobReader::read_blob(DiskOffset(0), read_fn, BlobVerifyMode::Full);
    assert!(matches!(r, Err(ExofsError::BadMagic)));
}

#[test]
fn read_header_only() {
    let data = b"test header only";
    let mut disk = make_disk(8192);
    write_blob_to_disk(&mut disk, data, 0);
    let read_fn = |off: DiskOffset, sz: usize| -> ExofsResult<Vec<u8>> {
        let s = off.0 as usize;
        Ok(disk[s..s + sz].to_vec())
    };
    let info = BlobReader::read_header(DiskOffset(0), read_fn).unwrap();
    assert_eq!(info.original_size as usize, data.len());
    assert_eq!(info.algo, CompressionType::Uncompressed);
}

#[test]
fn scanner_traverses_blobs() {
    let blobs: &[&[u8]] = &[b"blob_one", b"blob_two", b"blob_three"];
    let mut disk = make_disk(65536);
    let mut off = 0usize;
    for b in blobs {
        write_blob_to_disk(&mut disk, b, off);
        off += BlobWriter::disk_size_for(b.len()) as usize;
    }
    let end = DiskOffset(off as u64);
    let mut scanner = BlobScanner::new(DiskOffset(0), end);
    let read_fn = |o: DiskOffset, sz: usize| -> ExofsResult<Vec<u8>> {
        let s = o.0 as usize;
        Ok(disk[s..s + sz].to_vec())
    };
    let mut count = 0;
    while let Some(r) = scanner.next_header(&read_fn) {
        assert!(r.is_ok());
        count += 1;
    }
    assert_eq!(count, blobs.len());
}

#[test]
fn batch_reader_all() {
    let blobs: &[&[u8]] = &[b"alpha", b"beta", b"gamma"];
    let mut disk = make_disk(65536);
    let mut offsets = Vec::new();
    let mut off = 0usize;
    for b in blobs {
        offsets.push(DiskOffset(off as u64));
        write_blob_to_disk(&mut disk, b, off);
        off += BlobWriter::disk_size_for(b.len()) as usize;
    }
    let requests: Vec<_> = offsets
        .iter()
        .enumerate()
        .map(|(i, &o)| BlobReadRequest { index: i, offset: o, mode: BlobVerifyMode::Full })
        .collect();
    let read_fn = |o: DiskOffset, sz: usize| -> ExofsResult<Vec<u8>> {
        let s = o.0 as usize;
        Ok(disk[s..s + sz].to_vec())
    };
    let results = BatchBlobReader::read_all(&requests, &read_fn).unwrap();
    assert_eq!(results.len(), 3);
    for r in &results {
        assert!(r.result.is_ok());
    }
}

#[test]
fn integrity_report_all_ok() {
    let data = b"integrity check test data";
    let mut disk = make_disk(8192);
    write_blob_to_disk(&mut disk, data, 0);
    let end = DiskOffset(BlobWriter::disk_size_for(data.len()));
    let read_fn = |o: DiskOffset, sz: usize| -> ExofsResult<Vec<u8>> {
        let s = o.0 as usize;
        Ok(disk[s..s + sz].to_vec())
    };
    let report = verify_blob_range(DiskOffset(0), end, &read_fn);
    assert_eq!(report.ok, 1);
    assert_eq!(report.total_errors(), 0);
}

#[test]
fn corrupted_payload_found_in_full_mode_only() {
    let data = b"payload to corrupt";
    let mut disk = make_disk(8192);
    write_blob_to_disk(&mut disk, data, 0);
    disk[64] ^= 0xFF;
    let read_fn = |o: DiskOffset, sz: usize| -> ExofsResult<Vec<u8>> {
        let s = o.0 as usize;
        Ok(disk[s..s + sz].to_vec())
    };
    let full = BlobReader::read_blob(DiskOffset(0), &read_fn, BlobVerifyMode::Full);
    assert!(matches!(full, Err(ExofsError::ChecksumMismatch)));
    let loose = BlobReader::read_blob(DiskOffset(0), &read_fn, BlobVerifyMode::HeaderOnly).unwrap();
    assert!(!loose.id_verified);
    assert_eq!(loose.data[0], data[0] ^ 0xFF);
    let report = verify_blob_range(DiskOffset(0), DiskOffset(4096), &read_fn);
    assert_eq!(report.bad_blob_id, 1);
    assert_eq!(report.checked, 1);
}

#[test]
fn scanner_reads_blobs_and_counts_progress() {
    let blobs: &[&[u8]] = &[b"one", b"two"];
    let mut disk = make_disk(16384);
    let mut off = 0usize;
    for b in blobs {
        write_blob_to_disk(&mut disk, b, off);
        off += BlobWriter::disk_size_for(b.len()) as usize;
    }
    let read_fn = |o: DiskOffset, sz: usize| -> ExofsResult<Vec<u8>> {
        let s = o.0 as usize;
        Ok(disk[s..s + sz].to_vec())
    };
    let mut scanner = BlobScanner::new(DiskOffset(0), DiskOffset(off as u64));
    assert_eq!(scanner.progress_pct(), 0);
    let (o1, r1) = scanner.next_blob(&read_fn, BlobVerifyMode::Full).unwrap().unwrap();
    assert_eq!(o1, DiskOffset(0));
    assert_eq!(r1.data, b"one".to_vec());
    assert_eq!(scanner.progress_pct(), 50);
    let (o2, r2) = scanner.next_blob(&read_fn, BlobVerifyMode::Full).unwrap().unwrap();
    assert_eq!(o2, DiskOffset(4096));
    assert_eq!(r2.data, b"two".to_vec());
    assert!(scanner.next_blob(&read_fn, BlobVerifyMode::Full).is_none());
    assert_eq!(scanner.scanned_count(), 2);
    assert_eq!(scanner.error_count(), 0);
    assert_eq!(scanner.current_offset(), DiskOffset(8192));
    let headers = BatchBlobReader::scan_headers(&[DiskOffset(0), DiskOffset(8192)], &read_fn).unwrap();
    assert!(headers[0].1.is_ok());
    assert!(headers[1].1.is_err());
}

#[test]
fn scanner_progress_starts_at_its_start() {
    let scanner = BlobScanner::new(DiskOffset(4096), DiskOffset(8192));
    assert_eq!(scanner.progress_pct(), 0);
    let done = BlobScanner::new(DiskOffset(8192), DiskOffset(4096));
    assert_eq!(done.progress_pct(), 100);
}
