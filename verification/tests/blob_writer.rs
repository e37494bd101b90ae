use std::cell::{Cell, RefCell};

use exofs::hash::compute_blob_id;
use exofs::storage::blob_writer::{
    blob_total_disk_size, verify_blob_header, write_padded, BatchBlobWriter, BlobHeaderDisk, BlobWriter, BlobWriterConfig,
    BLOB_HEADER_MAGIC, BLOB_HEADER_SIZE,
};
use exofs::storage::compression_choice::CompressionType;
use exofs::types::{BlobId, DiskOffset, EpochId, ExofsError, ExofsResult};

const BLOCK_SIZE: u64 = 4096;

fn make_data(n: usize, fill: u8) -> Vec<u8> {
    vec![fill; n]
}

#[test]
fn header_size_constant() {
    assert_eq!(core::mem::size_of::<BlobHeaderDisk>(), BLOB_HEADER_SIZE);
}

#[test]
fn compute_blob_id_is_raw() {
    let data = make_data(1024, 0xAB);
    let id1 = compute_blob_id(&data);
    let id2 = compute_blob_id(&data);
    assert_eq!(id1.0, id2.0);
}

#[test]
fn write_blob_basic() {
    let data = make_data(512, 0x42);
    let config = BlobWriterConfig::new(EpochId(1)).no_dedup();
    let disk = RefCell::new(vec![0u8; 65536]);
    let alloc_fn = |_n: u64| Ok(DiskOffset(0));
    let write_fn = |off: DiskOffset, buf: &[u8]| -> ExofsResult<usize> {
        let start = off.0 as usize;
        let end = start + buf.len();
        let mut d = disk.borrow_mut();
        if end <= d.len() {
            d[start..end].copy_from_slice(buf);
        }
        Ok(buf.len())
    };
    let dedup_fn = |_id: &BlobId| -> Option<DiskOffset> { None };
    let result = BlobWriter::write_blob(&data, &config, alloc_fn, write_fn, dedup_fn);
    assert!(result.is_ok());
    let r = result.unwrap();
    assert_eq!(r.original_size, 512);
    assert!(!r.dedup_hit);
}

#[test]
fn verify_header_after_write() {
    let data = make_data(256, 0x77);
    let config = BlobWriterConfig::new(EpochId(5)).no_dedup().with_algo(CompressionType::Uncompressed);
    let disk = RefCell::new(vec![0u8; 16384]);
    let alloc_fn = |_n: u64| Ok(DiskOffset(0));
    let write_fn = |off: DiskOffset, buf: &[u8]| -> ExofsResult<usize> {
        let s = off.0 as usize;
        let mut d = disk.borrow_mut();
        if s + buf.len() <= d.len() {
            d[s..s + buf.len()].copy_from_slice(buf);
        }
        Ok(buf.len())
    };
    let _ = BlobWriter::write_blob(&data, &config, alloc_fn, write_fn, |_: &BlobId| None);
    let d = disk.borrow();
    let hdr = verify_blob_header(&d[..BLOB_HEADER_SIZE]);
    assert!(hdr.is_ok());
    let h = hdr.unwrap();
    assert_eq!(h.magic, BLOB_HEADER_MAGIC);
    assert_eq!(h.original_size, 256);
}

#[test]
fn dedup_hit_returns_existing_offset() {
    let data = make_data(128, 0x11);
    let _id = compute_blob_id(&data);
    let config = BlobWriterConfig::new(EpochId(1));
    let existing = DiskOffset(4096);
    let alloc_fn = |_: u64| -> ExofsResult<DiskOffset> { panic!("no allocation on a deduplicated write") };
    let write_fn = |_: DiskOffset, _: &[u8]| -> ExofsResult<usize> { panic!("no write on a deduplicated write") };
    let r = BlobWriter::write_blob(&data, &config, alloc_fn, write_fn, |_bid: &BlobId| Some(existing)).unwrap();
    assert!(r.dedup_hit);
    assert_eq!(r.offset.0, existing.0);
}

#[test]
fn short_write_detected() {
    let data = make_data(512, 0x55);
    let config = BlobWriterConfig::new(EpochId(1)).no_dedup();
    let write_fn = |_: DiskOffset, _: &[u8]| -> ExofsResult<usize> { Ok(0) };
    let r = BlobWriter::write_blob(&data, &config, |_| Ok(DiskOffset(0)), write_fn, |_: &BlobId| None);
    assert!(matches!(r, Err(ExofsError::ShortWrite)));
}

#[test]
fn batch_writer_multiple_blobs() {
    let config = BlobWriterConfig::new(EpochId(2)).no_dedup();
    let mut bw = BatchBlobWriter::new(config);
    for i in 0..4u8 {
        bw.add(i as usize, &make_data(64, i)).unwrap();
    }
    assert_eq!(bw.pending_count(), 4);
    let off = Cell::new(0u64);
    let disk = RefCell::new(vec![0u8; 65536]);
    let results = bw
        .flush(
            |n| {
                let o = DiskOffset(off.get());
                off.set(off.get() + n * BLOCK_SIZE);
                Ok(o)
            },
            |o, buf: &[u8]| {
                let s = o.0 as usize;
                let mut d = disk.borrow_mut();
                if s + buf.len() <= d.len() {
                    d[s..s + buf.len()].copy_from_slice(buf);
                }
                Ok(buf.len())
            },
            |_: &BlobId| None,
        )
        .unwrap();
    assert_eq!(results.len(), 4);
    for r in results {
        assert!(r.result.is_ok());
    }
}

#[test]
fn disk_size_aligned_to_block() {
    let sz = BlobWriter::disk_size_for(100);
    assert_eq!(sz % BLOCK_SIZE, 0);
}

#[test]
fn size_to_blocks_rounds_up() {
    assert_eq!(BlobWriter::size_to_blocks(1), 1);
    assert_eq!(BlobWriter::size_to_blocks(4096), 1);
    assert_eq!(BlobWriter::size_to_blocks(4097), 2);
}

#[test]
fn written_blob_layout() {
    let data = b"layout check".to_vec();
    let config = BlobWriterConfig::new(EpochId(9)).no_dedup();
    let disk = RefCell::new(vec![0u8; 8192]);
    let r = BlobWriter::write_blob(
        &data,
        &config,
        |n| {
            assert_eq!(n, 1);
            Ok(DiskOffset(4096))
        },
        |o: DiskOffset, buf: &[u8]| {
            let s = o.0 as usize;
            disk.borrow_mut()[s..s + buf.len()].copy_from_slice(buf);
            Ok(buf.len())
        },
        |_: &BlobId| None,
    )
    .unwrap();
    assert_eq!(r.offset, DiskOffset(4096));
    assert_eq!(r.stored_size, data.len() as u64);
    assert_eq!(r.algo, CompressionType::Uncompressed);
    assert_eq!(r.disk_size, 4096);
    assert_eq!(r.blocks_used, 1);
    assert!(r.blob_id.ct_eq(&compute_blob_id(&data)));
    let d = disk.borrow();
    let h = verify_blob_header(&d[4096..4096 + BLOB_HEADER_SIZE]).unwrap();
    assert_eq!(h.epoch, 9);
    assert_eq!(h.blob_id, compute_blob_id(&data).0);
    assert_eq!(&d[4096 + BLOB_HEADER_SIZE..4096 + BLOB_HEADER_SIZE + data.len()], &data[..]);
    let mut bad = d[4096..4096 + BLOB_HEADER_SIZE].to_vec();
    bad[8] ^= 1;
    assert!(matches!(verify_blob_header(&bad), Err(ExofsError::ChecksumMismatch)));
    bad[0] = 0;
    assert!(matches!(verify_blob_header(&bad), Err(ExofsError::BadMagic)));
}

#[test]
fn empty_blob_refused_and_sizes() {
    let config = BlobWriterConfig::new(EpochId(1));
    let r = BlobWriter::write_blob(&[], &config, |_| Ok(DiskOffset(0)), |_: DiskOffset, b: &[u8]| Ok(b.len()), |_: &BlobId| None);
    assert!(matches!(r, Err(ExofsError::InvalidArgument)));
    assert_eq!(blob_total_disk_size(4032), 4096);
    assert_eq!(blob_total_disk_size(4033), 8192);
    let seen = Cell::new(0usize);
    let n = write_padded(|_: DiskOffset, b: &[u8]| { seen.set(b.len()); Ok(b.len()) }, DiskOffset(0), &[1, 2, 3]).unwrap();
    assert_eq!(n, 3);
    assert_eq!(seen.get(), 4096);
}
