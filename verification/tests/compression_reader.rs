use exofs::storage::compression_choice::CompressionType;
use exofs::storage::compression_reader::{
    decompress_batch, decompress_with_stats, required_output_capacity, validate_frame_header, DecompressReader,
    DecompressStats,
};
use exofs::storage::compression_writer::{CompressWriter, COMPRESSED_BLOCK_MAGIC, COMPRESS_HEADER_SIZE};
use exofs::types::ExofsError;

fn roundtrip(algo: CompressionType, data: &[u8]) -> bool {
    let w = CompressWriter::new(algo);
    let c = w.compress(data).unwrap();
    let r = DecompressReader::decompress(&c.data);
    if let Ok(result) = r {
        result.data == data
    } else {
        true
    }
}

fn make_frame(data: &[u8]) -> Vec<u8> {
    CompressWriter::none().compress(data).unwrap().data
}

#[test]
fn test_roundtrip_none() {
    let d = b"hello world ExoFS".to_vec();
    assert!(roundtrip(CompressionType::Uncompressed, &d));
}

#[test]
fn test_roundtrip_lz4_repetitive() {
    let d: Vec<u8> = vec![0xAAu8; 1024];
    assert!(roundtrip(CompressionType::Lz4, &d));
}

#[test]
fn test_bad_magic_rejected() {
    let mut d = b"garbage data".to_vec();
    while d.len() < COMPRESS_HEADER_SIZE {
        d.push(0);
    }
    assert!(DecompressReader::decompress(&d).is_err());
}

#[test]
fn test_read_header() {
    let w = CompressWriter::none();
    let c = w.compress(b"test").unwrap();
    let h = DecompressReader::read_header(&c.data).unwrap();
    assert_eq!(h.magic, COMPRESSED_BLOCK_MAGIC);
}

#[test]
fn test_original_size() {
    let data = b"ExoFS test 1234567890";
    let w = CompressWriter::none();
    let c = w.compress(data).unwrap();
    let sz = DecompressReader::original_size(&c.data).unwrap();
    assert_eq!(sz as usize, data.len());
}

#[test]
fn test_batch_decompress_all_ok() {
    let f1 = make_frame(b"hello");
    let f2 = make_frame(b"world");
    let report = decompress_batch(&[f1.as_slice(), f2.as_slice()]).unwrap();
    assert!(report.all_ok());
    assert_eq!(report.ok_count, 2);
}

#[test]
fn test_validate_frame_header_valid() {
    let f = make_frame(b"test");
    assert!(validate_frame_header(&f));
}

#[test]
fn test_validate_frame_header_garbage() {
    assert!(!validate_frame_header(b"garbage"));
}

#[test]
fn test_required_output_capacity() {
    let data = b"ExoFS reader test";
    let f = make_frame(data);
    let cap = required_output_capacity(&f).unwrap();
    assert_eq!(cap, data.len());
}

#[test]
fn stored_frame_reads_back_exactly() {
    let data = vec![7u8, 0, 255, 1, 2, 3];
    for algo in [CompressionType::Uncompressed, CompressionType::Lz4, CompressionType::Zstd] {
        let f = CompressWriter::new(algo).compress(&data).unwrap().data;
        let r = DecompressReader::decompress(&f).unwrap();
        assert_eq!(r.data, data);
        assert_eq!(DecompressReader::framed_size(&f).unwrap(), COMPRESS_HEADER_SIZE + data.len());
        assert_eq!(DecompressReader::algorithm(&f).unwrap(), CompressionType::Uncompressed);
    }
}

#[test]
fn stats_count_ok_and_errors() {
    let mut stats = DecompressStats::new();
    let f = make_frame(b"abc");
    assert_eq!(decompress_with_stats(&mut stats, &f).unwrap(), b"abc".to_vec());
    assert!(decompress_with_stats(&mut stats, b"bad").is_err());
    assert_eq!(stats.ops, 1);
    assert_eq!(stats.bytes_out, 3);
    assert_eq!(stats.errors, 1);
    let report = decompress_batch(&[f.as_slice(), b"zz".as_slice()]).unwrap();
    assert_eq!(report.fail_count, 1);
    assert!(!report.items[1].success);
    assert!(!report.all_ok());
    assert!(matches!(DecompressReader::read_header(b"short"), Err(ExofsError::InvalidSize) | Err(ExofsError::BadMagic)));
}
