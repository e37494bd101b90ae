use exofs::storage::compression_choice::CompressionType;
use exofs::storage::compression_writer::{CompressWriter, CompressedBlockHeader, COMPRESSED_BLOCK_MAGIC, COMPRESS_HEADER_SIZE};

fn make_data(n: usize, fill: u8) -> Vec<u8> {
    vec![fill; n]
}

#[test]
fn test_compress_none() {
    let w = CompressWriter::none();
    let d = make_data(1024, 0xAB);
    let r = w.compress(&d).unwrap();
    let hdr = CompressedBlockHeader::from_bytes(&r.data).unwrap();
    assert_eq!(hdr.original_size as usize, d.len());
    assert_eq!(r.algo, CompressionType::Uncompressed);
}

#[test]
fn test_header_roundtrip() {
    let hdr = CompressedBlockHeader::new(CompressionType::Lz4, 4096, 2048);
    let raw = hdr.to_bytes();
    let hdr2 = CompressedBlockHeader::from_bytes(&raw).unwrap();
    assert_eq!(hdr2.original_size, 4096);
    assert_eq!(hdr2.compressed_size, 2048);
    assert_eq!(CompressionType::from_u8(hdr2.algo).unwrap(), CompressionType::Lz4);
}

#[test]
fn test_compress_lz4_produces_header() {
    let w = CompressWriter::lz4();
    let d = make_data(2048, 0x00);
    let r = w.compress(&d).unwrap();
    let hdr = CompressedBlockHeader::from_bytes(&r.data).unwrap();
    assert_eq!(hdr.magic, COMPRESSED_BLOCK_MAGIC);
    assert_eq!(hdr.original_size, 2048);
}

#[test]
fn test_compress_zstd_produces_header() {
    let w = CompressWriter::zstd();
    let d = make_data(4096, 0x42);
    let r = w.compress(&d).unwrap();
    let hdr = CompressedBlockHeader::from_bytes(&r.data).unwrap();
    assert_eq!(hdr.original_size, 4096);
}

#[test]
fn test_compress_small_input_still_works() {
    let w = CompressWriter::lz4();
    let d = b"hi".to_vec();
    let r = w.compress(&d).unwrap();
    assert!(!r.data.is_empty());
}

#[test]
fn frame_is_header_then_raw_bytes() {
    let d = b"abcdef".to_vec();
    let r = CompressWriter::zstd().compress(&d).unwrap();
    assert_eq!(r.len(), COMPRESS_HEADER_SIZE + d.len());
    assert_eq!(&r.data[COMPRESS_HEADER_SIZE..], &d[..]);
    assert_eq!(r.ratio_milli, 1000);
    assert_eq!(r.ratio_pct(), 100);
    assert!(!r.is_effective());
    let hdr = CompressedBlockHeader::from_bytes(&r.data).unwrap();
    assert_eq!(hdr.algo, 0);
    assert_eq!(hdr.compressed_size, 6);
    assert!(CompressedBlockHeader::from_bytes(&r.data[..COMPRESS_HEADER_SIZE - 1]).is_err());
    assert_eq!(CompressWriter::new(CompressionType::Lz4).algorithm(), CompressionType::Lz4);
}
