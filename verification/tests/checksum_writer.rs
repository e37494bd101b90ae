use exofs::storage::checksum_writer::{
    ChecksumWriter, ChecksumTag, append_checksum, split_framed, verify_framed, CHECKSUM_TAG_LEN, CHECKSUM_MAGIC,
    BlockChecksumMap, ChecksumChainer, compute_checksum, verify_checksum,
};
use exofs::types::{DiskOffset, ExofsError};

#[test]
fn test_checksum_writer_basic() {
    let mut w = ChecksumWriter::new();
    w.write(b"hello").unwrap();
    w.write(b" world").unwrap();
    let r = w.finalize().unwrap();
    assert_eq!(r.bytes, 11);
    assert_eq!(r.data, b"hello world");
    assert_eq!(r.hash, r.tag.hash);
}

#[test]
fn test_framed_roundtrip() {
    let mut w = ChecksumWriter::new();
    w.write(b"ExoFS checksum test data").unwrap();
    let r = w.finalize().unwrap();
    let framed = r.framed().unwrap();
    assert!(verify_framed(&framed).unwrap());
}

#[test]
fn test_append_checksum() {
    let mut buf = b"test".to_vec();
    let hash = append_checksum(&mut buf).unwrap();
    assert_eq!(buf.len(), 4 + CHECKSUM_TAG_LEN);
    assert!(verify_framed(&buf).unwrap());
    let _ = hash;
}

#[test]
fn test_split_framed() {
    let mut w = ChecksumWriter::new();
    w.write(b"payload").unwrap();
    let r = w.finalize().unwrap();
    let framed = r.framed().unwrap();
    let (data, tag) = split_framed(&framed).unwrap();
    assert_eq!(data, b"payload");
    assert_eq!(tag.magic, CHECKSUM_MAGIC);
}

#[test]
fn test_corruption_detected() {
    let mut framed_vec: Vec<u8>;
    {
        let mut w = ChecksumWriter::new();
        w.write(b"sensitive data").unwrap();
        let r = w.finalize().unwrap();
        framed_vec = r.framed().unwrap();
    }
    framed_vec[0] ^= 0xFF;
    assert!(!verify_framed(&framed_vec).unwrap());
}

#[test]
fn test_double_finalize_fails() {
    let w = ChecksumWriter::new();
    let _r = w.finalize().unwrap();
}

#[test]
fn test_checksum_tag_roundtrip() {
    let hash = [0xABu8; 32];
    let tag = ChecksumTag::new(hash);
    let raw = tag.to_bytes();
    let tag2 = ChecksumTag::from_bytes(&raw).unwrap();
    assert_eq!(tag2.magic, CHECKSUM_MAGIC);
    assert_eq!(tag2.hash, hash);
}

#[test]
fn test_block_checksum_map() {
    let mut m = BlockChecksumMap::new();
    let data = b"block contents";
    let off = DiskOffset(4096);
    m.record(off, data).unwrap();
    assert!(m.verify(off, data).unwrap());
    assert!(!m.verify(off, b"different").unwrap());
}

#[test]
fn test_block_checksum_invalidate() {
    let mut m = BlockChecksumMap::new();
    let off = DiskOffset(0);
    m.record(off, b"data").unwrap();
    m.invalidate(off);
    assert_eq!(m.valid_count(), 0);
    assert_eq!(m.invalid_count(), 1);
}

#[test]
fn test_chainer_deterministic() {
    let iv = [0u8; 32];
    let mut c1 = ChecksumChainer::new(iv);
    let mut c2 = ChecksumChainer::new(iv);
    let h1 = c1.feed_segment(b"same data").unwrap();
    let h2 = c2.feed_segment(b"same data").unwrap();
    assert_eq!(h1, h2);
}

#[test]
fn test_chainer_diverges_on_different_data() {
    let iv = [0u8; 32];
    let mut c1 = ChecksumChainer::new(iv);
    let mut c2 = ChecksumChainer::new(iv);
    let h1 = c1.feed_segment(b"data_A").unwrap();
    let h2 = c2.feed_segment(b"data_B").unwrap();
    assert_ne!(h1, h2);
}

#[test]
fn checksum_known_digest_and_tag_errors() {
    // Blake3 of the empty input.
    let h = compute_checksum(b"");
    assert_eq!(h[0], 0xaf);
    assert_eq!(h[1], 0x13);
    assert!(verify_checksum(b"", &h));
    assert_ne!(compute_checksum(b"x"), [b'x'; 32]);
    assert_eq!(ChecksumTag::from_bytes(&[0u8; 10]).unwrap_err(), ExofsError::InvalidSize);
    assert_eq!(ChecksumTag::from_bytes(&[0u8; 36]).unwrap_err(), ExofsError::BadMagic);
    assert_eq!(split_framed(&[0u8; 3]).unwrap_err(), ExofsError::InvalidSize);
}

#[test]
fn checksum_writer_write_all_and_state() {
    let mut w = ChecksumWriter::default();
    let chunks: [&[u8]; 3] = [b"ab", b"", b"cde"];
    assert_eq!(w.write_all(&chunks).unwrap(), 5);
    assert_eq!(w.byte_count(), 5);
    assert!(!w.is_finalized());
    let r = w.finalize().unwrap();
    assert_eq!(r.data, b"abcde");
    assert_eq!(r.framed().unwrap().len(), 5 + CHECKSUM_TAG_LEN);
}

#[test]
fn checksum_map_record_twice_and_offsets() {
    let mut m = BlockChecksumMap::with_capacity(4).unwrap();
    m.record(DiskOffset(1), b"a").unwrap();
    m.record(DiskOffset(2), b"b").unwrap();
    m.record(DiskOffset(1), b"c").unwrap();
    assert_eq!(m.entry_count(), 2);
    assert!(m.verify(DiskOffset(1), b"c").unwrap());
    assert_eq!(m.verify(DiskOffset(9), b"c").unwrap_err(), ExofsError::NotFound);
    m.invalidate(DiskOffset(2));
    assert_eq!(m.verify(DiskOffset(2), b"b").unwrap_err(), ExofsError::InvalidState);
    assert_eq!(m.invalid_offsets(), vec![DiskOffset(2)]);
    assert!(m.contains(DiskOffset(1)));
    assert!(!m.contains(DiskOffset(3)));
}

#[test]
fn checksum_chainer_segments() {
    let mut c = ChecksumChainer::new([1u8; 32]);
    assert_eq!(c.segment_index(), 0);
    let h = c.feed_segment(b"seg").unwrap();
    assert_eq!(c.current_hash(), h);
    assert_eq!(c.segment_index(), 1);
    let mut input = vec![1u8; 32];
    input.extend_from_slice(b"seg");
    assert_eq!(h, compute_checksum(&input));
}
