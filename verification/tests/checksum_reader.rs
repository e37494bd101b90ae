use exofs::storage::checksum_reader::{
    ChecksumReader, ChecksumStreamVerifier, read_and_verify, extract_hash, BatchFrameVerifier, read_with_mode, VerifyMode,
    is_integrity_ok, verify_raw, hashes_match, ChecksumValidationReport,
};
use exofs::storage::checksum_writer::{ChecksumWriter, CHECKSUM_TAG_LEN};
use exofs::hash::blake3_hash;
use exofs::types::{DiskOffset, ExofsError};

fn make_framed(data: &[u8]) -> Vec<u8> {
    let mut w = ChecksumWriter::new();
    w.write(data).unwrap();
    let r = w.finalize().unwrap();
    r.framed().unwrap()
}

#[test]
fn test_reader_valid() {
    let framed = make_framed(b"hello");
    let reader = ChecksumReader::new(&framed).unwrap();
    let data = reader.data_verified().unwrap();
    assert_eq!(data, b"hello");
}

#[test]
fn test_reader_corrupted_magic() {
    let mut framed = make_framed(b"hello");
    let tag_pos = framed.len() - CHECKSUM_TAG_LEN;
    framed[tag_pos] ^= 0xFF;
    assert!(ChecksumReader::new(&framed).is_err());
}

#[test]
fn test_reader_corrupted_data() {
    let mut framed = make_framed(b"hello world");
    framed[0] ^= 0x01;
    let reader = ChecksumReader::new(&framed).unwrap();
    assert!(reader.data_verified().is_err());
}

#[test]
fn test_stream_verifier() {
    let data = b"chunk1chunk2chunk3";
    let expected = blake3_hash(data);
    let mut v = ChecksumStreamVerifier::new(expected);
    v.feed(b"chunk1").unwrap();
    v.feed(b"chunk2").unwrap();
    v.feed(b"chunk3").unwrap();
    assert!(v.finalize().unwrap());
}

#[test]
fn test_stream_verifier_wrong() {
    let expected = [0u8; 32];
    let mut v = ChecksumStreamVerifier::new(expected);
    v.feed(b"data").unwrap();
    assert!(!v.finalize().unwrap());
}

#[test]
fn test_read_and_verify() {
    let framed = make_framed(b"ExoFS integrity");
    let data = read_and_verify(&framed).unwrap();
    assert_eq!(&data, b"ExoFS integrity");
}

#[test]
fn test_extract_hash() {
    let raw = b"some bytes";
    let framed = make_framed(raw);
    let hash = extract_hash(&framed).unwrap();
    let expect = blake3_hash(raw);
    assert_eq!(hash, expect);
}

#[test]
fn test_batch_verifier_all_ok() {
    let f1 = make_framed(b"block1");
    let f2 = make_framed(b"block2");
    let frames = vec![(DiskOffset(0), f1.as_slice()), (DiskOffset(4096), f2.as_slice())];
    let report = BatchFrameVerifier::verify_all(&frames).unwrap();
    assert!(report.all_ok());
    assert_eq!(report.total(), 2);
}

#[test]
fn test_batch_verifier_one_fail() {
    let mut f1 = make_framed(b"block1");
    f1[0] ^= 0xFF;
    let f2 = make_framed(b"block2");
    let frames = vec![(DiskOffset(0), f1.as_slice()), (DiskOffset(4096), f2.as_slice())];
    let report = BatchFrameVerifier::verify_all(&frames).unwrap();
    assert!(!report.all_ok());
    assert_eq!(report.fail_count, 1);
}

#[test]
fn test_read_with_mode_strict() {
    let framed = make_framed(b"strict");
    let (data, valid) = read_with_mode(&framed, VerifyMode::Strict).unwrap();
    assert!(valid);
    assert_eq!(&data, b"strict");
}

#[test]
fn test_read_with_mode_permissive_corrupt() {
    let mut framed = make_framed(b"permissive test");
    framed[0] ^= 0x01;
    let (_, valid) = read_with_mode(&framed, VerifyMode::Permissive).unwrap();
    assert!(!valid);
}

#[test]
fn test_read_with_mode_strict_corrupt() {
    let mut framed = make_framed(b"strict test");
    framed[0] ^= 0x01;
    assert!(read_with_mode(&framed, VerifyMode::Strict).is_err());
}

#[test]
fn checksum_reader_accessors_and_reasons() {
    let framed = make_framed(b"abc");
    let r = ChecksumReader::new(&framed).unwrap();
    assert_eq!(r.framed_len(), 3 + CHECKSUM_TAG_LEN);
    assert_eq!(r.data_len(), 3);
    assert_eq!(r.data_unchecked(), b"abc");
    assert_eq!(r.tag().unwrap().hash, blake3_hash(b"abc"));
    let v = r.verify().unwrap();
    assert!(v.is_valid());
    assert_eq!(v.data_bytes, 3);
    assert!(is_integrity_ok(&framed));
    assert!(!is_integrity_ok(&framed[1..]));
    assert_eq!(ChecksumReader::new(&[0u8; 4]).err(), Some(ExofsError::InvalidSize));
    assert!(verify_raw(b"abc", &blake3_hash(b"abc")));
    assert!(hashes_match(b"q", b"q"));
    assert!(!hashes_match(b"q", b"r"));
    let bad = vec![0u8; 40];
    let frames = vec![(DiskOffset(5), bad.as_slice())];
    let rep = BatchFrameVerifier::verify_all(&frames).unwrap();
    assert_eq!(rep.results[0].reason, Some("bad_magic"));
    assert_eq!(rep.error_offsets(), vec![DiskOffset(5)]);
    let mut rep2 = ChecksumValidationReport::new();
    rep2.add_ok(DiskOffset(1)).unwrap();
    assert!(rep2.all_ok());
}
