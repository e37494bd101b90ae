use exofs::storage::compression_choice::{
    auto_detect_hint, choose_compression, choose_compression_auto, is_known_media_magic, is_likely_text,
    sample_entropy, CompressionPolicy, CompressionRegistry, CompressionType, ContentHint, MAX_ENTROPY_PERMILLE,
};

fn make_text(n: usize) -> Vec<u8> {
    let pattern = b"hello world this is a text blob ";
    pattern.iter().cycle().take(n).cloned().collect()
}

fn make_random_bytes(n: usize) -> Vec<u8> {
    let mut v: Vec<u8> = Vec::new();
    for i in 0..n {
        v.push(((i * 127 + 37) ^ (i >> 3)) as u8);
    }
    v
}

#[test]
fn test_too_small_gives_none() {
    let d = b"hi";
    let dec = choose_compression(d, ContentHint::Text);
    assert_eq!(dec.algorithm, CompressionType::Uncompressed);
}

#[test]
fn test_media_always_none() {
    let d = make_text(4096);
    let dec = choose_compression(&d, ContentHint::Media);
    assert_eq!(dec.algorithm, CompressionType::Uncompressed);
}

#[test]
fn test_large_text_gives_zstd() {
    let d = make_text(4096);
    let dec = choose_compression(&d, ContentHint::Text);
    assert_eq!(dec.algorithm, CompressionType::Zstd);
}

#[test]
fn test_high_entropy_gives_none() {
    let d = make_random_bytes(4096);
    let ent = sample_entropy(&d);
    if ent > MAX_ENTROPY_PERMILLE {
        let dec = choose_compression(&d, ContentHint::Unknown);
        assert_eq!(dec.algorithm, CompressionType::Uncompressed);
    }
}

#[test]
fn test_policy_force_none() {
    let d = make_text(4096);
    let dec = choose_compression(&d, ContentHint::Text);
    let dec = CompressionPolicy::ForceNone.apply(dec);
    assert_eq!(dec.algorithm, CompressionType::Uncompressed);
}

#[test]
fn test_compression_type_roundtrip() {
    for v in [0u8, 1, 2] {
        let ct = CompressionType::from_u8(v).unwrap();
        assert_eq!(ct.to_u8(), v);
    }
    assert!(CompressionType::from_u8(99).is_err());
}

#[test]
fn test_is_likely_text() {
    assert!(is_likely_text(b"fn main() { println!(\"hello\"); }"));
    assert!(!is_likely_text(&[0x00u8, 0xFF, 0x80, 0x01, 0x00, 0xFF]));
}

#[test]
fn test_is_known_media() {
    assert!(is_known_media_magic(&[0xFF, 0xD8, 0xFF, 0xE0, 0x00, 0x10]));
    assert!(is_known_media_magic(&[0x89, 0x50, 0x4E, 0x47, 0x0D, 0x0A]));
    assert!(!is_known_media_magic(b"hello"));
}

#[test]
fn test_auto_detect_text() {
    let code = b"use alloc::vec::Vec;\nfn main() {}\n".repeat(10);
    let hint = auto_detect_hint(&code);
    assert_eq!(hint, ContentHint::Text);
}

#[test]
fn test_registry_record() {
    let mut reg = CompressionRegistry::new();
    reg.record_decision(CompressionType::Lz4, 1024);
    reg.record_decision(CompressionType::Zstd, 2048);
    let total = reg.total_decisions();
    assert!(total >= 2);
}

#[test]
fn registry_percentages() {
    let mut reg = CompressionRegistry::new();
    assert_eq!(reg.lz4_pct(), 0);
    reg.record_decision(CompressionType::Lz4, 10);
    reg.record_decision(CompressionType::Zstd, 10);
    reg.record_decision(CompressionType::Zstd, 10);
    reg.record_decision(CompressionType::Uncompressed, 10);
    assert_eq!(reg.total_decisions(), 4);
    assert_eq!(reg.lz4_pct(), 25);
    assert_eq!(reg.zstd_pct(), 50);
    assert_eq!(reg.bytes_processed, 40);
    reg.record_savings(100, 60);
    reg.record_savings(10, 60);
    assert_eq!(reg.bytes_saved, 40);
}

#[test]
fn small_text_gives_lz4_and_media_magic_detected() {
    let d = make_text(1000);
    assert_eq!(choose_compression(&d, ContentHint::Text).algorithm, CompressionType::Lz4);
    let mut gz = vec![0x1F, 0x8B, 0x08, 0x00];
    gz.extend(make_text(600));
    assert_eq!(auto_detect_hint(&gz), ContentHint::AlreadyCompressed);
    assert_eq!(choose_compression_auto(&gz).algorithm, CompressionType::Uncompressed);
    assert_eq!(auto_detect_hint(b"ab"), ContentHint::Unknown);
    assert_eq!(auto_detect_hint(&[0u8, 1, 2, 3, 4, 5]), ContentHint::Binary);
    assert_eq!(CompressionType::Zstd.name(), "zstd");
    assert!(!CompressionType::Uncompressed.is_compressed());
}
