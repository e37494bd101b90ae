use exofs::types::DiskOffset;
use exofs::storage::layout::{
    validate_disk_layout, heap_zone, align_up, round_up_block_size, LayoutMap, DiskZone, superblock_mirror_offsets,
    HEAP_START_OFFSET, EPOCH_SLOT_C_FROM_END, SB_MIRROR_12K_OFFSET, SB_MIRROR_END_FROM_END, blocks_for_bytes,
    align_down, check_bounds,
};

#[test]
fn test_layout_2mb_valid() {
    assert!(validate_disk_layout(2 * 1024 * 1024).is_ok());
}

#[test]
fn test_layout_too_small() {
    assert!(validate_disk_layout(1024).is_err());
}

#[test]
fn test_heap_zone() {
    let disk = 64 * 1024 * 1024u64;
    let hz = heap_zone(disk).unwrap();
    assert_eq!(hz.start.0, HEAP_START_OFFSET);
    assert_eq!(hz.start.0 + hz.len, disk - EPOCH_SLOT_C_FROM_END);
}

#[test]
fn test_align_up_4k() {
    let off = align_up(DiskOffset(4097), 4096).unwrap();
    assert_eq!(off.0, 8192);
}

#[test]
fn test_round_up_block_size() {
    assert_eq!(round_up_block_size(1).unwrap(), 4096);
    assert_eq!(round_up_block_size(4096).unwrap(), 4096);
    assert_eq!(round_up_block_size(4097).unwrap(), 8192);
}

#[test]
fn test_layout_map_new() {
    let lm = LayoutMap::new(64 * 1024 * 1024).unwrap();
    assert!(lm.heap_blocks > 0);
    assert!(lm.is_in_heap(DiskOffset(HEAP_START_OFFSET)));
    assert!(!lm.is_in_heap(DiskOffset(0)));
}

#[test]
fn test_zone_overlaps() {
    let z1 = DiskZone::new(DiskOffset(0), 4096).unwrap();
    let z2 = DiskZone::new(DiskOffset(2048), 4096).unwrap();
    let z3 = DiskZone::new(DiskOffset(8192), 4096).unwrap();
    assert!(z1.overlaps(&z2));
    assert!(!z1.overlaps(&z3));
}

#[test]
fn test_superblock_mirrors() {
    let disk = 32 * 1024 * 1024u64;
    let mirrors = superblock_mirror_offsets(disk).unwrap();
    assert_eq!(mirrors[0].0, 0);
    assert_eq!(mirrors[1].0, SB_MIRROR_12K_OFFSET);
    assert_eq!(mirrors[2].0, disk - SB_MIRROR_END_FROM_END);
}

#[test]
fn layout_blocks_for_bytes_values() {
    assert_eq!(blocks_for_bytes(0).unwrap(), 0);
    assert_eq!(blocks_for_bytes(1).unwrap(), 1);
    assert_eq!(blocks_for_bytes(8193).unwrap(), 3);
    assert!(blocks_for_bytes(u64::MAX).is_err());
}

#[test]
fn layout_align_down_and_bounds() {
    assert_eq!(align_down(DiskOffset(8191), 4096).unwrap().0, 4096);
    assert!(check_bounds(DiskOffset(0), 4096, 4096).is_ok());
    assert!(check_bounds(DiskOffset(1), 4096, 4096).is_err());
}

#[test]
fn layout_map_heap_blocks_exact() {
    let disk = 4 * 1024 * 1024u64;
    let lm = LayoutMap::new(disk).unwrap();
    assert_eq!(lm.heap_len, disk - EPOCH_SLOT_C_FROM_END - HEAP_START_OFFSET);
    assert_eq!(lm.heap_blocks, (disk - EPOCH_SLOT_C_FROM_END - HEAP_START_OFFSET + 4095) / 4096);
}
