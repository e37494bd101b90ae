use exofs::storage::ata_pio::{block_sector, LBA28_BLOCKS};
use exofs::types::ExofsError;

#[test]
fn block_sector_refuses_out_of_range_blocks() {
    assert_eq!(block_sector(3, 4096, 100), Ok(24));
    assert_eq!(block_sector(3, 512, 100), Err(ExofsError::InvalidSize));
    assert_eq!(block_sector(100, 4096, 100), Err(ExofsError::OffsetOverflow));
    assert_eq!(block_sector(1 << 25, 4096, u64::MAX), Err(ExofsError::OffsetOverflow));
    assert_eq!(block_sector(LBA28_BLOCKS - 1, 4096, u64::MAX), Ok(((LBA28_BLOCKS - 1) * 8) as u32));
}
