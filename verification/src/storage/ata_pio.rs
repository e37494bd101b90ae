//! Decisions of the ATA PIO driver (legacy IDE, primary channel, master):
//! the register values of an LBA28 transfer, the reading of the status
//! register while waiting, the packing of data words, and the mapping of
//! file-system blocks to sectors. The port accesses themselves are made by
//! the caller.
use vstd::prelude::*;
use crate::types::{ExofsError, ExofsResult};

verus! {

/// Base port of the primary channel.
pub const ATA_IO: u16 = 0x1F0;
/// Alternate status / control port of the primary channel.
pub const ATA_CTRL: u16 = 0x3F6;
/// Register offsets from `ATA_IO`.
pub const REG_DATA: u16 = 0;
pub const REG_SECCOUNT: u16 = 2;
pub const REG_LBA0: u16 = 3;
pub const REG_LBA1: u16 = 4;
pub const REG_LBA2: u16 = 5;
pub const REG_DRIVE: u16 = 6;
pub const REG_STATUS: u16 = 7;
pub const REG_CMD: u16 = 7;
/// Status bits.
pub const ST_BSY: u8 = 0x80;
pub const ST_DRQ: u8 = 0x08;
pub const ST_ERR: u8 = 0x01;
pub const ST_DF: u8 = 0x20;
/// Commands.
pub const CMD_READ_PIO: u8 = 0x20;
pub const CMD_WRITE_PIO: u8 = 0x30;
pub const CMD_IDENTIFY: u8 = 0xEC;
pub const CMD_CACHE_FLUSH: u8 = 0xE7;
/// Bytes of a file-system block.
pub const EXOFS_BLOCK_SIZE: usize = 4096;
/// Bytes of a sector.
pub const ATA_SECTOR: usize = 512;
/// Sectors per file-system block.
pub const SECTORS_PER_BLOCK: u64 = 8;
/// Polls of the status register before giving up.
pub const SPIN_TIMEOUT: u32 = 50000000;

/// The register values that program an LBA28 transfer, written in this
/// order: drive, sector count, the three low LBA bytes, command.
#[derive(Clone, Copy, Debug)]
pub struct AtaSetup {
    pub drive: u8,
    pub count: u8,
    pub lba0: u8,
    pub lba1: u8,
    pub lba2: u8,
    pub cmd: u8,
}

/// Programs `count` sectors from `lba` with `cmd` on the master drive: the
/// drive register holds bits 24 to 27 of the address under `0xE0`.
pub fn ata_setup(lba: u32, count: u8, cmd: u8) -> (r: AtaSetup)
    ensures
        r.drive == 0xE0 + lba / 0x100_0000 % 16,
        r.count == count,
        r.lba0 == lba % 256,
        r.lba1 == lba / 256 % 256,
        r.lba2 == lba / 0x1_0000 % 256,
        r.cmd == cmd,
{
    let hi: u32 = (lba >> 24) & 0x0F;
    let b0: u32 = lba & 0xFF;
    let b1: u32 = (lba >> 8) & 0xFF;
    let b2: u32 = (lba >> 16) & 0xFF;
    proof {
        assert(hi == lba / 0x100_0000 % 16 && hi < 16) by (bit_vector)
            requires hi == (lba >> 24) & 0x0F;
        assert(b0 == lba % 256) by (bit_vector)
            requires b0 == lba & 0xFF;
        assert(b1 == lba / 256 % 256) by (bit_vector)
            requires b1 == (lba >> 8) & 0xFF;
        assert(b2 == lba / 0x1_0000 % 256) by (bit_vector)
            requires b2 == (lba >> 16) & 0xFF;
    }
    AtaSetup { drive: 0xE0 + hi as u8, count, lba0: b0 as u8, lba1: b1 as u8, lba2: b2 as u8, cmd }
}

/// What one poll of the status register decides while waiting for data.
#[derive(Clone, Copy, Debug, PartialEq, Eq, Structural)]
pub enum WaitStep {
    /// The drive is ready to transfer.
    Ready,
    /// The drive reported an error or a fault, or the wait timed out.
    Failed,
    /// Poll again; the number of polls made so far.
    Spin(u32),
}

/// The drive is not busy.
pub open spec fn idle(status: u8) -> bool {
    status & ST_BSY == 0
}

/// The decision after polling `status` with `spins` polls behind: an idle
/// drive with an error or fault fails, one with data ready is ready;
/// otherwise the wait goes on until it passes the timeout.
pub open spec fn drq_step(status: u8, spins: u32) -> WaitStep {
    if idle(status) && status & (ST_ERR | ST_DF) != 0 {
        WaitStep::Failed
    } else if idle(status) && status & ST_DRQ != 0 {
        WaitStep::Ready
    } else if spins + 1 > SPIN_TIMEOUT {
        WaitStep::Failed
    } else {
        WaitStep::Spin((spins + 1) as u32)
    }
}

/// One poll of the wait for data.
pub fn drq_poll(status: u8, spins: u32) -> (r: WaitStep)
    requires
        spins <= SPIN_TIMEOUT,
    ensures
        r == drq_step(status, spins),
{
    if status & ST_BSY == 0 {
        if status & (ST_ERR | ST_DF) != 0 {
            return WaitStep::Failed;
        }
        if status & ST_DRQ != 0 {
            return WaitStep::Ready;
        }
    }
    let next = spins + 1;
    if next > SPIN_TIMEOUT {
        WaitStep::Failed
    } else {
        WaitStep::Spin(next)
    }
}

/// One poll of the wait for a busy drive: `None` once it is idle or the wait
/// passed the timeout, else the polls made so far.
pub fn bsy_poll(status: u8, spins: u32) -> (r: Option<u32>)
    requires
        spins <= SPIN_TIMEOUT,
    ensures
        r == (if idle(status) || spins + 1 > SPIN_TIMEOUT { None } else { Some((spins + 1) as u32) }),
{
    if status & ST_BSY == 0 {
        return None;
    }
    let next = spins + 1;
    if next > SPIN_TIMEOUT {
        None
    } else {
        Some(next)
    }
}

/// The two bytes of a data word, low byte first.
pub fn word_to_bytes(word: u16) -> (r: (u8, u8))
    ensures
        r.0 + 256 * r.1 == word,
{
    let lo: u16 = word & 0xFF;
    let hi: u16 = word >> 8;
    proof {
        assert(lo + 256 * hi == word && lo < 256 && hi < 256) by (bit_vector)
            requires lo == word & 0xFF, hi == word >> 8;
    }
    (lo as u8, hi as u8)
}

/// The data word of two bytes, low byte first.
pub fn bytes_to_word(lo: u8, hi: u8) -> (r: u16)
    ensures
        r == lo + 256 * hi,
{
    let l: u16 = lo as u16;
    let h: u16 = hi as u16;
    let r: u16 = l | (h << 8);
    proof {
        assert(r == l + 256 * h) by (bit_vector)
            requires l < 256, h < 256, r == l | (h << 8);
    }
    r
}

/// A buffer of `len` bytes holds `count` sectors.
pub fn sectors_fit(len: usize, count: u8) -> (r: bool)
    ensures
        r == (len >= count * ATA_SECTOR),
{
    let need: usize = (count as usize) * ATA_SECTOR;
    len >= need
}

/// The number of sectors an IDENTIFY reports: words 60 and 61, low word first.
pub fn identify_sectors(id: &[u16; 256]) -> (r: u64)
    ensures
        r == id@[60] + 65536 * id@[61],
{
    let lo: u64 = id[60] as u64;
    let hi: u64 = id[61] as u64;
    let r: u64 = lo | (hi << 16);
    proof {
        assert(r == lo + 65536 * hi) by (bit_vector)
            requires lo < 65536, hi < 65536, r == lo | (hi << 16);
    }
    r
}

/// Blocks an LBA28 address can reach: `2^28` sectors of 512 bytes.
pub const LBA28_BLOCKS: u64 = 33554432;

/// The first sector of file-system block `lba` for a transfer of `buf_len`
/// bytes on a drive of `n_blocks` blocks: a buffer of another size than a
/// block is refused, and so is a block beyond the drive or beyond what a
/// 28-bit sector address reaches, rather than wrapping to a low sector.
pub fn block_sector(lba: u64, buf_len: usize, n_blocks: u64) -> (r: ExofsResult<u32>)
    ensures
        buf_len != EXOFS_BLOCK_SIZE ==> r == Err::<u32, ExofsError>(ExofsError::InvalidSize),
        buf_len == EXOFS_BLOCK_SIZE && (lba >= n_blocks || lba >= LBA28_BLOCKS)
            ==> r == Err::<u32, ExofsError>(ExofsError::OffsetOverflow),
        buf_len == EXOFS_BLOCK_SIZE && lba < n_blocks && lba < LBA28_BLOCKS ==> r == Ok::<u32, ExofsError>((lba * 8) as u32),
{
    if buf_len != EXOFS_BLOCK_SIZE {
        return Err(ExofsError::InvalidSize);
    }
    if lba >= n_blocks || lba >= LBA28_BLOCKS {
        return Err(ExofsError::OffsetOverflow);
    }
    Ok((lba * SECTORS_PER_BLOCK) as u32)
}

/// File-system blocks on a drive of `total_sectors` sectors.
pub fn total_blocks(total_sectors: u64) -> (r: u64)
    ensures
        r == total_sectors / 8,
{
    total_sectors / SECTORS_PER_BLOCK
}

/// Bytes of a block.
pub fn block_size() -> (r: u32)
    ensures
        r == 4096,
{
    4096
}

} // verus!
