//! On-disk layout: fixed offsets, zones and alignment arithmetic.
//!
//! Physical layout of a volume:
//!   0        primary superblock (4 KB)
//!   4 KB     epoch slot A
//!   8 KB     epoch slot B
//!   12 KB    superblock mirror
//!   1 MB     general heap (blobs, objects)
//!   size-8KB epoch slot C
//!   size-4KB final superblock mirror
use vstd::prelude::*;
use crate::types::{DiskOffset, ExofsError, ExofsResult};

verus! {

/// Volume magic "EXOF".
pub const EXOFS_MAGIC: u32 = 0x4558_4F46;
/// Block size in bytes.
pub const BLOCK_SIZE: u64 = 4096;
/// Offset of the primary superblock.
pub const SB_PRIMARY_OFFSET: u64 = 0;
/// Size of one superblock copy.
pub const SUPERBLOCK_SIZE: u64 = 4096;
/// Offset of epoch slot A.
pub const EPOCH_SLOT_A_OFFSET: u64 = 4096;
/// Offset of epoch slot B.
pub const EPOCH_SLOT_B_OFFSET: u64 = 8192;
/// Offset of the superblock mirror at 12 KB.
pub const SB_MIRROR_12K_OFFSET: u64 = 12288;
/// Start of the general heap (1 MB).
pub const HEAP_START_OFFSET: u64 = 1048576;
/// Distance of epoch slot C from the end of the volume.
pub const EPOCH_SLOT_C_FROM_END: u64 = 8192;
/// Distance of the final superblock mirror from the end of the volume.
pub const SB_MIRROR_END_FROM_END: u64 = 4096;
/// Size of one epoch slot.
pub const EPOCH_SLOT_SIZE: u64 = 4096;
/// Smallest valid volume (2 MB).
pub const MIN_DISK_SIZE: u64 = 2097152;
/// Number of superblock copies.
pub const SB_MIRROR_COUNT: usize = 3;
/// Alignment of heap allocations.
pub const HEAP_ALLOC_ALIGN: u64 = 4096;
/// Number of buddy orders.
pub const MAX_BUDDY_ORDER: u32 = 14;
/// Largest extent (64 MB).
pub const MAX_EXTENT_SIZE: u64 = 67108864;

/// `a + b`, clamped to `u64::MAX`.
pub open spec fn sat_add(a: int, b: int) -> int {
    if a + b > u64::MAX { u64::MAX as int } else { a + b }
}

/// `x` rounded up to a multiple of `m`.
pub open spec fn round_up(x: int, m: int) -> int {
    ((x + m - 1) / m) * m
}

/// Clearing the low 12 bits of `y` rounds it down to a multiple of 4096.
pub proof fn lemma_mask_4096(y: u64)
    ensures
        (y & !0xfffu64) as int == y - y % 4096,
        (y & !0xfffu64) as int % 4096 == 0,
{
    assert((y & !0xfffu64) as int == y - y % 4096) by (bit_vector);
    assert((y & !0xfffu64) % 4096 == 0) by (bit_vector);
}

/// A contiguous range of bytes on the volume.
#[derive(Clone, Copy, Debug, PartialEq, Eq, Structural)]
pub struct DiskZone {
    /// First byte (inclusive).
    pub start: DiskOffset,
    /// Length in bytes.
    pub len: u64,
}

impl DiskZone {
    /// Builds a zone whose end does not overflow.
    pub fn new(start: DiskOffset, len: u64) -> (r: ExofsResult<DiskZone>)
        ensures
            start.0 + len <= u64::MAX ==> r == Ok::<DiskZone, ExofsError>(DiskZone { start, len }),
            start.0 + len > u64::MAX ==> r == Err::<DiskZone, ExofsError>(ExofsError::OffsetOverflow),
    {
        match start.0.checked_add(len) {
            Some(_) => Ok(DiskZone { start, len }),
            None => Err(ExofsError::OffsetOverflow),
        }
    }

    /// Exclusive end offset.
    pub fn end(&self) -> (r: ExofsResult<DiskOffset>)
        ensures
            self.start.0 + self.len <= u64::MAX ==> r == Ok::<DiskOffset, ExofsError>(DiskOffset((self.start.0 + self.len) as u64)),
            self.start.0 + self.len > u64::MAX ==> r == Err::<DiskOffset, ExofsError>(ExofsError::OffsetOverflow),
    {
        match self.start.0.checked_add(self.len) {
            Some(e) => Ok(DiskOffset(e)),
            None => Err(ExofsError::OffsetOverflow),
        }
    }

    /// True iff `offset` lies in the zone (the end is clamped to `u64::MAX`).
    pub fn contains(&self, offset: DiskOffset) -> (r: bool)
        ensures
            r == (offset.0 >= self.start.0 && offset.0 < sat_add(self.start.0 as int, self.len as int)),
    {
        offset.0 >= self.start.0 && offset.0 < self.start.0.saturating_add(self.len)
    }

    /// True iff the two zones share at least one byte.
    pub fn overlaps(&self, other: &DiskZone) -> (r: bool)
        ensures
            r == (self.start.0 < sat_add(other.start.0 as int, other.len as int)
                && other.start.0 < sat_add(self.start.0 as int, self.len as int)),
    {
        let self_end = self.start.0.saturating_add(self.len);
        let other_end = other.start.0.saturating_add(other.len);
        self.start.0 < other_end && other.start.0 < self_end
    }

    /// Number of 4 KB blocks covered, rounded up.
    pub fn blocks_4k(&self) -> (r: u64)
        ensures
            r == sat_add(self.len as int, 4095) / 4096,
    {
        self.len.saturating_add(BLOCK_SIZE - 1) / BLOCK_SIZE
    }
}

/// Offset of the primary superblock.
pub fn superblock_primary() -> (r: DiskOffset)
    ensures
        r == DiskOffset(SB_PRIMARY_OFFSET),
{
    DiskOffset(SB_PRIMARY_OFFSET)
}

/// Zone of the primary superblock.
pub fn superblock_primary_zone() -> (r: DiskZone)
    ensures
        r == (DiskZone { start: DiskOffset(SB_PRIMARY_OFFSET), len: SUPERBLOCK_SIZE }),
{
    DiskZone { start: DiskOffset(SB_PRIMARY_OFFSET), len: SUPERBLOCK_SIZE }
}

/// Offset of epoch slot A.
pub fn epoch_slot_a() -> (r: DiskOffset)
    ensures
        r == DiskOffset(EPOCH_SLOT_A_OFFSET),
{
    DiskOffset(EPOCH_SLOT_A_OFFSET)
}

/// Zone of epoch slot A.
pub fn epoch_slot_a_zone() -> (r: DiskZone)
    ensures
        r == (DiskZone { start: DiskOffset(EPOCH_SLOT_A_OFFSET), len: EPOCH_SLOT_SIZE }),
{
    DiskZone { start: DiskOffset(EPOCH_SLOT_A_OFFSET), len: EPOCH_SLOT_SIZE }
}

/// Offset of epoch slot B.
pub fn epoch_slot_b() -> (r: DiskOffset)
    ensures
        r == DiskOffset(EPOCH_SLOT_B_OFFSET),
{
    DiskOffset(EPOCH_SLOT_B_OFFSET)
}

/// Zone of epoch slot B.
pub fn epoch_slot_b_zone() -> (r: DiskZone)
    ensures
        r == (DiskZone { start: DiskOffset(EPOCH_SLOT_B_OFFSET), len: EPOCH_SLOT_SIZE }),
{
    DiskZone { start: DiskOffset(EPOCH_SLOT_B_OFFSET), len: EPOCH_SLOT_SIZE }
}

/// Offset of the superblock mirror at 12 KB.
pub fn superblock_mirror_12k() -> (r: DiskOffset)
    ensures
        r == DiskOffset(SB_MIRROR_12K_OFFSET),
{
    DiskOffset(SB_MIRROR_12K_OFFSET)
}

/// Zone of the superblock mirror at 12 KB.
pub fn superblock_mirror_12k_zone() -> (r: DiskZone)
    ensures
        r == (DiskZone { start: DiskOffset(SB_MIRROR_12K_OFFSET), len: SUPERBLOCK_SIZE }),
{
    DiskZone { start: DiskOffset(SB_MIRROR_12K_OFFSET), len: SUPERBLOCK_SIZE }
}

/// Start of the heap.
pub fn heap_start() -> (r: DiskOffset)
    ensures
        r == DiskOffset(HEAP_START_OFFSET),
{
    DiskOffset(HEAP_START_OFFSET)
}

/// Offset of epoch slot C (`disk_size - 8 KB`).
pub fn epoch_slot_c(disk_size_bytes: u64) -> (r: ExofsResult<DiskOffset>)
    ensures
        disk_size_bytes >= EPOCH_SLOT_C_FROM_END ==> r == Ok::<DiskOffset, ExofsError>(DiskOffset((disk_size_bytes - EPOCH_SLOT_C_FROM_END) as u64)),
        disk_size_bytes < EPOCH_SLOT_C_FROM_END ==> r == Err::<DiskOffset, ExofsError>(ExofsError::OffsetOverflow),
{
    match disk_size_bytes.checked_sub(EPOCH_SLOT_C_FROM_END) {
        Some(v) => Ok(DiskOffset(v)),
        None => Err(ExofsError::OffsetOverflow),
    }
}

/// Zone of epoch slot C.
pub fn epoch_slot_c_zone(disk_size_bytes: u64) -> (r: ExofsResult<DiskZone>)
    ensures
        disk_size_bytes >= EPOCH_SLOT_C_FROM_END ==> r == Ok::<DiskZone, ExofsError>(DiskZone {
            start: DiskOffset((disk_size_bytes - EPOCH_SLOT_C_FROM_END) as u64),
            len: EPOCH_SLOT_SIZE,
        }),
        disk_size_bytes < EPOCH_SLOT_C_FROM_END ==> r == Err::<DiskZone, ExofsError>(ExofsError::OffsetOverflow),
{
    let start = epoch_slot_c(disk_size_bytes)?;
    Ok(DiskZone { start, len: EPOCH_SLOT_SIZE })
}

/// Offset of the final superblock mirror (`disk_size - 4 KB`).
pub fn superblock_mirror_end(disk_size_bytes: u64) -> (r: ExofsResult<DiskOffset>)
    ensures
        disk_size_bytes >= SB_MIRROR_END_FROM_END ==> r == Ok::<DiskOffset, ExofsError>(DiskOffset((disk_size_bytes - SB_MIRROR_END_FROM_END) as u64)),
        disk_size_bytes < SB_MIRROR_END_FROM_END ==> r == Err::<DiskOffset, ExofsError>(ExofsError::OffsetOverflow),
{
    match disk_size_bytes.checked_sub(SB_MIRROR_END_FROM_END) {
        Some(v) => Ok(DiskOffset(v)),
        None => Err(ExofsError::OffsetOverflow),
    }
}

/// Zone of the final superblock mirror.
pub fn superblock_mirror_end_zone(disk_size_bytes: u64) -> (r: ExofsResult<DiskZone>)
    ensures
        disk_size_bytes >= SB_MIRROR_END_FROM_END ==> r == Ok::<DiskZone, ExofsError>(DiskZone {
            start: DiskOffset((disk_size_bytes - SB_MIRROR_END_FROM_END) as u64),
            len: SUPERBLOCK_SIZE,
        }),
        disk_size_bytes < SB_MIRROR_END_FROM_END ==> r == Err::<DiskZone, ExofsError>(ExofsError::OffsetOverflow),
{
    let start = superblock_mirror_end(disk_size_bytes)?;
    Ok(DiskZone { start, len: SUPERBLOCK_SIZE })
}

/// True iff a volume of this size has a non-empty heap zone.
pub open spec fn heap_zone_ok(disk_size_bytes: int) -> bool {
    disk_size_bytes >= EPOCH_SLOT_C_FROM_END && disk_size_bytes - EPOCH_SLOT_C_FROM_END > HEAP_START_OFFSET
}

/// The heap zone `[HEAP_START, epoch_slot_c)`.
pub fn heap_zone(disk_size_bytes: u64) -> (r: ExofsResult<DiskZone>)
    ensures
        heap_zone_ok(disk_size_bytes as int) ==> r == Ok::<DiskZone, ExofsError>(DiskZone {
            start: DiskOffset(HEAP_START_OFFSET),
            len: (disk_size_bytes - EPOCH_SLOT_C_FROM_END - HEAP_START_OFFSET) as u64,
        }),
        !heap_zone_ok(disk_size_bytes as int) ==> r == Err::<DiskZone, ExofsError>(ExofsError::OffsetOverflow),
{
    let start = heap_start();
    let end = epoch_slot_c(disk_size_bytes)?;
    if end.0 <= start.0 {
        return Err(ExofsError::OffsetOverflow);
    }
    let len = end.0 - start.0;
    Ok(DiskZone { start, len })
}

/// The three superblock offsets of a volume.
pub fn superblock_mirror_offsets(disk_size_bytes: u64) -> (r: ExofsResult<[DiskOffset; 3]>)
    ensures
        disk_size_bytes >= SB_MIRROR_END_FROM_END ==> (r matches Ok(a) && a@ == seq![
            DiskOffset(SB_PRIMARY_OFFSET),
            DiskOffset(SB_MIRROR_12K_OFFSET),
            DiskOffset((disk_size_bytes - SB_MIRROR_END_FROM_END) as u64),
        ]),
        disk_size_bytes < SB_MIRROR_END_FROM_END ==> r == Err::<[DiskOffset; 3], ExofsError>(ExofsError::OffsetOverflow),
{
    let mirror_end = superblock_mirror_end(disk_size_bytes)?;
    let a = [DiskOffset(SB_PRIMARY_OFFSET), DiskOffset(SB_MIRROR_12K_OFFSET), mirror_end];
    proof {
        assert(a@ =~= seq![DiskOffset(SB_PRIMARY_OFFSET), DiskOffset(SB_MIRROR_12K_OFFSET), mirror_end]);
    }
    Ok(a)
}

/// Number of the 512-byte sector holding `offset`.
pub fn offset_to_sector_512(offset: DiskOffset) -> (r: u64)
    ensures
        r == offset.0 / 512,
{
    offset.0 / 512
}

/// Offset of a 512-byte sector.
pub fn sector_512_to_offset(sector: u64) -> (r: ExofsResult<DiskOffset>)
    ensures
        sector * 512 <= u64::MAX ==> r == Ok::<DiskOffset, ExofsError>(DiskOffset((sector * 512) as u64)),
        sector * 512 > u64::MAX ==> r == Err::<DiskOffset, ExofsError>(ExofsError::OffsetOverflow),
{
    match sector.checked_mul(512) {
        Some(v) => Ok(DiskOffset(v)),
        None => Err(ExofsError::OffsetOverflow),
    }
}

/// Number of the 4 KB block holding `offset`.
pub fn offset_to_block_4k(offset: DiskOffset) -> (r: u64)
    ensures
        r == offset.0 / 4096,
{
    offset.0 / BLOCK_SIZE
}

/// Offset of a 4 KB block.
pub fn block_4k_to_offset(block: u64) -> (r: ExofsResult<DiskOffset>)
    ensures
        block * 4096 <= u64::MAX ==> r == Ok::<DiskOffset, ExofsError>(DiskOffset((block * 4096) as u64)),
        block * 4096 > u64::MAX ==> r == Err::<DiskOffset, ExofsError>(ExofsError::OffsetOverflow),
{
    match block.checked_mul(BLOCK_SIZE) {
        Some(v) => Ok(DiskOffset(v)),
        None => Err(ExofsError::OffsetOverflow),
    }
}

/// End offset of `{start, len}`.
pub fn zone_end(start: DiskOffset, len: u64) -> (r: ExofsResult<DiskOffset>)
    ensures
        start.0 + len <= u64::MAX ==> r == Ok::<DiskOffset, ExofsError>(DiskOffset((start.0 + len) as u64)),
        start.0 + len > u64::MAX ==> r == Err::<DiskOffset, ExofsError>(ExofsError::OffsetOverflow),
{
    match start.0.checked_add(len) {
        Some(v) => Ok(DiskOffset(v)),
        None => Err(ExofsError::OffsetOverflow),
    }
}

/// Checks that `{offset, len}` lies inside a volume of `disk_size` bytes.
pub fn check_bounds(offset: DiskOffset, len: u64, disk_size: u64) -> (r: ExofsResult<()>)
    ensures
        r is Ok <==> offset.0 + len <= disk_size,
        r is Err ==> r == Err::<(), ExofsError>(ExofsError::OffsetOverflow),
{
    let end = match offset.0.checked_add(len) {
        Some(e) => e,
        None => return Err(ExofsError::OffsetOverflow),
    };
    if end > disk_size {
        return Err(ExofsError::OffsetOverflow);
    }
    Ok(())
}

/// Offset `n_blocks` blocks after `base`.
pub fn blocks_to_offset(base: DiskOffset, n_blocks: u64) -> (r: ExofsResult<DiskOffset>)
    ensures
        base.0 + n_blocks * 4096 <= u64::MAX ==> r == Ok::<DiskOffset, ExofsError>(DiskOffset((base.0 + n_blocks * 4096) as u64)),
        base.0 + n_blocks * 4096 > u64::MAX ==> r == Err::<DiskOffset, ExofsError>(ExofsError::OffsetOverflow),
{
    let delta = match n_blocks.checked_mul(BLOCK_SIZE) {
        Some(d) => d,
        None => return Err(ExofsError::OffsetOverflow),
    };
    match base.0.checked_add(delta) {
        Some(v) => Ok(DiskOffset(v)),
        None => Err(ExofsError::OffsetOverflow),
    }
}

/// Rounds `offset` up with the mask `align - 1` (meant for powers of two).
pub fn align_up(offset: DiskOffset, align: u64) -> (r: ExofsResult<DiskOffset>)
    ensures
        align == 0 ==> r == Err::<DiskOffset, ExofsError>(ExofsError::OffsetOverflow),
        align > 0 && offset.0 + (align - 1) > u64::MAX ==> r == Err::<DiskOffset, ExofsError>(ExofsError::OffsetOverflow),
        align > 0 && offset.0 + (align - 1) <= u64::MAX ==> r == Ok::<DiskOffset, ExofsError>(DiskOffset(
            ((offset.0 + (align - 1)) as u64) & !((align - 1) as u64),
        )),
        align == 4096 && offset.0 + 4095 <= u64::MAX ==> r == Ok::<DiskOffset, ExofsError>(DiskOffset(
            round_up(offset.0 as int, 4096) as u64,
        )),
{
    let mask = match align.checked_sub(1) {
        Some(m) => m,
        None => return Err(ExofsError::OffsetOverflow),
    };
    let sum = match offset.0.checked_add(mask) {
        Some(s) => s,
        None => return Err(ExofsError::OffsetOverflow),
    };
    proof {
        if align == 4096 {
            lemma_mask_4096(sum);
        }
    }
    Ok(DiskOffset(sum & !mask))
}

/// Rounds `offset` down with the mask `align - 1` (meant for powers of two).
pub fn align_down(offset: DiskOffset, align: u64) -> (r: ExofsResult<DiskOffset>)
    ensures
        align == 0 ==> r == Err::<DiskOffset, ExofsError>(ExofsError::OffsetOverflow),
        align > 0 ==> r == Ok::<DiskOffset, ExofsError>(DiskOffset(offset.0 & !((align - 1) as u64))),
{
    let mask = match align.checked_sub(1) {
        Some(m) => m,
        None => return Err(ExofsError::OffsetOverflow),
    };
    Ok(DiskOffset(offset.0 & !mask))
}

/// `size` rounded up to a multiple of the block size.
pub fn round_up_block_size(size: u64) -> (r: ExofsResult<u64>)
    ensures
        size + 4095 <= u64::MAX ==> r == Ok::<u64, ExofsError>(round_up(size as int, 4096) as u64),
        size + 4095 > u64::MAX ==> r == Err::<u64, ExofsError>(ExofsError::OffsetOverflow),
{
    let mask: u64 = BLOCK_SIZE - 1;
    match size.checked_add(mask) {
        Some(v) => {
            proof {
                lemma_mask_4096(v);
            }
            Ok(v & !mask)
        },
        None => Err(ExofsError::OffsetOverflow),
    }
}

/// Number of blocks needed to hold `size` bytes.
pub fn blocks_for_bytes(size: u64) -> (r: ExofsResult<u64>)
    ensures
        size + 4095 <= u64::MAX ==> r == Ok::<u64, ExofsError>(((size + 4095) / 4096) as u64),
        size + 4095 > u64::MAX ==> r == Err::<u64, ExofsError>(ExofsError::OffsetOverflow),
{
    let rounded = round_up_block_size(size)?;
    Ok(rounded / BLOCK_SIZE)
}

/// A volume has a valid layout iff it is at least `MIN_DISK_SIZE` bytes.
pub fn validate_disk_layout(disk_size_bytes: u64) -> (r: ExofsResult<()>)
    ensures
        disk_size_bytes >= MIN_DISK_SIZE ==> r == Ok::<(), ExofsError>(()),
        disk_size_bytes < MIN_DISK_SIZE ==> r == Err::<(), ExofsError>(ExofsError::InvalidArgument),
{
    if disk_size_bytes < MIN_DISK_SIZE {
        return Err(ExofsError::InvalidArgument);
    }
    let mirror_end_off = superblock_mirror_end(disk_size_bytes)?;
    let mirror_end = match mirror_end_off.0.checked_add(SUPERBLOCK_SIZE) {
        Some(v) => v,
        None => return Err(ExofsError::OffsetOverflow),
    };
    if mirror_end > disk_size_bytes {
        return Err(ExofsError::OffsetOverflow);
    }
    let slot_c = epoch_slot_c(disk_size_bytes)?;
    if slot_c.0 >= mirror_end_off.0 {
        return Err(ExofsError::OffsetOverflow);
    }
    let hz = heap_zone(disk_size_bytes)?;
    if hz.len < BLOCK_SIZE {
        return Err(ExofsError::InvalidArgument);
    }
    let meta_end: u64 = SB_MIRROR_12K_OFFSET + SUPERBLOCK_SIZE;
    if hz.start.0 < meta_end {
        return Err(ExofsError::OffsetOverflow);
    }
    Ok(())
}

/// Number of blocks in the heap of a volume.
pub fn heap_blocks(disk_size_bytes: u64) -> (r: ExofsResult<u64>)
    ensures
        heap_zone_ok(disk_size_bytes as int) ==> r == Ok::<u64, ExofsError>(
            ((disk_size_bytes - EPOCH_SLOT_C_FROM_END - HEAP_START_OFFSET + 4095) / 4096) as u64),
        !heap_zone_ok(disk_size_bytes as int) ==> r == Err::<u64, ExofsError>(ExofsError::OffsetOverflow),
{
    let z = heap_zone(disk_size_bytes)?;
    blocks_for_bytes(z.len)
}

/// Summary of the layout of one volume.
#[derive(Clone, Copy, Debug)]
pub struct LayoutMap {
    pub disk_size: u64,
    pub sb_primary: DiskOffset,
    pub epoch_slot_a: DiskOffset,
    pub epoch_slot_b: DiskOffset,
    pub sb_mirror_12k: DiskOffset,
    pub heap_start: DiskOffset,
    pub heap_end: DiskOffset,
    pub heap_len: u64,
    pub epoch_slot_c: DiskOffset,
    pub sb_mirror_end: DiskOffset,
    pub heap_blocks: u64,
}

/// The layout map of a volume of `d` bytes, `d >= MIN_DISK_SIZE`.
pub open spec fn layout_map_spec(d: u64) -> LayoutMap {
    LayoutMap {
        disk_size: d,
        sb_primary: DiskOffset(SB_PRIMARY_OFFSET),
        epoch_slot_a: DiskOffset(EPOCH_SLOT_A_OFFSET),
        epoch_slot_b: DiskOffset(EPOCH_SLOT_B_OFFSET),
        sb_mirror_12k: DiskOffset(SB_MIRROR_12K_OFFSET),
        heap_start: DiskOffset(HEAP_START_OFFSET),
        heap_end: DiskOffset((d - EPOCH_SLOT_C_FROM_END) as u64),
        heap_len: (d - EPOCH_SLOT_C_FROM_END - HEAP_START_OFFSET) as u64,
        epoch_slot_c: DiskOffset((d - EPOCH_SLOT_C_FROM_END) as u64),
        sb_mirror_end: DiskOffset((d - SB_MIRROR_END_FROM_END) as u64),
        heap_blocks: ((d - EPOCH_SLOT_C_FROM_END - HEAP_START_OFFSET + 4095) / 4096) as u64,
    }
}

impl LayoutMap {
    /// Computes the layout of a volume; fails iff it is smaller than `MIN_DISK_SIZE`.
    pub fn new(disk_size_bytes: u64) -> (r: ExofsResult<LayoutMap>)
        ensures
            disk_size_bytes >= MIN_DISK_SIZE ==> (r matches Ok(m) && m == layout_map_spec(disk_size_bytes)),
            disk_size_bytes < MIN_DISK_SIZE ==> (r matches Err(e) && e == ExofsError::InvalidArgument),
    {
        validate_disk_layout(disk_size_bytes)?;
        let slot_c = epoch_slot_c(disk_size_bytes)?;
        let sb_end = superblock_mirror_end(disk_size_bytes)?;
        let hz = heap_zone(disk_size_bytes)?;
        let hb = blocks_for_bytes(hz.len)?;
        Ok(LayoutMap {
            disk_size: disk_size_bytes,
            sb_primary: DiskOffset(SB_PRIMARY_OFFSET),
            epoch_slot_a: DiskOffset(EPOCH_SLOT_A_OFFSET),
            epoch_slot_b: DiskOffset(EPOCH_SLOT_B_OFFSET),
            sb_mirror_12k: DiskOffset(SB_MIRROR_12K_OFFSET),
            heap_start: hz.start,
            heap_end: DiskOffset(hz.start.0.saturating_add(hz.len)),
            heap_len: hz.len,
            epoch_slot_c: slot_c,
            sb_mirror_end: sb_end,
            heap_blocks: hb,
        })
    }

    /// The three superblock offsets.
    pub fn superblock_mirrors(&self) -> (r: [DiskOffset; 3])
        ensures
            r@ == seq![self.sb_primary, self.sb_mirror_12k, self.sb_mirror_end],
    {
        let a = [self.sb_primary, self.sb_mirror_12k, self.sb_mirror_end];
        proof {
            assert(a@ =~= seq![self.sb_primary, self.sb_mirror_12k, self.sb_mirror_end]);
        }
        a
    }

    /// Share of the volume used by the metadata in front of the heap, in percent.
    pub fn metadata_overhead_pct(&self) -> (r: u64)
        ensures
            self.disk_size == 0 ==> r == 0,
            self.disk_size > 0 ==> r == (HEAP_START_OFFSET * 100) / (self.disk_size as int),
    {
        if self.disk_size == 0 {
            return 0;
        }
        let meta: u64 = HEAP_START_OFFSET * 100;
        meta / self.disk_size
    }

    /// True iff `offset` lies in the heap.
    pub fn is_in_heap(&self, offset: DiskOffset) -> (r: bool)
        ensures
            r == (offset.0 >= self.heap_start.0 && offset.0 < self.heap_end.0),
    {
        offset.0 >= self.heap_start.0 && offset.0 < self.heap_end.0
    }

    /// True iff `{offset, len}` lies entirely in the heap.
    pub fn zone_in_heap(&self, offset: DiskOffset, len: u64) -> (r: bool)
        ensures
            r == (offset.0 + len <= u64::MAX && offset.0 >= self.heap_start.0 && offset.0 + len <= self.heap_end.0),
    {
        let end = match offset.0.checked_add(len) {
            Some(e) => e,
            None => return false,
        };
        offset.0 >= self.heap_start.0 && end <= self.heap_end.0
    }
}

} // verus!
