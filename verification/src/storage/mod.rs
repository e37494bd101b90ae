//! Storage layer: layout, heap, blocks, cache, checksums, compression,
//! deduplication, extents and blobs.
pub mod layout;
pub mod ata_pio;
pub mod heap_free_map;
pub mod heap_coalesce;
pub mod heap_allocator;
pub mod heap;
pub mod block_allocator;
pub mod block_cache;
pub mod io_batch;
pub mod checksum_writer;
pub mod checksum_reader;
pub mod compression_choice;
pub mod compression_writer;
pub mod compression_reader;
pub mod dedup_writer;
pub mod dedup_reader;
pub mod extent_writer;
pub mod extent_reader;
pub mod blob_writer;
pub mod blob_reader;

use vstd::prelude::*;

verus! {

/// What mounting a volume found.
#[derive(Clone, Debug)]
pub struct StorageInitResult {
    pub superblock_epoch: u64,
    pub free_bytes: u64,
    pub object_count: u64,
    pub blob_count: u64,
    pub disk_size: u64,
}

/// Why the storage could not be started.
#[derive(Clone, Copy, Debug, PartialEq, Eq, Structural)]
pub enum StorageInitError {
    AlreadyInitialized,
    InvalidDisk,
    SuperblockCorrupted,
    DiskTooSmall,
    AllMirrorsFailed,
}

/// Whether the storage was started and whether it is stopping.
#[derive(Clone, Copy, Debug)]
pub struct StorageState {
    pub initialized: bool,
    pub shutting_down: bool,
}

impl StorageState {
    /// Not started, not stopping.
    pub fn new() -> (r: StorageState)
        ensures
            !r.initialized && !r.shutting_down,
    {
        StorageState { initialized: false, shutting_down: false }
    }
}

/// Marks the storage as stopping; writes are to be refused from then on.
pub fn storage_shutdown(state: &mut StorageState)
    ensures
        final(state).shutting_down && !final(state).initialized,
{
    state.shutting_down = true;
    state.initialized = false;
}

/// True iff the storage was started and is not stopping.
pub fn storage_is_ready(state: &StorageState) -> (r: bool)
    ensures
        r == (state.initialized && !state.shutting_down),
{
    state.initialized && !state.shutting_down
}

/// The counters of the storage that a health report reads.
#[derive(Clone, Copy, Debug)]
pub struct StorageCounters {
    pub blobs_created: u64,
    pub blobs_deleted: u64,
    pub dedup_hits: u64,
    pub compress_bytes_in: u64,
    pub compress_bytes_out: u64,
    pub io_errors: u64,
    pub checksum_errors: u64,
}

/// Health of the storage, from its counters.
#[derive(Clone, Copy, Debug)]
pub struct StorageHealthReport {
    pub is_ready: bool,
    pub stats: StorageCounters,
    pub write_errors: u64,
    pub read_errors: u64,
    pub checksum_errors: u64,
    pub dedup_hit_rate_pct: u64,
    pub compress_ratio_pct: u64,
}

/// `x * 100`, saturated at `u64::MAX`.
pub open spec fn times100_sat(x: u64) -> int {
    if x * 100 > u64::MAX { u64::MAX as int } else { x * 100 }
}

/// Deduplication hits per hundred blobs created or deleted (0 when none).
pub open spec fn dedup_pct_spec(c: StorageCounters) -> int {
    let ops = if c.blobs_created + c.blobs_deleted > u64::MAX { u64::MAX as int } else { c.blobs_created + c.blobs_deleted };
    if ops > 0 { times100_sat(c.dedup_hits) / ops } else { 0 }
}

/// Bytes saved by compression per hundred bytes given to it (0 when none).
pub open spec fn compress_pct_spec(c: StorageCounters) -> int {
    if c.compress_bytes_in > 0 {
        let saved: u64 = if c.compress_bytes_in >= c.compress_bytes_out { (c.compress_bytes_in - c.compress_bytes_out) as u64 } else { 0 };
        times100_sat(saved) / (c.compress_bytes_in as int)
    } else {
        0
    }
}

impl StorageHealthReport {
    /// The report for the counters `stats` of a storage in state `state`.
    pub fn collect(state: &StorageState, stats: StorageCounters) -> (r: StorageHealthReport)
        ensures
            r.is_ready == (state.initialized && !state.shutting_down),
            r.stats == stats,
            r.write_errors == stats.io_errors && r.read_errors == stats.io_errors,
            r.checksum_errors == stats.checksum_errors,
            r.dedup_hit_rate_pct == dedup_pct_spec(stats),
            r.compress_ratio_pct == compress_pct_spec(stats),
    {
        let total_ops = stats.blobs_created.saturating_add(stats.blobs_deleted);
        let dedup_pct = if total_ops > 0 { crate::types::mul_sat(stats.dedup_hits, 100) / total_ops } else { 0 };
        let compress_ratio_pct = if stats.compress_bytes_in > 0 {
            let saved = stats.compress_bytes_in.saturating_sub(stats.compress_bytes_out);
            crate::types::mul_sat(saved, 100) / stats.compress_bytes_in
        } else {
            0
        };
        StorageHealthReport {
            is_ready: storage_is_ready(state),
            write_errors: stats.io_errors,
            read_errors: stats.io_errors,
            checksum_errors: stats.checksum_errors,
            dedup_hit_rate_pct: dedup_pct,
            compress_ratio_pct,
            stats,
        }
    }

    /// True iff the storage is ready and no checksum failed.
    pub fn is_healthy(&self) -> (r: bool)
        ensures
            r == (self.is_ready && self.checksum_errors == 0),
    {
        self.is_ready && self.checksum_errors == 0
    }
}

} // verus!
