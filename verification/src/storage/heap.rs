//! The heap zone of a volume: a façade over the extent allocator.
use vstd::prelude::*;
use crate::types::{DiskOffset, ExofsError, ExofsResult};
use crate::storage::layout::{
    BLOCK_SIZE, HEAP_START_OFFSET, EPOCH_SLOT_C_FROM_END, MIN_DISK_SIZE, LayoutMap, blocks_for_bytes,
    layout_map_spec,
};
use crate::storage::heap_allocator::{
    HeapAllocator, HeapAllocatorView, Extent, AllocationPolicy, alloc_post, free_post, fresh_view,
};
use crate::storage::heap_free_map::{count_free, largest_upto, frag_spec, MAX_MAP_BLOCKS, words_spec};
use crate::storage::heap_free_map::run_count_upto;

verus! {

/// Configuration of a heap.
#[derive(Clone, Copy, Debug)]
pub struct HeapConfig {
    /// First byte of the heap.
    pub heap_start_offset: u64,
    /// End of the heap (exclusive).
    pub heap_end_offset: u64,
    /// Block size (always `BLOCK_SIZE`).
    pub block_size: u64,
    /// Default allocation policy.
    pub policy: AllocationPolicy,
    /// Fragmentation threshold of automatic coalescing, in percent.
    pub auto_coalesce_threshold: u8,
}

/// Number of blocks of the heap described by `c`.
pub open spec fn config_blocks(c: HeapConfig) -> ExofsResult<u64> {
    if c.heap_end_offset < c.heap_start_offset {
        Err(ExofsError::OffsetOverflow)
    } else if c.heap_end_offset - c.heap_start_offset + 4095 > u64::MAX {
        Err(ExofsError::OffsetOverflow)
    } else {
        Ok(((c.heap_end_offset - c.heap_start_offset + 4095) / 4096) as u64)
    }
}

/// The configuration of the heap of a volume of `d` bytes (`d >= MIN_DISK_SIZE`).
pub open spec fn disk_config(d: u64) -> HeapConfig {
    HeapConfig {
        heap_start_offset: HEAP_START_OFFSET,
        heap_end_offset: (d - EPOCH_SLOT_C_FROM_END) as u64,
        block_size: 4096,
        policy: AllocationPolicy::NextFit,
        auto_coalesce_threshold: 15,
    }
}

impl HeapConfig {
    /// The heap of a layout map.
    pub fn from_layout(lm: &LayoutMap) -> (r: ExofsResult<HeapConfig>)
        ensures
            lm.heap_start.0 + lm.heap_len > u64::MAX ==> r == Err::<HeapConfig, ExofsError>(ExofsError::OffsetOverflow),
            lm.heap_start.0 + lm.heap_len <= u64::MAX ==> r == Ok::<HeapConfig, ExofsError>(HeapConfig {
                heap_start_offset: lm.heap_start.0,
                heap_end_offset: (lm.heap_start.0 + lm.heap_len) as u64,
                block_size: 4096,
                policy: AllocationPolicy::NextFit,
                auto_coalesce_threshold: 15,
            }),
    {
        let heap_end = match lm.heap_start.0.checked_add(lm.heap_len) {
            Some(e) => e,
            None => return Err(ExofsError::OffsetOverflow),
        };
        Ok(HeapConfig {
            heap_start_offset: lm.heap_start.0,
            heap_end_offset: heap_end,
            block_size: BLOCK_SIZE,
            policy: AllocationPolicy::NextFit,
            auto_coalesce_threshold: 15,
        })
    }

    /// The heap of a volume of `disk_size_bytes` bytes.
    pub fn from_disk_size(disk_size_bytes: u64) -> (r: ExofsResult<HeapConfig>)
        ensures
            disk_size_bytes < MIN_DISK_SIZE ==> r == Err::<HeapConfig, ExofsError>(ExofsError::InvalidArgument),
            disk_size_bytes >= MIN_DISK_SIZE ==> r == Ok::<HeapConfig, ExofsError>(disk_config(disk_size_bytes)),
    {
        let lm = LayoutMap::new(disk_size_bytes)?;
        Self::from_layout(&lm)
    }

    /// Number of blocks of the heap.
    pub fn total_blocks(&self) -> (r: ExofsResult<u64>)
        ensures
            r == config_blocks(*self),
    {
        if self.heap_end_offset < self.heap_start_offset {
            return Err(ExofsError::OffsetOverflow);
        }
        let heap_len = self.heap_end_offset - self.heap_start_offset;
        blocks_for_bytes(heap_len)
    }
}

/// Statistics of a heap.
#[derive(Clone, Copy, Debug, Default)]
pub struct HeapStats {
    pub total_bytes: u64,
    pub free_bytes: u64,
    pub used_bytes: u64,
    pub total_blocks: u64,
    pub free_blocks: u64,
    pub used_blocks: u64,
    pub fragmentation: u8,
    pub largest_free: u64,
    pub n_allocs: u64,
    pub n_frees: u64,
    pub n_failures: u64,
    pub usage_pct: u64,
}

/// Abstract state of a heap.
pub struct ExofsHeapView {
    pub alloc: HeapAllocatorView,
    pub config: HeapConfig,
    pub auto_coalesce: bool,
    pub frees_since_gc: u64,
    pub coalesce_threshold: u64,
}

/// The heap of a volume.
pub struct ExofsHeap {
    allocator: HeapAllocator,
    config: HeapConfig,
    auto_coalesce: bool,
    frees_since_gc: u64,
    coalesce_threshold: u64,
}

impl View for ExofsHeap {
    type V = ExofsHeapView;

    closed spec fn view(&self) -> ExofsHeapView {
        ExofsHeapView {
            alloc: self.allocator@,
            config: self.config,
            auto_coalesce: self.auto_coalesce,
            frees_since_gc: self.frees_since_gc,
            coalesce_threshold: self.coalesce_threshold,
        }
    }
}

/// The state of a heap freshly made from `config`, whose heap has `total` blocks.
pub open spec fn fresh_heap(config: HeapConfig, total: u64) -> ExofsHeapView {
    ExofsHeapView {
        alloc: fresh_view(config.heap_start_offset, total, config.policy),
        config,
        auto_coalesce: true,
        frees_since_gc: 0,
        coalesce_threshold: 64,
    }
}

/// `from_config` succeeds on `config`.
pub open spec fn config_ok(config: HeapConfig) -> bool {
    config_blocks(config) matches Ok(t) && 0 < t <= MAX_MAP_BLOCKS && words_spec(t) <= usize::MAX
}

impl ExofsHeap {
    /// The allocator is well formed and covers the configured heap.
    pub closed spec fn wf(&self) -> bool {
        &&& self.allocator.wf()
        &&& config_blocks(self.config) == Ok::<u64, ExofsError>(self.allocator@.total_blocks)
        &&& self.allocator@.heap_start == self.config.heap_start_offset
    }

    /// Facts that hold of every well-formed heap.
    pub proof fn lemma_wf(&self)
        requires
            self.wf(),
        ensures
            self@.alloc.map.len() == self@.alloc.total_blocks,
            self@.alloc.total_blocks * 4096 <= u64::MAX,
            config_blocks(self@.config) == Ok::<u64, ExofsError>(self@.alloc.total_blocks),
            self@.alloc.heap_start == self@.config.heap_start_offset,
    {
        self.allocator.lemma_wf();
    }

    /// The heap of a volume of `disk_size_bytes` bytes.
    pub fn new(disk_size_bytes: u64) -> (r: ExofsResult<ExofsHeap>)
        ensures
            disk_size_bytes < MIN_DISK_SIZE ==> r == Err::<ExofsHeap, ExofsError>(ExofsError::InvalidArgument),
            disk_size_bytes >= MIN_DISK_SIZE ==> {
                let c = disk_config(disk_size_bytes);
                &&& config_ok(c) ==> (r matches Ok(h) && h.wf() && h@ == fresh_heap(c, config_blocks(c)->Ok_0))
                &&& !config_ok(c) ==> r == Err::<ExofsHeap, ExofsError>(ExofsError::NoMemory)
            },
    {
        let config = HeapConfig::from_disk_size(disk_size_bytes)?;
        proof {
            assert(config_blocks(config) is Ok);
        }
        Self::from_config(config)
    }

    /// The heap described by `config`.
    pub fn from_config(config: HeapConfig) -> (r: ExofsResult<ExofsHeap>)
        ensures
            config_blocks(config) matches Err(e) ==> r == Err::<ExofsHeap, ExofsError>(e),
            config_blocks(config) == Ok::<u64, ExofsError>(0) ==> r == Err::<ExofsHeap, ExofsError>(ExofsError::InvalidArgument),
            config_blocks(config) matches Ok(t) && t > 0 && !config_ok(config) ==> r == Err::<ExofsHeap, ExofsError>(ExofsError::NoMemory),
            config_ok(config) ==> (r matches Ok(h) && h.wf() && h@ == fresh_heap(config, config_blocks(config)->Ok_0)),
    {
        let total_blocks = config.total_blocks()?;
        let allocator = HeapAllocator::new_with_policy(config.heap_start_offset, total_blocks, config.policy)?;
        Ok(ExofsHeap { allocator, config, auto_coalesce: true, frees_since_gc: 0, coalesce_threshold: 64 })
    }

    /// Allocates `size` bytes with the configured policy.
    pub fn allocate(&mut self, size: u64) -> (r: ExofsResult<Extent>)
        requires
            old(self).wf(),
        ensures
            final(self).wf(),
            alloc_post(old(self)@.alloc, final(self)@.alloc, size, old(self)@.alloc.policy, r),
            final(self)@.config == old(self)@.config,
            final(self)@.auto_coalesce == old(self)@.auto_coalesce,
            final(self)@.frees_since_gc == old(self)@.frees_since_gc,
            final(self)@.coalesce_threshold == old(self)@.coalesce_threshold,
    {
        self.allocator.allocate(size)
    }

    /// Allocates `size` bytes with `policy`.
    pub fn alloc_with_policy(&mut self, size: u64, policy: AllocationPolicy) -> (r: ExofsResult<Extent>)
        requires
            old(self).wf(),
        ensures
            final(self).wf(),
            alloc_post(old(self)@.alloc, final(self)@.alloc, size, policy, r),
            final(self)@.config == old(self)@.config,
            final(self)@.auto_coalesce == old(self)@.auto_coalesce,
            final(self)@.frees_since_gc == old(self)@.frees_since_gc,
            final(self)@.coalesce_threshold == old(self)@.coalesce_threshold,
    {
        self.allocator.alloc_with_policy(size, policy)
    }

    /// Allocates `n_blocks` whole blocks.
    pub fn alloc_blocks(&mut self, n_blocks: u64) -> (r: ExofsResult<Extent>)
        requires
            old(self).wf(),
        ensures
            final(self).wf(),
            n_blocks * 4096 > u64::MAX ==> r == Err::<Extent, ExofsError>(ExofsError::OffsetOverflow) && final(self)@ == old(self)@,
            n_blocks * 4096 <= u64::MAX ==> alloc_post(old(self)@.alloc, final(self)@.alloc, (n_blocks * 4096) as u64, old(self)@.alloc.policy, r),
            final(self)@.config == old(self)@.config,
            final(self)@.auto_coalesce == old(self)@.auto_coalesce,
            final(self)@.frees_since_gc == old(self)@.frees_since_gc,
            final(self)@.coalesce_threshold == old(self)@.coalesce_threshold,
    {
        let size = match n_blocks.checked_mul(BLOCK_SIZE) {
            Some(s) => s,
            None => return Err(ExofsError::OffsetOverflow),
        };
        self.allocator.allocate(size)
    }

    /// Frees an extent; every `coalesce_threshold` frees, when automatic
    /// coalescing is on, the counter restarts (a pass leaves the map unchanged).
    pub fn free(&mut self, extent: Extent) -> (r: ExofsResult<()>)
        requires
            old(self).wf(),
            old(self)@.frees_since_gc < u64::MAX,
        ensures
            final(self).wf(),
            free_post(old(self)@.alloc, final(self)@.alloc, extent, r),
            final(self)@.config == old(self)@.config,
            final(self)@.auto_coalesce == old(self)@.auto_coalesce,
            final(self)@.coalesce_threshold == old(self)@.coalesce_threshold,
            r is Err ==> final(self)@.frees_since_gc == old(self)@.frees_since_gc,
            r is Ok ==> final(self)@.frees_since_gc == (if old(self)@.auto_coalesce
                && old(self)@.frees_since_gc + 1 >= old(self)@.coalesce_threshold { 0 } else { old(self)@.frees_since_gc + 1 }),
    {
        self.allocator.free_extent(extent)?;
        let frees = self.frees_since_gc + 1;
        self.frees_since_gc = frees;
        if self.auto_coalesce && frees >= self.coalesce_threshold {
            self.frees_since_gc = 0;
            let _ = self.allocator.coalesce();
        }
        Ok(())
    }

    /// Runs a coalescing pass.
    pub fn coalesce(&mut self) -> (r: ExofsResult<()>)
        requires
            old(self).wf(),
        ensures
            final(self).wf(),
            final(self)@ == old(self)@,
            r == Ok::<(), ExofsError>(()),
    {
        self.allocator.coalesce()
    }

    /// Turns automatic coalescing on or off.
    pub fn set_auto_coalesce(&mut self, enabled: bool)
        requires
            old(self).wf(),
        ensures
            final(self).wf(),
            final(self)@ == (ExofsHeapView { auto_coalesce: enabled, ..old(self)@ }),
    {
        self.auto_coalesce = enabled;
    }

    /// Free bytes.
    pub fn free_bytes(&self) -> (r: u64)
        requires
            self.wf(),
        ensures
            r == count_free(self@.alloc.map) * 4096,
    {
        proof {
            self.lemma_wf();
        }
        self.allocator.free_bytes()
    }

    /// Bytes allocated and not freed.
    pub fn allocated_bytes(&self) -> (r: u64)
        ensures
            r == self@.alloc.bytes_alloc,
    {
        self.allocator.allocated_bytes()
    }

    /// Size of the heap in bytes (whole blocks); 0 when the configuration is inconsistent.
    pub fn total_bytes(&self) -> (r: u64)
        ensures
            config_blocks(self@.config) matches Ok(t) ==> r == t * 4096,
            config_blocks(self@.config) is Err ==> r == 0,
    {
        match self.config.total_blocks() {
            Ok(b) => {
                proof {
                    let len = self.config.heap_end_offset - self.config.heap_start_offset;
                    assert(((len + 4095) / 4096) * 4096 <= len + 4095) by (nonlinear_arith);
                }
                b * BLOCK_SIZE
            },
            Err(_) => 0,
        }
    }

    /// Number of blocks of the heap.
    pub fn total_blocks(&self) -> (r: u64)
        ensures
            r == self@.alloc.total_blocks,
    {
        self.allocator.total_blocks()
    }

    /// First byte of the heap.
    pub fn heap_start(&self) -> (r: DiskOffset)
        ensures
            r == DiskOffset(self@.config.heap_start_offset),
    {
        DiskOffset(self.config.heap_start_offset)
    }

    /// Share of used blocks in percent.
    pub fn usage_pct(&self) -> (r: u64)
        requires
            self.wf(),
        ensures
            r == (self@.alloc.total_blocks - count_free(self@.alloc.map)) * 100 / (self@.alloc.total_blocks as int),
    {
        self.allocator.usage_pct()
    }

    /// Fragmentation of the free space in percent.
    pub fn fragmentation_pct(&self) -> (r: u8)
        requires
            self.wf(),
        ensures
            r == frag_spec(run_count_upto(self@.alloc.map, self@.alloc.map.len() as int) as int, count_free(self@.alloc.map) as int),
    {
        self.allocator.fragmentation_pct()
    }

    /// Longest free run in bytes.
    pub fn largest_free_extent(&self) -> (r: u64)
        requires
            self.wf(),
        ensures
            r == largest_upto(self@.alloc.map, self@.alloc.map.len() as int) * 4096,
    {
        proof {
            self.lemma_wf();
        }
        self.allocator.largest_free_extent()
    }

    /// Statistics of the heap.
    pub fn stats(&self) -> (r: HeapStats)
        requires
            self.wf(),
        ensures
            r.total_blocks == self@.alloc.total_blocks,
            r.total_bytes == self@.alloc.total_blocks * 4096,
            r.free_bytes == count_free(self@.alloc.map) * 4096,
            r.free_blocks == count_free(self@.alloc.map),
            r.used_bytes == (self@.alloc.total_blocks - count_free(self@.alloc.map)) * 4096,
            r.used_blocks == self@.alloc.total_blocks - count_free(self@.alloc.map),
            r.fragmentation == frag_spec(run_count_upto(self@.alloc.map, self@.alloc.map.len() as int) as int, count_free(self@.alloc.map) as int),
            r.largest_free == largest_upto(self@.alloc.map, self@.alloc.map.len() as int) * 4096,
            r.n_allocs == self@.alloc.n_allocs,
            r.n_frees == self@.alloc.n_frees,
            r.n_failures == self@.alloc.n_failures,
            r.usage_pct == (self@.alloc.total_blocks - count_free(self@.alloc.map)) * 100 / (self@.alloc.total_blocks as int),
    {
        proof {
            self.lemma_wf();
            crate::storage::heap_free_map::lemma_count_bound(self@.alloc.map);
        }
        let total_blocks = self.total_blocks();
        let free_bytes = self.free_bytes();
        let total_bytes = self.total_bytes();
        let used_bytes = total_bytes.saturating_sub(free_bytes);
        let free_blocks = free_bytes / BLOCK_SIZE;
        let used_blocks = total_blocks.saturating_sub(free_blocks);
        let usage_pct = self.usage_pct();
        HeapStats {
            total_bytes,
            free_bytes,
            used_bytes,
            total_blocks,
            free_blocks,
            used_blocks,
            fragmentation: self.fragmentation_pct(),
            largest_free: self.largest_free_extent(),
            n_allocs: self.allocator.n_allocs(),
            n_frees: self.allocator.n_frees(),
            n_failures: self.allocator.n_failures(),
            usage_pct,
        }
    }

    /// True iff the extent lies inside the configured heap.
    pub fn extent_in_bounds(&self, extent: &Extent) -> (r: bool)
        ensures
            r == (extent.offset.0 + extent.size <= u64::MAX && extent.offset.0 >= self@.config.heap_start_offset
                && extent.offset.0 + extent.size <= self@.config.heap_end_offset),
    {
        let start = extent.offset.0;
        let end = match start.checked_add(extent.size) {
            Some(e) => e,
            None => return false,
        };
        start >= self.config.heap_start_offset && end <= self.config.heap_end_offset
    }

    /// Marks every block free again.
    pub fn format(&mut self) -> (r: ExofsResult<()>)
        requires
            old(self).wf(),
        ensures
            final(self).wf(),
            r == Ok::<(), ExofsError>(()),
            final(self)@ == (ExofsHeapView {
                alloc: fresh_view(old(self)@.alloc.heap_start, old(self)@.alloc.total_blocks, old(self)@.alloc.policy),
                frees_since_gc: 0,
                ..old(self)@
            }),
    {
        self.allocator.reset_all_free()?;
        self.frees_since_gc = 0;
        Ok(())
    }

    /// Marks the blocks of `[start_offset, start_offset + size)` used (whole
    /// blocks from the block holding `start_offset`, clamped to the heap).
    pub fn reserve_range(&mut self, start_offset: DiskOffset, size: u64) -> (r: ExofsResult<()>)
        requires
            old(self).wf(),
        ensures
            final(self).wf(),
            start_offset.0 < old(self)@.config.heap_start_offset ==> r == Err::<(), ExofsError>(ExofsError::InvalidArgument)
                && final(self)@ == old(self)@,
            start_offset.0 >= old(self)@.config.heap_start_offset ==> {
                let b = (start_offset.0 - old(self)@.config.heap_start_offset) / 4096;
                let n = size / 4096;
                &&& r == Ok::<(), ExofsError>(())
                &&& final(self)@ == (ExofsHeapView {
                    alloc: HeapAllocatorView {
                        map: crate::storage::heap_free_map::set_range(old(self)@.alloc.map, b,
                            crate::storage::heap_free_map::min_int(crate::storage::heap_free_map::sat_add_u64(b as u64, n as u64), old(self)@.alloc.total_blocks as int), false),
                        ..old(self)@.alloc
                    },
                    ..old(self)@
                })
            },
    {
        if start_offset.0 < self.config.heap_start_offset {
            return Err(ExofsError::InvalidArgument);
        }
        let rel = start_offset.0 - self.config.heap_start_offset;
        let block_start = rel / BLOCK_SIZE;
        let n_blocks = size / BLOCK_SIZE;
        self.allocator.reserve_range(block_start, n_blocks);
        Ok(())
    }
}

/// Bytes needed for `n_blobs` blobs of `blob_size` bytes plus `overhead_pct` percent.
pub fn required_heap_size(n_blobs: u64, blob_size: u64, overhead_pct: u64) -> (r: ExofsResult<u64>)
    ensures
        n_blobs * blob_size > u64::MAX ==> r == Err::<u64, ExofsError>(ExofsError::OffsetOverflow),
        n_blobs * blob_size <= u64::MAX ==> {
            let data = n_blobs * blob_size;
            let over = (data * overhead_pct / 100) % 0x1_0000_0000_0000_0000;
            &&& data + over > u64::MAX ==> r == Err::<u64, ExofsError>(ExofsError::OffsetOverflow)
            &&& data + over <= u64::MAX ==> r == Ok::<u64, ExofsError>((data + over) as u64)
        },
{
    let data_size = match n_blobs.checked_mul(blob_size) {
        Some(d) => d,
        None => return Err(ExofsError::OffsetOverflow),
    };
    proof {
        assert(data_size * overhead_pct <= 0xffff_ffff_ffff_ffff * 0xffff_ffff_ffff_ffffint) by (nonlinear_arith)
            requires data_size <= 0xffff_ffff_ffff_ffffint, overhead_pct <= 0xffff_ffff_ffff_ffffint, data_size >= 0, overhead_pct >= 0;
    }
    let wide: u128 = data_size as u128 * overhead_pct as u128 / 100;
    let overhead = wide as u64;
    proof {
        assert(overhead == wide % 0x1_0000_0000_0000_0000) by (bit_vector)
            requires overhead == wide as u64;
    }
    match data_size.checked_add(overhead) {
        Some(v) => Ok(v),
        None => Err(ExofsError::OffsetOverflow),
    }
}

/// `Ok` iff the heap has at least `size` free bytes, else `NoSpace`.
pub fn check_heap_space(heap: &ExofsHeap, size: u64) -> (r: ExofsResult<()>)
    requires
        heap.wf(),
    ensures
        count_free(heap@.alloc.map) * 4096 >= size ==> r == Ok::<(), ExofsError>(()),
        count_free(heap@.alloc.map) * 4096 < size ==> r == Err::<(), ExofsError>(ExofsError::NoSpace),
{
    if heap.free_bytes() >= size {
        Ok(())
    } else {
        Err(ExofsError::NoSpace)
    }
}

} // verus!
