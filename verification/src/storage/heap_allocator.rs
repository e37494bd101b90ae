//! Allocator of physical extents inside the heap zone.
//!
//! The allocator keeps a `HeapFreeMap` of the heap's 4 KB blocks and hands
//! out runs of contiguous free blocks according to a search policy.
use vstd::prelude::*;
use crate::types::{DiskOffset, ExofsError, ExofsResult};
use crate::storage::layout::BLOCK_SIZE;
use crate::storage::heap_free_map::{
    HeapFreeMap, FreeRun, first_fit_from, has_run_from, free_runs_spec, set_range, count_free,
    largest_upto, frag_spec, MAX_MAP_BLOCKS, words_spec, run_count_upto,
};
use crate::storage::heap_coalesce::{CoalesceOptions, HeapCoalescer, runs_of};

verus! {

/// An extent allocated on the volume.
#[derive(Clone, Copy, Debug, PartialEq, Eq, Structural)]
pub struct Extent {
    /// First byte of the extent.
    pub offset: DiskOffset,
    /// Size in bytes (a multiple of `BLOCK_SIZE` when valid).
    pub size: u64,
}

impl Extent {
    /// End offset (exclusive); fails when it does not fit in 64 bits.
    pub fn end(&self) -> (r: ExofsResult<DiskOffset>)
        ensures
            self.offset.0 + self.size <= u64::MAX ==> r == Ok::<DiskOffset, ExofsError>(DiskOffset((self.offset.0 + self.size) as u64)),
            self.offset.0 + self.size > u64::MAX ==> r == Err::<DiskOffset, ExofsError>(ExofsError::OffsetOverflow),
    {
        match self.offset.0.checked_add(self.size) {
            Some(e) => Ok(DiskOffset(e)),
            None => Err(ExofsError::OffsetOverflow),
        }
    }

    /// Number of whole 4 KB blocks in the extent.
    pub fn block_count(&self) -> (r: u64)
        ensures
            r == self.size / 4096,
    {
        self.size / BLOCK_SIZE
    }

    /// An extent is valid when its size is positive and a multiple of 4 KB.
    pub fn is_valid(&self) -> (r: bool)
        ensures
            r == (self.size > 0 && self.size % 4096 == 0),
    {
        self.size > 0 && self.size % BLOCK_SIZE == 0
    }
}

/// Search policy for free blocks.
#[derive(Clone, Copy, Debug, PartialEq, Eq, Structural)]
pub enum AllocationPolicy {
    /// First fit from block 0.
    FirstFit,
    /// First fit from the position of the previous allocation, wrapping to block 0.
    NextFit,
    /// The shortest free run that is long enough (first such run on ties).
    BestFit,
}

impl Default for AllocationPolicy {
    fn default() -> (r: AllocationPolicy)
        ensures
            r == AllocationPolicy::NextFit,
    {
        AllocationPolicy::NextFit
    }
}

/// `runs[i]` is the best fit for `n` blocks: long enough, no longer than any
/// other long-enough run, and strictly shorter than every long-enough run before it.
pub open spec fn best_fit_at(runs: Seq<FreeRun>, n: int, i: int) -> bool {
    &&& 0 <= i < runs.len()
    &&& runs[i].len >= n
    &&& forall|j: int| 0 <= j < runs.len() && #[trigger] runs[j].len >= n ==> runs[i].len <= runs[j].len
    &&& forall|j: int| 0 <= j < i && #[trigger] runs[j].len >= n ==> runs[i].len < runs[j].len
}

/// `r` is the best-fit answer for `n` blocks among `runs`.
pub open spec fn best_fit_ok(runs: Seq<FreeRun>, n: int, r: Option<u64>) -> bool {
    match r {
        None => forall|j: int| 0 <= j < runs.len() ==> #[trigger] runs[j].len < n,
        Some(s) => exists|i: int| best_fit_at(runs, n, i) && #[trigger] runs[i].start == s,
    }
}

/// `r` is the answer of `policy` for `n >= 1` blocks on the map `v`, with
/// `hint` the first block of the previous allocation.
pub open spec fn policy_pick(v: Seq<bool>, n: int, policy: AllocationPolicy, hint: u64, r: Option<u64>) -> bool {
    match policy {
        AllocationPolicy::FirstFit => first_fit_from(v, n, 0, r),
        AllocationPolicy::NextFit => {
            &&& has_run_from(v, n, hint as int) ==> first_fit_from(v, n, hint as int, r)
            &&& !has_run_from(v, n, hint as int) && hint > 0 ==> first_fit_from(v, n, 0, r)
            &&& !has_run_from(v, n, hint as int) && hint == 0 ==> r is None
        },
        AllocationPolicy::BestFit => best_fit_ok(free_runs_spec(v), n, r),
    }
}

/// Counter increment of a 64-bit statistics counter (wraps at `u64::MAX`).
pub open spec fn wrap_add(a: u64, b: u64) -> u64 {
    if a + b > u64::MAX { (a + b - u64::MAX - 1) as u64 } else { (a + b) as u64 }
}

/// The abstract state of an allocator.
pub struct HeapAllocatorView {
    /// Free flags of the heap's blocks.
    pub map: Seq<bool>,
    /// First block of the previous allocation (next-fit hint).
    pub last_alloc: u64,
    /// Allocations since the last coalescing pass.
    pub allocs_since_coalesce: u64,
    pub heap_start: u64,
    pub block_size: u64,
    pub policy: AllocationPolicy,
    pub total_blocks: u64,
    pub n_allocs: u64,
    pub n_frees: u64,
    pub n_failures: u64,
    pub bytes_alloc: u64,
}

/// What an allocation of `n` blocks does to the allocator once `pick` is
/// the first block chosen, or `None` when no run fits.
pub open spec fn picked_outcome(old: HeapAllocatorView, new: HeapAllocatorView, n: int, pick: Option<u64>, r: ExofsResult<Extent>) -> bool {
    match pick {
        None => r == Err::<Extent, ExofsError>(ExofsError::NoSpace) && new == (HeapAllocatorView {
            n_failures: wrap_add(old.n_failures, 1),
            ..old
        }),
        Some(b) => {
            let marked = HeapAllocatorView {
                map: set_range(old.map, b as int, b + n, false),
                last_alloc: b,
                allocs_since_coalesce: wrap_sat(old.allocs_since_coalesce),
                ..old
            };
            if b * 4096 + old.heap_start > u64::MAX {
                r == Err::<Extent, ExofsError>(ExofsError::OffsetOverflow) && new == marked
            } else {
                &&& r == Ok::<Extent, ExofsError>(Extent { offset: DiskOffset((old.heap_start + b * 4096) as u64), size: (n * 4096) as u64 })
                &&& new == (HeapAllocatorView {
                    n_allocs: wrap_add(old.n_allocs, 1),
                    bytes_alloc: wrap_add(old.bytes_alloc, (n * 4096) as u64),
                    ..marked
                })
            }
        },
    }
}

/// What an allocation of `size` bytes with `policy` does to the allocator.
pub open spec fn alloc_post(
    old: HeapAllocatorView,
    new: HeapAllocatorView,
    size: u64,
    policy: AllocationPolicy,
    r: ExofsResult<Extent>,
) -> bool {
    if size == 0 {
        r == Err::<Extent, ExofsError>(ExofsError::InvalidArgument) && new == old
    } else if size + 4095 > u64::MAX {
        r == Err::<Extent, ExofsError>(ExofsError::OffsetOverflow) && new == old
    } else {
        let n = (size + 4095) / 4096;
        exists|pick: Option<u64>| #[trigger] policy_pick(old.map, n, policy, old.last_alloc, pick)
            && picked_outcome(old, new, n, pick, r)
    }
}

/// `a + 1` clamped to `u64::MAX`.
pub open spec fn wrap_sat(a: u64) -> u64 {
    if a == u64::MAX { a } else { (a + 1) as u64 }
}

/// The extent is refused by `free_extent`.
pub open spec fn free_refused(s: HeapAllocatorView, e: Extent) -> bool {
    ||| !(e.size > 0 && e.size % 4096 == 0)
    ||| e.offset.0 < s.heap_start
    ||| (e.offset.0 - s.heap_start) % 4096 != 0
    ||| (e.offset.0 - s.heap_start) / 4096 + e.size / 4096 > s.total_blocks
}

/// The allocator after freeing the extent `e` (unchanged when `e` is refused).
pub open spec fn free_apply(old: HeapAllocatorView, e: Extent) -> HeapAllocatorView {
    if free_refused(old, e) {
        old
    } else {
        let b = (e.offset.0 - old.heap_start) / 4096;
        HeapAllocatorView {
            map: set_range(old.map, b, b + e.size / 4096, true),
            n_frees: wrap_add(old.n_frees, 1),
            bytes_alloc: (old.bytes_alloc - (if old.bytes_alloc < e.size { old.bytes_alloc } else { e.size })) as u64,
            ..old
        }
    }
}

/// What freeing the extent `e` does to the allocator.
pub open spec fn free_post(old: HeapAllocatorView, new: HeapAllocatorView, e: Extent, r: ExofsResult<()>) -> bool {
    &&& new == free_apply(old, e)
    &&& free_refused(old, e) ==> r == Err::<(), ExofsError>(ExofsError::InvalidArgument)
    &&& !free_refused(old, e) ==> r == Ok::<(), ExofsError>(())
}

struct HeapAllocatorState {
    free_map: HeapFreeMap,
    last_alloc: u64,
    allocs_since_coalesce: u64,
}

impl HeapAllocatorState {
    fn new(total_blocks: u64) -> (r: Result<HeapAllocatorState, ExofsError>)
        ensures
            r matches Ok(s) ==> s.free_map.wf() && s.free_map.total_spec() == total_blocks
                && s.free_map@ == Seq::new(total_blocks as nat, |i: int| true)
                && s.last_alloc == 0 && s.allocs_since_coalesce == 0,
            total_blocks == 0 ==> r == Err::<HeapAllocatorState, ExofsError>(ExofsError::InvalidArgument),
            total_blocks > 0 && (total_blocks > MAX_MAP_BLOCKS || words_spec(total_blocks) > usize::MAX)
                ==> r == Err::<HeapAllocatorState, ExofsError>(ExofsError::NoMemory),
            0 < total_blocks <= MAX_MAP_BLOCKS && words_spec(total_blocks) <= usize::MAX ==> r is Ok,
    {
        let free_map = HeapFreeMap::new(total_blocks)?;
        Ok(HeapAllocatorState { free_map, last_alloc: 0, allocs_since_coalesce: 0 })
    }

    fn find_blocks(&self, n_blocks: u64, policy: AllocationPolicy) -> (r: Option<u64>)
        requires
            self.free_map.wf(),
            n_blocks >= 1,
        ensures
            policy_pick(self.free_map@, n_blocks as int, policy, self.last_alloc, r),
    {
        match policy {
            AllocationPolicy::FirstFit => self.free_map.find_free_run(n_blocks),
            AllocationPolicy::NextFit => self.free_map.find_free_run_hint(n_blocks, self.last_alloc),
            AllocationPolicy::BestFit => self.best_fit(n_blocks),
        }
    }

    fn best_fit(&self, n_blocks: u64) -> (r: Option<u64>)
        requires
            self.free_map.wf(),
        ensures
            best_fit_ok(free_runs_spec(self.free_map@), n_blocks as int, r),
    {
        let runs = match self.free_map.free_runs() {
            Ok(r) => r,
            Err(_) => return None,
        };
        let ghost rs = runs@;
        proof {
            self.free_map.lemma_len();
            crate::storage::heap_free_map::lemma_runs_separated(self.free_map@, self.free_map@.len() as int);
        }
        let mut best_start: Option<u64> = None;
        let mut best_len: u64 = u64::MAX;
        let mut best_idx: Ghost<int> = Ghost(0);
        let mut i: usize = 0;
        while i < runs.len()
            invariant
                rs == runs@,
                rs == free_runs_spec(self.free_map@),
                0 <= i <= runs.len(),
                forall|j: int| 0 <= j < rs.len() ==> #[trigger] rs[j].len < u64::MAX,
                best_start is None ==> best_len == u64::MAX && forall|j: int| 0 <= j < i ==> #[trigger] rs[j].len < n_blocks,
                best_start is Some ==> {
                    &&& 0 <= best_idx@ < i
                    &&& rs[best_idx@].start == best_start->0
                    &&& rs[best_idx@].len == best_len
                    &&& rs[best_idx@].len >= n_blocks
                    &&& forall|j: int| 0 <= j < i && #[trigger] rs[j].len >= n_blocks ==> best_len <= rs[j].len
                    &&& forall|j: int| 0 <= j < best_idx@ && #[trigger] rs[j].len >= n_blocks ==> best_len < rs[j].len
                },
            decreases runs.len() - i,
        {
            let run = runs[i];
            if run.len >= n_blocks && run.len < best_len {
                best_len = run.len;
                best_start = Some(run.start);
                best_idx = Ghost(i as int);
            }
            i += 1;
        }
        proof {
            if best_start is Some {
                assert(best_fit_at(rs, n_blocks as int, best_idx@));
            }
        }
        best_start
    }
}

/// Allocator of blocks inside the heap.
pub struct HeapAllocator {
    state: HeapAllocatorState,
    heap_start: u64,
    block_size: u64,
    policy: AllocationPolicy,
    total_blocks: u64,
    n_allocs: u64,
    n_frees: u64,
    n_failures: u64,
    bytes_alloc: u64,
}

impl View for HeapAllocator {
    type V = HeapAllocatorView;

    closed spec fn view(&self) -> HeapAllocatorView {
        HeapAllocatorView {
            map: self.state.free_map@,
            last_alloc: self.state.last_alloc,
            allocs_since_coalesce: self.state.allocs_since_coalesce,
            heap_start: self.heap_start,
            block_size: self.block_size,
            policy: self.policy,
            total_blocks: self.total_blocks,
            n_allocs: self.n_allocs,
            n_frees: self.n_frees,
            n_failures: self.n_failures,
            bytes_alloc: self.bytes_alloc,
        }
    }
}

impl HeapAllocator {
    /// The free map is consistent and covers exactly `total_blocks` blocks of 4 KB.
    pub closed spec fn wf(&self) -> bool {
        &&& self.state.free_map.wf()
        &&& self.state.free_map.total_spec() == self.total_blocks
        &&& self.block_size == 4096
    }

    /// The free map itself (spec).
    pub closed spec fn free_map_spec(&self) -> HeapFreeMap {
        self.state.free_map
    }

    /// Facts that hold of every well-formed allocator.
    pub proof fn lemma_wf(&self)
        requires
            self.wf(),
        ensures
            self@.map.len() == self@.total_blocks,
            0 < self@.total_blocks <= MAX_MAP_BLOCKS,
            self@.block_size == 4096,
            self.free_map_spec().wf(),
            self.free_map_spec()@ == self@.map,
            self.free_map_spec().total_spec() == self@.total_blocks,
    {
        self.state.free_map.lemma_len();
    }

    /// An allocator of `total_blocks` free blocks starting at byte `heap_start`,
    /// with the next-fit policy.
    pub fn new(heap_start: u64, total_blocks: u64) -> (r: Result<HeapAllocator, ExofsError>)
        ensures
            total_blocks == 0 ==> r == Err::<HeapAllocator, ExofsError>(ExofsError::InvalidArgument),
            total_blocks > 0 && (total_blocks > MAX_MAP_BLOCKS || words_spec(total_blocks) > usize::MAX)
                ==> r == Err::<HeapAllocator, ExofsError>(ExofsError::NoMemory),
            0 < total_blocks <= MAX_MAP_BLOCKS && words_spec(total_blocks) <= usize::MAX ==> (r matches Ok(a) && a.wf()
                && a@ == fresh_view(heap_start, total_blocks, AllocationPolicy::NextFit)),
    {
        let state = HeapAllocatorState::new(total_blocks)?;
        Ok(HeapAllocator {
            state,
            heap_start,
            block_size: BLOCK_SIZE,
            policy: AllocationPolicy::NextFit,
            total_blocks,
            n_allocs: 0,
            n_frees: 0,
            n_failures: 0,
            bytes_alloc: 0,
        })
    }

    /// As `new`, with an explicit policy.
    pub fn new_with_policy(heap_start: u64, total_blocks: u64, policy: AllocationPolicy) -> (r: Result<HeapAllocator, ExofsError>)
        ensures
            total_blocks == 0 ==> r == Err::<HeapAllocator, ExofsError>(ExofsError::InvalidArgument),
            total_blocks > 0 && (total_blocks > MAX_MAP_BLOCKS || words_spec(total_blocks) > usize::MAX)
                ==> r == Err::<HeapAllocator, ExofsError>(ExofsError::NoMemory),
            0 < total_blocks <= MAX_MAP_BLOCKS && words_spec(total_blocks) <= usize::MAX ==> (r matches Ok(a) && a.wf()
                && a@ == fresh_view(heap_start, total_blocks, policy)),
    {
        let mut alloc = Self::new(heap_start, total_blocks)?;
        alloc.policy = policy;
        Ok(alloc)
    }

    /// Allocates `size` bytes, rounded up to whole blocks, with the default policy.
    pub fn allocate(&mut self, size: u64) -> (r: ExofsResult<Extent>)
        requires
            old(self).wf(),
        ensures
            final(self).wf(),
            alloc_post(old(self)@, final(self)@, size, old(self)@.policy, r),
    {
        let policy = self.policy;
        self.alloc_with_policy(size, policy)
    }

    /// Allocates `size` bytes, rounded up to whole blocks, with `policy`.
    pub fn alloc_with_policy(&mut self, size: u64, policy: AllocationPolicy) -> (r: ExofsResult<Extent>)
        requires
            old(self).wf(),
        ensures
            final(self).wf(),
            alloc_post(old(self)@, final(self)@, size, policy, r),
    {
        if size == 0 {
            return Err(ExofsError::InvalidArgument);
        }
        let alloc_size = round_up_blocks(size, self.block_size)?;
        let n_blocks = alloc_size / self.block_size;
        proof {
            assert(n_blocks == (size + 4095) / 4096);
            assert(n_blocks >= 1);
        }
        let ghost old_view = self@;
        if HeapCoalescer::should_coalesce(&self.state.free_map, 15) {
            let opts = CoalesceOptions { apply: true, ..CoalesceOptions::default_options() };
            let _ = HeapCoalescer::run(&mut self.state.free_map, &opts);
        }
        assert(self@ == old_view);
        let block_start = match self.state.find_blocks(n_blocks, policy) {
            Some(b) => b,
            None => {
                self.n_failures = self.n_failures.wrapping_add(1);
                assert(policy_pick(old_view.map, n_blocks as int, policy, old_view.last_alloc, None));
                return Err(ExofsError::NoSpace);
            },
        };
        let ghost pick = Some(block_start);
        proof {
            assert(policy_pick(old_view.map, n_blocks as int, policy, old_view.last_alloc, pick));
            self.state.free_map.lemma_len();
            lemma_pick_fits(old_view.map, n_blocks as int, policy, old_view.last_alloc, block_start);
        }
        self.state.free_map.mark_used(block_start, n_blocks);
        self.state.last_alloc = block_start;
        self.state.allocs_since_coalesce = self.state.allocs_since_coalesce.saturating_add(1);
        let block_offset = match block_start.checked_mul(self.block_size) {
            Some(o) => o,
            None => return Err(ExofsError::OffsetOverflow),
        };
        let disk_offset = match self.heap_start.checked_add(block_offset) {
            Some(o) => DiskOffset(o),
            None => return Err(ExofsError::OffsetOverflow),
        };
        self.n_allocs = self.n_allocs.wrapping_add(1);
        self.bytes_alloc = self.bytes_alloc.wrapping_add(alloc_size);
        Ok(Extent { offset: disk_offset, size: alloc_size })
    }

    /// Frees a previously allocated extent.
    pub fn free_extent(&mut self, extent: Extent) -> (r: ExofsResult<()>)
        requires
            old(self).wf(),
        ensures
            final(self).wf(),
            free_post(old(self)@, final(self)@, extent, r),
    {
        if !extent.is_valid() {
            return Err(ExofsError::InvalidArgument);
        }
        if extent.offset.0 < self.heap_start {
            return Err(ExofsError::InvalidArgument);
        }
        let rel_offset = extent.offset.0 - self.heap_start;
        if rel_offset % self.block_size != 0 {
            return Err(ExofsError::InvalidArgument);
        }
        let block_start = rel_offset / self.block_size;
        let n_blocks = extent.size / self.block_size;
        if block_start.saturating_add(n_blocks) > self.total_blocks {
            return Err(ExofsError::InvalidArgument);
        }
        self.state.free_map.mark_free(block_start, n_blocks);
        let _ = HeapCoalescer::try_merge_buddies(&mut self.state.free_map, block_start, 14);
        self.n_frees = self.n_frees.wrapping_add(1);
        let cur = self.bytes_alloc;
        let dec = if cur < extent.size { cur } else { extent.size };
        self.bytes_alloc = cur - dec;
        Ok(())
    }

    /// Free bytes of the heap.
    pub fn free_bytes(&self) -> (r: u64)
        requires
            self.wf(),
            self@.total_blocks * 4096 <= u64::MAX,
        ensures
            r == count_free(self@.map) * 4096,
    {
        proof {
            crate::storage::heap_free_map::lemma_count_bound(self.state.free_map@);
            self.state.free_map.lemma_len();
        }
        self.state.free_map.free_blocks() * self.block_size
    }

    /// Bytes allocated and not yet freed, as counted by the allocator.
    pub fn allocated_bytes(&self) -> (r: u64)
        ensures
            r == self@.bytes_alloc,
    {
        self.bytes_alloc
    }

    /// Number of blocks of the heap.
    pub fn total_blocks(&self) -> (r: u64)
        ensures
            r == self@.total_blocks,
    {
        self.total_blocks
    }

    /// Size of a block in bytes.
    pub fn block_size(&self) -> (r: u64)
        ensures
            r == self@.block_size,
    {
        self.block_size
    }

    /// Successful allocations.
    pub fn n_allocs(&self) -> (r: u64)
        ensures
            r == self@.n_allocs,
    {
        self.n_allocs
    }

    /// Successful frees.
    pub fn n_frees(&self) -> (r: u64)
        ensures
            r == self@.n_frees,
    {
        self.n_frees
    }

    /// Allocations refused for lack of space.
    pub fn n_failures(&self) -> (r: u64)
        ensures
            r == self@.n_failures,
    {
        self.n_failures
    }

    /// Share of used blocks in percent.
    pub fn usage_pct(&self) -> (r: u64)
        requires
            self.wf(),
        ensures
            r == (self@.total_blocks - count_free(self@.map)) * 100 / (self@.total_blocks as int),
    {
        self.state.free_map.used_pct()
    }

    /// Fragmentation of the free space in percent.
    pub fn fragmentation_pct(&self) -> (r: u8)
        requires
            self.wf(),
        ensures
            r == frag_spec(run_count_upto(self@.map, self@.map.len() as int) as int, count_free(self@.map) as int),
    {
        self.state.free_map.fragmentation_pct()
    }

    /// Longest free run, in bytes.
    pub fn largest_free_extent(&self) -> (r: u64)
        requires
            self.wf(),
            self@.total_blocks * 4096 <= u64::MAX,
        ensures
            r == largest_upto(self@.map, self@.map.len() as int) * 4096,
    {
        let n = self.state.free_map.largest_free_run();
        proof {
            self.state.free_map.lemma_len();
            crate::storage::heap_free_map::lemma_largest_bound(self.state.free_map@, self.state.free_map@.len() as int);
        }
        n * self.block_size
    }

    /// Runs a coalescing pass; the free map is left as it is.
    pub fn coalesce(&mut self) -> (r: ExofsResult<()>)
        requires
            old(self).wf(),
        ensures
            final(self).wf(),
            final(self)@ == old(self)@,
            r == Ok::<(), ExofsError>(()),
    {
        let opts = CoalesceOptions { apply: true, ..CoalesceOptions::default_options() };
        match HeapCoalescer::run(&mut self.state.free_map, &opts) {
            Ok(_) => Ok(()),
            Err(e) => Err(e),
        }
    }

    /// Marks every block free again and clears the counters.
    pub fn reset_all_free(&mut self) -> (r: ExofsResult<()>)
        requires
            old(self).wf(),
        ensures
            final(self).wf(),
            r == Ok::<(), ExofsError>(()),
            final(self)@ == fresh_view(old(self)@.heap_start, old(self)@.total_blocks, old(self)@.policy),
    {
        proof {
            self.state.free_map.lemma_len();
            self.state.free_map.lemma_words_len();
        }
        let st = HeapAllocatorState::new(self.total_blocks)?;
        self.state = st;
        self.n_allocs = 0;
        self.n_frees = 0;
        self.n_failures = 0;
        self.bytes_alloc = 0;
        Ok(())
    }

    /// Marks `[start_block, start_block + n_blocks)` used (clamped to the heap).
    pub fn reserve_range(&mut self, start_block: u64, n_blocks: u64)
        requires
            old(self).wf(),
        ensures
            final(self).wf(),
            final(self)@ == (HeapAllocatorView {
                map: set_range(old(self)@.map, start_block as int,
                    crate::storage::heap_free_map::min_int(crate::storage::heap_free_map::sat_add_u64(start_block, n_blocks), old(self)@.total_blocks as int), false),
                ..old(self)@
            }),
    {
        self.state.free_map.mark_used(start_block, n_blocks);
    }
}

/// The state of a freshly made allocator.
pub open spec fn fresh_view(heap_start: u64, total_blocks: u64, policy: AllocationPolicy) -> HeapAllocatorView {
    HeapAllocatorView {
        map: Seq::new(total_blocks as nat, |i: int| true),
        last_alloc: 0,
        allocs_since_coalesce: 0,
        heap_start,
        block_size: 4096,
        policy,
        total_blocks,
        n_allocs: 0,
        n_frees: 0,
        n_failures: 0,
        bytes_alloc: 0,
    }
}

proof fn lemma_pick_fits(v: Seq<bool>, n: int, policy: AllocationPolicy, hint: u64, b: u64)
    requires
        policy_pick(v, n, policy, hint, Some(b)),
        n >= 1,
        v.len() <= u64::MAX,
    ensures
        b + n <= v.len(),
        forall|j: int| b <= j < b + n ==> #[trigger] v[j],
{
    match policy {
        AllocationPolicy::BestFit => {
            let runs = free_runs_spec(v);
            let i = choose|i: int| best_fit_at(runs, n, i) && #[trigger] runs[i].start == b;
            crate::storage::heap_free_map::lemma_runs_separated(v, v.len() as int);
            crate::storage::heap_free_map::lemma_runs_free(v, v.len() as int);
            assert forall|j: int| b <= j < b + n implies #[trigger] v[j] by {
                assert(runs[i].start <= j < runs[i].start + runs[i].len);
            }
        },
        _ => {},
    }
}

/// Freeing the extent that `allocate` handed out gives back the free map as
/// it was before the allocation.
pub proof fn lemma_free_undoes_allocate(
    s0: HeapAllocatorView,
    s1: HeapAllocatorView,
    size: u64,
    policy: AllocationPolicy,
    e: Extent,
)
    requires
        s0.map.len() == s0.total_blocks,
        alloc_post(s0, s1, size, policy, Ok(e)),
    ensures
        !free_refused(s1, e),
        free_apply(s1, e).map == s0.map,
{
    let n = (size + 4095) / 4096;
    let pick = choose|pick: Option<u64>| #[trigger] policy_pick(s0.map, n, policy, s0.last_alloc, pick)
        && picked_outcome(s0, s1, n, pick, Ok(e));
    let b = pick->0;
    assert(n >= 1);
    lemma_pick_fits(s0.map, n, policy, s0.last_alloc, b);
    assert((b * 4096) % 4096 == 0 && (b * 4096) / 4096 == b) by (nonlinear_arith);
    assert((n * 4096) % 4096 == 0 && (n * 4096) / 4096 == n && n * 4096 > 0) by (nonlinear_arith)
        requires n >= 1;
    let m1 = set_range(s0.map, b as int, b + n, false);
    assert(set_range(m1, b as int, b + n, true) =~= s0.map);
}

/// Rounds `size` up to a multiple of `block_size` (a power of two).
fn round_up_blocks(size: u64, block_size: u64) -> (r: ExofsResult<u64>)
    requires
        block_size == 4096,
    ensures
        size + 4095 <= u64::MAX ==> r == Ok::<u64, ExofsError>((((size + 4095) / 4096) * 4096) as u64),
        size + 4095 > u64::MAX ==> r == Err::<u64, ExofsError>(ExofsError::OffsetOverflow),
{
    let mask = block_size - 1;
    match size.checked_add(mask) {
        Some(v) => {
            proof {
                crate::storage::layout::lemma_mask_4096(v);
            }
            Ok(v & !mask)
        },
        None => Err(ExofsError::OffsetOverflow),
    }
}

} // verus!
