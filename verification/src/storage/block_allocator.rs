//! Block allocator: extents with a reserve → commit → free life cycle.
use vstd::prelude::*;
use crate::types::{DiskOffset, ExofsError, ExofsResult};
use crate::storage::heap_allocator::{
    Extent, HeapAllocator, HeapAllocatorView, AllocationPolicy, alloc_post, free_apply, free_post,
    wrap_add, fresh_view,
};
use crate::storage::heap_free_map::{count_free, frag_spec, run_count_upto, MAX_MAP_BLOCKS, words_spec};

verus! {

/// Life-cycle state of an extent.
#[derive(Clone, Copy, Debug, PartialEq, Eq, Structural)]
pub enum ExtentState {
    /// Allocated, not yet written.
    Reserved,
    /// Written and persisted.
    Committed,
    /// Released; waiting to be returned to the heap.
    Freed,
}

/// An extent with its life-cycle state.
#[derive(Clone, Copy, Debug, PartialEq, Eq, Structural)]
pub struct ExtentHandle {
    pub extent: Extent,
    pub state: ExtentState,
    /// Bytes actually written in the extent.
    pub written: u64,
}

impl ExtentHandle {
    /// A reserved handle with nothing written.
    pub fn new(extent: Extent) -> (r: ExtentHandle)
        ensures
            r == (ExtentHandle { extent, state: ExtentState::Reserved, written: 0 }),
    {
        ExtentHandle { extent, state: ExtentState::Reserved, written: 0 }
    }

    /// Marks the handle committed with `bytes_written` bytes.
    pub fn commit(&mut self, bytes_written: u64)
        ensures
            *final(self) == (ExtentHandle { written: bytes_written, state: ExtentState::Committed, ..*old(self) }),
    {
        self.written = bytes_written;
        self.state = ExtentState::Committed;
    }

    /// Marks the handle freed.
    pub fn free_it(&mut self)
        ensures
            *final(self) == (ExtentHandle { state: ExtentState::Freed, ..*old(self) }),
    {
        self.state = ExtentState::Freed;
    }

    /// Share of the extent that was written, in percent (at most 100).
    pub fn fill_pct(&self) -> (r: u64)
        ensures
            self.extent.size == 0 ==> r == 0,
            self.extent.size > 0 ==> r == (if self.written * 100 / (self.extent.size as int) > 100 { 100 } else {
                self.written * 100 / (self.extent.size as int) }),
    {
        if self.extent.size == 0 {
            return 0;
        }
        let q: u128 = self.written as u128 * 100 / self.extent.size as u128;
        if q > 100 { 100 } else { q as u64 }
    }
}

/// Parameters of an allocation.
#[derive(Clone, Copy, Debug)]
pub struct BlockAllocRequest {
    /// Size in bytes (rounded up to whole blocks).
    pub size: u64,
    pub policy: AllocationPolicy,
    /// Requested alignment (0 = none); not used by the allocator.
    pub align: u64,
}

impl Default for BlockAllocRequest {
    fn default() -> (r: BlockAllocRequest)
        ensures
            r.size == 0 && r.policy == AllocationPolicy::NextFit && r.align == 0,
    {
        BlockAllocRequest { size: 0, policy: AllocationPolicy::NextFit, align: 0 }
    }
}

impl BlockAllocRequest {
    /// A request of `size` bytes with the default policy.
    pub fn of_size(size: u64) -> (r: BlockAllocRequest)
        ensures
            r.size == size && r.policy == AllocationPolicy::NextFit && r.align == 0,
    {
        BlockAllocRequest { size, policy: AllocationPolicy::NextFit, align: 0 }
    }
}

/// Removing the freed handles of `s` from index `i` on, each by a swap with
/// the last handle: the handles left and the extents removed, in order.
pub open spec fn drain_spec(s: Seq<ExtentHandle>, i: int) -> (Seq<ExtentHandle>, Seq<Extent>)
    decreases s.len() - i,
{
    if i < 0 || i >= s.len() {
        (s, Seq::empty())
    } else if s[i].state == ExtentState::Freed {
        let rest = drain_spec(s.update(i, s.last()).drop_last(), i);
        (rest.0, seq![s[i].extent] + rest.1)
    } else {
        drain_spec(s, i + 1)
    }
}

/// Index of the first handle at `off` (and, when `st` is given, in state `st`).
pub open spec fn first_at(s: Seq<ExtentHandle>, off: DiskOffset, st: Option<ExtentState>, i: int) -> bool {
    &&& 0 <= i < s.len()
    &&& s[i].extent.offset == off
    &&& (st matches Some(x) ==> s[i].state == x)
    &&& forall|j: int| 0 <= j < i ==> !(#[trigger] s[j].extent.offset == off && (st matches Some(x) ==> s[j].state == x))
}

/// The first handle at `off` is unique.
pub proof fn lemma_first_unique(s: Seq<ExtentHandle>, off: DiskOffset, st: Option<ExtentState>, i: int)
    requires
        first_at(s, off, st, i),
    ensures
        forall|k: int| #[trigger] first_at(s, off, st, k) ==> k == i,
{
    assert forall|k: int| #[trigger] first_at(s, off, st, k) implies k == i by {
        if k < i {
            assert(!(s[k].extent.offset == off && (st matches Some(x) ==> s[k].state == x)));
        } else if k > i {
            assert(!(s[i].extent.offset == off && (st matches Some(x) ==> s[i].state == x)));
        }
    }
}

/// No handle at `off` (in state `st` when given).
pub open spec fn none_at(s: Seq<ExtentHandle>, off: DiskOffset, st: Option<ExtentState>) -> bool {
    forall|j: int| 0 <= j < s.len() ==> !(#[trigger] s[j].extent.offset == off && (st matches Some(x) ==> s[j].state == x))
}

struct BlockAllocatorState {
    handles: Vec<ExtentHandle>,
}

impl BlockAllocatorState {
    fn new() -> (r: BlockAllocatorState)
        ensures
            r.handles@ == Seq::<ExtentHandle>::empty(),
    {
        BlockAllocatorState { handles: Vec::new() }
    }

    fn push(&mut self, handle: ExtentHandle) -> (r: ExofsResult<()>)
        ensures
            final(self).handles@ == old(self).handles@.push(handle),
            r == Ok::<(), ExofsError>(()),
    {
        self.handles.push(handle);
        Ok(())
    }

    fn drain_freed(&mut self) -> (r: Vec<Extent>)
        ensures
            (final(self).handles@, r@) == drain_spec(old(self).handles@, 0),
    {
        let mut freed: Vec<Extent> = Vec::new();
        let mut i: usize = 0;
        let ghost orig = self.handles@;
        while i < self.handles.len()
            invariant
                drain_spec(orig, 0) == ({
                    let rest = drain_spec(self.handles@, i as int);
                    (rest.0, freed@ + rest.1)
                }),
            decreases self.handles.len() - i,
        {
            if self.handles[i].state == ExtentState::Freed {
                let ghost before = self.handles@;
                let h = self.handles.swap_remove(i);
                proof {
                    assert(self.handles@ == before.update(i as int, before.last()).drop_last());
                    assert(freed@.push(h.extent) + drain_spec(self.handles@, i as int).1 == freed@ + (seq![h.extent]
                        + drain_spec(self.handles@, i as int).1));
                }
                freed.push(h.extent);
            } else {
                i += 1;
            }
        }
        proof {
            assert(freed@ + Seq::<Extent>::empty() == freed@);
        }
        freed
    }
}

/// Abstract state of a block allocator.
pub struct BlockAllocatorView {
    pub heap: HeapAllocatorView,
    pub handles: Seq<ExtentHandle>,
    pub n_allocs: u64,
    pub n_commits: u64,
    pub n_rollbacks: u64,
    pub bytes_commit: u64,
}

/// Allocator of extents for the object and blob writers.
pub struct BlockAllocator {
    heap: HeapAllocator,
    state: BlockAllocatorState,
    n_allocs: u64,
    n_commits: u64,
    n_rollbacks: u64,
    bytes_commit: u64,
}

impl View for BlockAllocator {
    type V = BlockAllocatorView;

    closed spec fn view(&self) -> BlockAllocatorView {
        BlockAllocatorView {
            heap: self.heap@,
            handles: self.state.handles@,
            n_allocs: self.n_allocs,
            n_commits: self.n_commits,
            n_rollbacks: self.n_rollbacks,
            bytes_commit: self.bytes_commit,
        }
    }
}

impl BlockAllocator {
    /// The heap allocator is well formed.
    pub closed spec fn wf(&self) -> bool {
        self.heap.wf()
    }

    /// A block allocator over a fresh heap allocator.
    pub fn new(heap_start: u64, total_blocks: u64) -> (r: ExofsResult<BlockAllocator>)
        ensures
            total_blocks == 0 ==> r == Err::<BlockAllocator, ExofsError>(ExofsError::InvalidArgument),
            total_blocks > 0 && (total_blocks > MAX_MAP_BLOCKS || words_spec(total_blocks) > usize::MAX)
                ==> r == Err::<BlockAllocator, ExofsError>(ExofsError::NoMemory),
            0 < total_blocks <= MAX_MAP_BLOCKS && words_spec(total_blocks) <= usize::MAX ==> (r matches Ok(a) && a.wf()
                && a@ == (BlockAllocatorView {
                    heap: fresh_view(heap_start, total_blocks, AllocationPolicy::NextFit),
                    handles: Seq::empty(),
                    n_allocs: 0,
                    n_commits: 0,
                    n_rollbacks: 0,
                    bytes_commit: 0,
                })),
    {
        let heap = HeapAllocator::new(heap_start, total_blocks)?;
        Ok(BlockAllocator {
            heap,
            state: BlockAllocatorState::new(),
            n_allocs: 0,
            n_commits: 0,
            n_rollbacks: 0,
            bytes_commit: 0,
        })
    }

    /// Allocates `size` bytes with the default policy and tracks the extent as reserved.
    pub fn alloc_extent(&mut self, size: u64) -> (r: ExofsResult<Extent>)
        requires
            old(self).wf(),
        ensures
            final(self).wf(),
            alloc_post(old(self)@.heap, final(self)@.heap, size, AllocationPolicy::NextFit, r),
            r matches Ok(e) ==> final(self)@ == (BlockAllocatorView {
                heap: final(self)@.heap,
                handles: old(self)@.handles.push(ExtentHandle { extent: e, state: ExtentState::Reserved, written: 0 }),
                n_allocs: wrap_add(old(self)@.n_allocs, 1),
                ..old(self)@
            }),
            r is Err ==> final(self)@ == (BlockAllocatorView { heap: final(self)@.heap, ..old(self)@ }),
    {
        let req = BlockAllocRequest::of_size(size);
        self.alloc_with_request(&req)
    }

    /// Allocates according to `req` and tracks the extent as reserved.
    pub fn alloc_with_request(&mut self, req: &BlockAllocRequest) -> (r: ExofsResult<Extent>)
        requires
            old(self).wf(),
        ensures
            final(self).wf(),
            alloc_post(old(self)@.heap, final(self)@.heap, req.size, req.policy, r),
            r matches Ok(e) ==> final(self)@ == (BlockAllocatorView {
                heap: final(self)@.heap,
                handles: old(self)@.handles.push(ExtentHandle { extent: e, state: ExtentState::Reserved, written: 0 }),
                n_allocs: wrap_add(old(self)@.n_allocs, 1),
                ..old(self)@
            }),
            r is Err ==> final(self)@ == (BlockAllocatorView { heap: final(self)@.heap, ..old(self)@ }),
    {
        if req.size == 0 {
            return Err(ExofsError::InvalidArgument);
        }
        let extent = self.heap.alloc_with_policy(req.size, req.policy)?;
        let handle = ExtentHandle::new(extent);
        self.state.push(handle)?;
        self.n_allocs = self.n_allocs.wrapping_add(1);
        Ok(extent)
    }

    /// Index of the first handle at `offset` (in state `st` when given).
    fn find_handle(&self, offset: DiskOffset, st: Option<ExtentState>) -> (r: Option<usize>)
        ensures
            r matches Some(i) ==> first_at(self@.handles, offset, st, i as int),
            r is None ==> none_at(self@.handles, offset, st),
    {
        let mut i: usize = 0;
        while i < self.state.handles.len()
            invariant
                forall|j: int| 0 <= j < i ==> !(#[trigger] self.state.handles@[j].extent.offset == offset
                    && (st matches Some(x) ==> self.state.handles@[j].state == x)),
            decreases self.state.handles.len() - i,
        {
            let h = self.state.handles[i];
            let state_ok = match st {
                Some(x) => h.state == x,
                None => true,
            };
            if h.extent.offset == offset && state_ok {
                return Some(i);
            }
            i += 1;
        }
        None
    }

    /// Commits the first handle at `offset`; it must be reserved.
    pub fn commit_extent(&mut self, offset: DiskOffset, bytes_written: u64) -> (r: ExofsResult<()>)
        requires
            old(self).wf(),
        ensures
            final(self).wf(),
            none_at(old(self)@.handles, offset, None) ==> r == Err::<(), ExofsError>(ExofsError::NotFound)
                && final(self)@ == old(self)@,
            forall|i: int| #[trigger] first_at(old(self)@.handles, offset, None, i) ==> {
                let h = old(self)@.handles[i];
                &&& h.state != ExtentState::Reserved ==> r == Err::<(), ExofsError>(ExofsError::InvalidArgument)
                    && final(self)@ == old(self)@
                &&& h.state == ExtentState::Reserved ==> r == Ok::<(), ExofsError>(()) && final(self)@ == (BlockAllocatorView {
                    handles: old(self)@.handles.update(i, ExtentHandle { written: bytes_written, state: ExtentState::Committed, ..h }),
                    n_commits: wrap_add(old(self)@.n_commits, 1),
                    bytes_commit: wrap_add(old(self)@.bytes_commit, bytes_written),
                    ..old(self)@
                })
            },
    {
        match self.find_handle(offset, None) {
            None => Err(ExofsError::NotFound),
            Some(i) => {
                proof {
                    lemma_first_unique(self@.handles, offset, None, i as int);
                }
                let mut h = self.state.handles[i];
                if h.state == ExtentState::Reserved {
                    h.commit(bytes_written);
                    self.state.handles.set(i, h);
                    self.n_commits = self.n_commits.wrapping_add(1);
                    self.bytes_commit = self.bytes_commit.wrapping_add(bytes_written);
                    Ok(())
                } else {
                    Err(ExofsError::InvalidArgument)
                }
            },
        }
    }

    /// Cancels the first reserved handle at `offset`: it becomes freed and its
    /// extent goes back to the heap.
    pub fn rollback_extent(&mut self, offset: DiskOffset) -> (r: ExofsResult<()>)
        requires
            old(self).wf(),
        ensures
            final(self).wf(),
            none_at(old(self)@.handles, offset, Some(ExtentState::Reserved)) ==> r == Err::<(), ExofsError>(ExofsError::NotFound)
                && final(self)@ == old(self)@,
            forall|i: int| #[trigger] first_at(old(self)@.handles, offset, Some(ExtentState::Reserved), i) ==> {
                let h = old(self)@.handles[i];
                let heap_r = free_post(old(self)@.heap, final(self)@.heap, h.extent, r);
                &&& heap_r
                &&& final(self)@.handles == old(self)@.handles.update(i, ExtentHandle { state: ExtentState::Freed, ..h })
                &&& final(self)@.n_rollbacks == (if r is Ok { wrap_add(old(self)@.n_rollbacks, 1) } else { old(self)@.n_rollbacks })
                &&& final(self)@.n_allocs == old(self)@.n_allocs
                &&& final(self)@.n_commits == old(self)@.n_commits
                &&& final(self)@.bytes_commit == old(self)@.bytes_commit
            },
    {
        match self.find_handle(offset, Some(ExtentState::Reserved)) {
            None => Err(ExofsError::NotFound),
            Some(i) => {
                proof {
                    lemma_first_unique(self@.handles, offset, Some(ExtentState::Reserved), i as int);
                }
                let mut h = self.state.handles[i];
                let ext = h.extent;
                h.free_it();
                self.state.handles.set(i, h);
                self.heap.free_extent(ext)?;
                self.n_rollbacks = self.n_rollbacks.wrapping_add(1);
                Ok(())
            },
        }
    }

    /// Frees the first committed handle at `offset`, returning its extent to
    /// the heap, then drops every freed handle. A freed handle's extent went
    /// back to the heap when the handle was freed, so it is not freed again.
    pub fn free_committed(&mut self, offset: DiskOffset) -> (r: ExofsResult<()>)
        requires
            old(self).wf(),
        ensures
            final(self).wf(),
            none_at(old(self)@.handles, offset, Some(ExtentState::Committed)) ==> {
                let d = drain_spec(old(self)@.handles, 0);
                &&& r == Err::<(), ExofsError>(ExofsError::NotFound)
                &&& final(self)@ == (BlockAllocatorView { handles: d.0, ..old(self)@ })
            },
            forall|i: int| #[trigger] first_at(old(self)@.handles, offset, Some(ExtentState::Committed), i) ==> {
                let h = old(self)@.handles[i];
                let d = drain_spec(old(self)@.handles.update(i, ExtentHandle { state: ExtentState::Freed, ..h }), 0);
                &&& r == Ok::<(), ExofsError>(())
                &&& final(self)@ == (BlockAllocatorView { heap: free_apply(old(self)@.heap, h.extent), handles: d.0, ..old(self)@ })
            },
    {
        let found = self.find_handle(offset, Some(ExtentState::Committed));
        if let Some(i) = found {
            proof {
                lemma_first_unique(self@.handles, offset, Some(ExtentState::Committed), i as int);
            }
            let mut h = self.state.handles[i];
            h.free_it();
            self.state.handles.set(i, h);
            let _ = self.heap.free_extent(h.extent);
        }
        let _ = self.state.drain_freed();
        if found.is_some() {
            Ok(())
        } else {
            Err(ExofsError::NotFound)
        }
    }

    /// Drops the freed handles and returns their count. Their extents went
    /// back to the heap when they were freed (rollback or release), so the
    /// heap is left as it is: a block reused since is not freed twice.
    pub fn gc_freed_handles(&mut self) -> (r: ExofsResult<u64>)
        requires
            old(self).wf(),
        ensures
            final(self).wf(),
            ({
                let d = drain_spec(old(self)@.handles, 0);
                &&& r == Ok::<u64, ExofsError>(d.1.len() as u64)
                &&& final(self)@ == (BlockAllocatorView { handles: d.0, ..old(self)@ })
            }),
    {
        let freed = self.state.drain_freed();
        let count = freed.len() as u64;
        Ok(count)
    }

    /// Free bytes of the heap.
    pub fn free_bytes(&self) -> (r: u64)
        requires
            self.wf(),
            self@.heap.total_blocks * 4096 <= u64::MAX,
        ensures
            r == count_free(self@.heap.map) * 4096,
    {
        self.heap.free_bytes()
    }

    /// Number of blocks of the heap.
    pub fn total_blocks(&self) -> (r: u64)
        ensures
            r == self@.heap.total_blocks,
    {
        self.heap.total_blocks()
    }

    /// Successful allocations.
    pub fn n_allocs(&self) -> (r: u64)
        ensures
            r == self@.n_allocs,
    {
        self.n_allocs
    }

    /// Successful commits.
    pub fn n_commits(&self) -> (r: u64)
        ensures
            r == self@.n_commits,
    {
        self.n_commits
    }

    /// Successful rollbacks.
    pub fn n_rollbacks(&self) -> (r: u64)
        ensures
            r == self@.n_rollbacks,
    {
        self.n_rollbacks
    }

    /// Bytes committed.
    pub fn bytes_committed(&self) -> (r: u64)
        ensures
            r == self@.bytes_commit,
    {
        self.bytes_commit
    }

    /// Number of tracked handles.
    pub fn active_handles(&self) -> (r: usize)
        ensures
            r == self@.handles.len(),
    {
        self.state.handles.len()
    }

    /// Fragmentation of the heap in percent.
    pub fn fragmentation_pct(&self) -> (r: u8)
        requires
            self.wf(),
        ensures
            r == frag_spec(run_count_upto(self@.heap.map, self@.heap.map.len() as int) as int, count_free(self@.heap.map) as int),
    {
        self.heap.fragmentation_pct()
    }

    /// Share of used blocks in percent.
    pub fn usage_pct(&self) -> (r: u64)
        requires
            self.wf(),
        ensures
            r == (self@.heap.total_blocks - count_free(self@.heap.map)) * 100 / (self@.heap.total_blocks as int),
    {
        self.heap.usage_pct()
    }

    /// Runs a coalescing pass of the heap.
    pub fn coalesce(&mut self) -> (r: ExofsResult<()>)
        requires
            old(self).wf(),
        ensures
            final(self).wf(),
            final(self)@ == old(self)@,
            r == Ok::<(), ExofsError>(()),
    {
        self.heap.coalesce()
    }
}

} // verus!
