//! Coalescing of the heap's free runs.
//!
//! Coalescing works on the free-block map only; it never moves data.
use vstd::prelude::*;
use crate::types::ExofsError;
use crate::storage::heap_free_map::{HeapFreeMap, count_free, largest_upto, run_count_upto, frag_spec, free_runs_spec, lemma_runs_separated, lemma_count_bound};

verus! {

/// Outcome of one coalescing pass.
#[derive(Clone, Copy, Debug, Default)]
pub struct CoalesceReport {
    /// Free runs before the pass.
    pub runs_before: u64,
    /// Free runs after the pass.
    pub runs_after: u64,
    /// `runs_before - runs_after`.
    pub merges: u64,
    /// Longest free run after the pass, in blocks.
    pub largest_run: u64,
    /// Free blocks (not changed by a pass).
    pub free_blocks: u64,
    /// Fragmentation after the pass (0..=100).
    pub fragmentation_pct: u8,
}

impl CoalesceReport {
    /// True iff the pass merged at least one run.
    pub fn improved(&self) -> (r: bool)
        ensures
            r == (self.merges > 0),
    {
        self.merges > 0
    }
}

/// Parameters of a pass.
#[derive(Clone, Copy, Debug)]
pub struct CoalesceOptions {
    /// Maximum merges per pass (0 = unlimited).
    pub max_merges: u64,
    /// Fragmentation threshold below which the pass does nothing.
    pub min_frag_pct: u8,
    /// When false the pass only analyses the map.
    pub apply: bool,
}

impl CoalesceOptions {
    /// Default options: unlimited merges, threshold 5 %, applied.
    pub fn default_options() -> (r: CoalesceOptions)
        ensures
            r.max_merges == 0 && r.min_frag_pct == 5 && r.apply,
    {
        CoalesceOptions { max_merges: 0, min_frag_pct: 5, apply: true }
    }

    /// Analysis only: the map is never modified.
    pub fn analyze_only() -> (r: CoalesceOptions)
        ensures
            r.max_merges == 0 && r.min_frag_pct == 5 && !r.apply,
    {
        CoalesceOptions { max_merges: 0, min_frag_pct: 5, apply: false }
    }
}

impl Default for CoalesceOptions {
    fn default() -> (r: CoalesceOptions)
        ensures
            r.max_merges == 0 && r.min_frag_pct == 5 && r.apply,
    {
        CoalesceOptions::default_options()
    }
}

/// A consolidated free segment.
#[derive(Clone, Copy, Debug, PartialEq, Eq, Structural)]
pub struct FreeSegment {
    pub start: u64,
    pub len: u64,
    /// Number of source runs merged into this segment.
    pub merged: u32,
}

/// Number of runs of the map (spec).
pub open spec fn runs_of(m: HeapFreeMap) -> int {
    run_count_upto(m@, m@.len() as int) as int
}

/// The report of a pass on a map that the pass does not change.
pub open spec fn report_of(m: HeapFreeMap, r: CoalesceReport) -> bool {
    &&& r.runs_before == runs_of(m)
    &&& r.runs_after == runs_of(m)
    &&& r.merges == 0
    &&& r.largest_run == largest_upto(m@, m@.len() as int)
    &&& r.free_blocks == count_free(m@)
    &&& r.fragmentation_pct == frag_spec(runs_of(m), count_free(m@) as int)
}

/// Result of `try_merge_buddies`: the number of consecutive orders, starting at
/// `order`, whose buddy block is free.
pub open spec fn buddy_steps(v: Seq<bool>, cur: u64, order: u32, max_order: u32) -> nat
    decreases max_order - order,
{
    if order >= max_order || order >= 64 {
        0
    } else {
        let b = cur ^ (1u64 << order);
        if b >= v.len() || !v[b as int] {
            0
        } else {
            1 + buddy_steps(v, if cur < b { cur } else { b }, (order + 1) as u32, max_order)
        }
    }
}

/// The buddy test of the original allocator, stated on the bits.
pub open spec fn are_buddies_spec(a: u64, b: u64, order: u32) -> bool {
    order < 64 && {
        let size = 1u64 << order;
        let align: int = if size * 2 > u64::MAX { u64::MAX as int } else { size * 2 };
        let mask = (align - 1) as u64;
        let base = a & !mask;
        (a == base && b == base + size) || (b == base && a == base + size)
    }
}

/// Coalescing engine over a `HeapFreeMap`.
pub struct HeapCoalescer;

impl HeapCoalescer {
    /// Runs a pass. The map's free runs are maximal, so no two of them are
    /// adjacent and the pass never changes the map.
    pub fn run(map: &mut HeapFreeMap, opts: &CoalesceOptions) -> (r: Result<CoalesceReport, ExofsError>)
        requires
            old(map).wf(),
        ensures
            *final(map) == *old(map),
            r matches Ok(rep) && report_of(*old(map), rep),
    {
        let frag_before = map.fragmentation_pct();
        if frag_before < opts.min_frag_pct {
            return Ok(CoalesceReport {
                runs_before: map.free_run_count(),
                runs_after: map.free_run_count(),
                merges: 0,
                largest_run: map.largest_free_run(),
                free_blocks: map.free_blocks(),
                fragmentation_pct: frag_before,
            });
        }
        let runs_before = map.free_run_count();
        let segments = Self::consolidate_runs(map, opts)?;
        let ghost m0 = *map;
        if opts.apply {
            let mut merges_done: u64 = 0;
            let mut i: usize = 0;
            while i < segments.len()
                invariant
                    *map == m0,
                    map.wf(),
                    forall|j: int| 0 <= j < segments@.len() ==> #[trigger] segments@[j].merged == 1,
                    merges_done == 0,
                decreases segments.len() - i,
            {
                let seg = segments[i];
                if seg.merged > 1 {
                    map.mark_free(seg.start, seg.len);
                    merges_done = merges_done.saturating_add(1);
                    if opts.max_merges > 0 && merges_done >= opts.max_merges {
                        break;
                    }
                }
                i += 1;
            }
        }
        let runs_after = map.free_run_count();
        let merges = runs_before.saturating_sub(runs_after);
        let largest_run = map.largest_free_run();
        let fragmentation_pct = map.fragmentation_pct();
        Ok(CoalesceReport {
            runs_before,
            runs_after,
            merges,
            largest_run,
            free_blocks: map.free_blocks(),
            fragmentation_pct,
        })
    }

    /// Report of the map without modifying it.
    pub fn analyze(map: &HeapFreeMap) -> (r: CoalesceReport)
        requires
            map.wf(),
        ensures
            report_of(*map, r),
    {
        CoalesceReport {
            runs_before: map.free_run_count(),
            runs_after: map.free_run_count(),
            merges: 0,
            largest_run: map.largest_free_run(),
            free_blocks: map.free_blocks(),
            fragmentation_pct: map.fragmentation_pct(),
        }
    }

    /// Merges adjacent free runs into segments; the runs of a map are never
    /// adjacent, so every segment is one run.
    #[verifier::rlimit(40)]
    fn consolidate_runs(map: &HeapFreeMap, _opts: &CoalesceOptions) -> (r: Result<Vec<FreeSegment>, ExofsError>)
        requires
            map.wf(),
        ensures
            r matches Ok(segs) && segs@.len() == free_runs_spec(map@).len() && forall|j: int|
                0 <= j < segs@.len() ==> (#[trigger] segs@[j]).merged == 1 && segs@[j].start
                    == free_runs_spec(map@)[j].start && segs@[j].len == free_runs_spec(map@)[j].len,
    {
        let runs = map.free_runs()?;
        let mut segments: Vec<FreeSegment> = Vec::new();
        if runs.len() == 0 {
            return Ok(segments);
        }
        proof {
            map.lemma_len();
            lemma_runs_separated(map@, map@.len() as int);
        }
        let ghost rs = runs@;
        let mut current = FreeSegment { start: runs[0].start, len: runs[0].len, merged: 1 };
        let mut i: usize = 1;
        while i < runs.len()
            invariant
                rs == runs@,
                rs == free_runs_spec(map@),
                1 <= i <= runs.len(),
                forall|j: int| 0 <= j < rs.len() - 1 ==> #[trigger] rs[j].start + rs[j].len < rs[j + 1].start,
                forall|j: int| 0 <= j < rs.len() ==> #[trigger] rs[j].start + rs[j].len <= map@.len(),
                map@.len() <= u64::MAX,
                segments@.len() == i - 1,
                current == (FreeSegment { start: rs[i - 1].start, len: rs[i - 1].len, merged: 1 }),
                forall|j: int| 0 <= j < segments@.len() ==> (#[trigger] segments@[j]) == (FreeSegment {
                    start: rs[j].start, len: rs[j].len, merged: 1 }),
            decreases runs.len() - i,
        {
            let run = runs[i];
            let current_end = current.start.saturating_add(current.len);
            if run.start == current_end {
                current.len = current.len.saturating_add(run.len);
                current.merged = current.merged.saturating_add(1);
            } else {
                segments.push(current);
                current = FreeSegment { start: run.start, len: run.len, merged: 1 };
            }
            i += 1;
        }
        segments.push(current);
        Ok(segments)
    }

    /// Buddy of `block` at `order`: `block XOR 2^order`.
    pub fn buddy_of(block: u64, order: u32) -> (r: Option<u64>)
        ensures
            order >= 64 ==> r is None,
            order < 64 ==> r == Some(block ^ (1u64 << order)),
    {
        if order >= 64 {
            return None;
        }
        Some(block ^ (1u64 << order))
    }

    /// True iff `a` and `b` are buddies at `order`.
    pub fn are_buddies(a: u64, b: u64, order: u32) -> (r: bool)
        ensures
            r == are_buddies_spec(a, b, order),
    {
        if order >= 64 {
            return false;
        }
        let size: u64 = 1u64 << order;
        let align: u64 = match size.checked_mul(2) {
            Some(x) => x,
            None => u64::MAX,
        };
        proof {
            assert((1u64 << order) >= 1u64) by (bit_vector)
                requires order < 64;
        }
        let mask = align.saturating_sub(1);
        let base = a & !mask;
        let up = base.checked_add(size);
        match up {
            Some(u) => (a == base && b == u) || (b == base && a == u),
            None => false,
        }
    }

    /// Counts the consecutive orders at which the buddy of the current block is
    /// free; the map itself is not changed.
    pub fn try_merge_buddies(map: &mut HeapFreeMap, block: u64, max_order: u32) -> (r: u64)
        requires
            old(map).wf(),
        ensures
            *final(map) == *old(map),
            r == buddy_steps(old(map)@, block, 0, max_order),
    {
        let mut current = block;
        let mut merges: u64 = 0;
        let mut order: u32 = 0;
        let ghost v = map@;
        proof {
            map.lemma_len();
        }
        while order < max_order
            invariant
                map.wf(),
                v == map@,
                v.len() == map.total_spec(),
                merges + buddy_steps(v, current, order, max_order) == buddy_steps(v, block, 0, max_order),
                merges <= order,
            ensures
                merges == buddy_steps(v, block, 0, max_order),
            decreases max_order - order,
        {
            let buddy = match Self::buddy_of(current, order) {
                Some(b) => {
                    if b < map.total_blocks() {
                        b
                    } else {
                        break;
                    }
                },
                None => break,
            };
            if !map.is_free(buddy) {
                break;
            }
            merges = merges + 1;
            current = if current < buddy { current } else { buddy };
            order += 1;
        }
        merges
    }

    /// True iff the fragmentation reaches `threshold_pct`.
    pub fn should_coalesce(map: &HeapFreeMap, threshold_pct: u8) -> (r: bool)
        requires
            map.wf(),
        ensures
            r == (frag_spec(runs_of(*map), count_free(map@) as int) >= threshold_pct),
    {
        map.fragmentation_pct() >= threshold_pct
    }

    /// Estimated gain of a pass: (adjacent runs, free blocks in runs). Runs are
    /// maximal, so the first component is always 0.
    pub fn estimate_gain(map: &HeapFreeMap) -> (r: (u64, u64))
        requires
            map.wf(),
        ensures
            runs_of(*map) <= 1 ==> r == (0u64, 0u64),
            runs_of(*map) > 1 ==> r == (0u64, count_free(map@) as u64),
    {
        let runs_before = map.free_run_count();
        if runs_before <= 1 {
            return (0, 0);
        }
        let ghost v = map@;
        let mut merges: u64 = 0;
        let mut blocks_merged: u64 = 0;
        let mut prev_end: Option<u64> = None;
        let mut run_start: u64 = 0;
        let mut in_run = false;
        let total = map.total_blocks();
        proof {
            map.lemma_len();
        }
        let mut b: u64 = 0;
        while b < total
            invariant
                map.wf(),
                v == map@,
                v.len() == map.total_spec(),
                total == v.len(),
                b <= total,
                merges == 0,
                in_run == (b > 0 && v[b - 1]),
                in_run ==> run_start < b,
                prev_end matches Some(pe) ==> pe < b && !v[pe as int],
                blocks_merged + (if in_run { b - run_start } else { 0 }) == count_free(v.subrange(0, b as int)),
            decreases total - b,
        {
            proof {
                assert(v.subrange(0, b + 1).drop_last() =~= v.subrange(0, b as int));
                lemma_count_bound(v.subrange(0, b as int));
            }
            if map.is_free(b) {
                if !in_run {
                    if let Some(pe) = prev_end {
                        if pe == b {
                            merges = merges.saturating_add(1);
                        }
                    }
                    run_start = b;
                    in_run = true;
                }
            } else if in_run {
                blocks_merged = blocks_merged.saturating_add(b - run_start);
                prev_end = Some(b);
                in_run = false;
            } else {
                prev_end = prev_end;
            }
            b += 1;
        }
        proof {
            assert(v.subrange(0, total as int) =~= v);
            lemma_count_bound(v);
        }
        if in_run {
            blocks_merged = blocks_merged.saturating_add(total - run_start);
        }
        (merges, blocks_merged)
    }
}

} // verus!
