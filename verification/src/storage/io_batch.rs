//! Batches of I/O operations: sorted by offset, contiguous writes merged,
//! then submitted one by one to caller-supplied reader and writer.
use vstd::prelude::*;
use crate::types::{DiskOffset, ExofsError, ExofsResult};

verus! {

/// Maximum number of operations in a batch.
pub const MAX_BATCH_OPS: usize = 256;

/// Maximum size of a merged write before it stops growing (4 MB).
pub const MAX_COALESCE_BYTES: u64 = 4194304;

/// Upper bound on the gap, in bytes, between two writes that coalescing may
/// join. Joining over a gap would write bytes that no caller asked for, so
/// `coalesce_writes` joins only writes with no gap between them.
pub const COALESCE_GAP_THRESHOLD: u64 = 4096;

/// Kind of an operation.
#[derive(Clone, Debug)]
pub enum IoOpKind {
    /// Read `len` bytes.
    Read { len: u64 },
    /// Write the bytes of `data`.
    Write { data: Vec<u8> },
}

/// An elementary operation.
#[derive(Clone, Debug)]
pub struct IoOp {
    pub offset: DiskOffset,
    pub kind: IoOpKind,
    /// Priority (lower is more urgent).
    pub prio: u8,
}

/// Abstract view of an operation.
pub struct IoOpView {
    pub offset: u64,
    pub write: bool,
    /// Bytes to read, or bytes to write.
    pub len: nat,
    /// Bytes to write (empty for a read).
    pub data: Seq<u8>,
    pub prio: u8,
}

/// The view of an operation.
pub open spec fn op_view(op: IoOp) -> IoOpView {
    match op.kind {
        IoOpKind::Read { len } => IoOpView { offset: op.offset.0, write: false, len: len as nat, data: Seq::empty(), prio: op.prio },
        IoOpKind::Write { data } => IoOpView { offset: op.offset.0, write: true, len: data@.len(), data: data@, prio: op.prio },
    }
}

/// The views of a sequence of operations.
pub open spec fn ops_view(s: Seq<IoOp>) -> Seq<IoOpView> {
    s.map_values(|o: IoOp| op_view(o))
}

impl IoOp {
    /// A read of `len` bytes at `offset`, priority 128.
    pub fn read(offset: DiskOffset, len: u64) -> (r: IoOp)
        ensures
            op_view(r) == (IoOpView { offset: offset.0, write: false, len: len as nat, data: Seq::empty(), prio: 128 }),
    {
        IoOp { offset, kind: IoOpKind::Read { len }, prio: 128 }
    }

    /// A write of `data` at `offset`, priority 128.
    pub fn write(offset: DiskOffset, data: Vec<u8>) -> (r: IoOp)
        ensures
            op_view(r) == (IoOpView { offset: offset.0, write: true, len: data@.len(), data: data@, prio: 128 }),
    {
        IoOp { offset, kind: IoOpKind::Write { data }, prio: 128 }
    }

    /// The same operation with priority `prio`.
    pub fn with_prio(self, prio: u8) -> (r: IoOp)
        ensures
            op_view(r) == (IoOpView { prio, ..op_view(self) }),
    {
        let mut s = self;
        s.prio = prio;
        s
    }

    /// True iff the operation writes.
    pub fn is_write(&self) -> (r: bool)
        ensures
            r == op_view(*self).write,
    {
        match self.kind {
            IoOpKind::Write { .. } => true,
            IoOpKind::Read { .. } => false,
        }
    }

    /// True iff the operation reads.
    pub fn is_read(&self) -> (r: bool)
        ensures
            r == !op_view(*self).write,
    {
        match self.kind {
            IoOpKind::Read { .. } => true,
            IoOpKind::Write { .. } => false,
        }
    }

    /// Bytes read or written.
    pub fn byte_count(&self) -> (r: u64)
        ensures
            r == op_view(*self).len,
    {
        match &self.kind {
            IoOpKind::Read { len } => *len,
            IoOpKind::Write { data } => data.len() as u64,
        }
    }

    /// End offset; `None` when it does not fit in 64 bits.
    pub fn end_offset(&self) -> (r: Option<DiskOffset>)
        ensures
            op_view(*self).offset + op_view(*self).len <= u64::MAX ==> r == Some(DiskOffset((op_view(*self).offset + op_view(*self).len) as u64)),
            op_view(*self).offset + op_view(*self).len > u64::MAX ==> r is None,
    {
        let bc = self.byte_count();
        match self.offset.0.checked_add(bc) {
            Some(e) => Some(DiskOffset(e)),
            None => None,
        }
    }
}

/// Outcome of one submitted operation.
#[derive(Clone, Copy, Debug)]
pub struct IoOpResult {
    pub offset: DiskOffset,
    pub bytes_done: u64,
    pub success: bool,
    pub error: Option<ExofsError>,
}

impl IoOpResult {
    fn ok(offset: DiskOffset, bytes_done: u64) -> (r: IoOpResult)
        ensures
            r == (IoOpResult { offset, bytes_done, success: true, error: None }),
    {
        IoOpResult { offset, bytes_done, success: true, error: None }
    }

    fn err(offset: DiskOffset, e: ExofsError) -> (r: IoOpResult)
        ensures
            r == (IoOpResult { offset, bytes_done: 0, success: false, error: Some(e) }),
    {
        IoOpResult { offset, bytes_done: 0, success: false, error: Some(e) }
    }
}

/// Counters of one or several batches.
#[derive(Clone, Copy, Debug)]
pub struct BatchStats {
    pub ops_submitted: u64,
    pub ops_succeeded: u64,
    pub ops_failed: u64,
    pub bytes_written: u64,
    pub bytes_read: u64,
    pub coalesce_merges: u64,
    pub total_batches: u64,
}

/// `a + b` clamped to `u64::MAX`.
pub open spec fn sat(a: u64, b: u64) -> u64 {
    if a + b > u64::MAX { u64::MAX } else { (a + b) as u64 }
}

/// Field-wise saturating sum of two counters.
pub open spec fn merge_spec(a: BatchStats, b: BatchStats) -> BatchStats {
    BatchStats {
        ops_submitted: sat(a.ops_submitted, b.ops_submitted),
        ops_succeeded: sat(a.ops_succeeded, b.ops_succeeded),
        ops_failed: sat(a.ops_failed, b.ops_failed),
        bytes_written: sat(a.bytes_written, b.bytes_written),
        bytes_read: sat(a.bytes_read, b.bytes_read),
        coalesce_merges: sat(a.coalesce_merges, b.coalesce_merges),
        total_batches: sat(a.total_batches, b.total_batches),
    }
}

/// All counters zero.
pub open spec fn zero_stats() -> BatchStats {
    BatchStats {
        ops_submitted: 0,
        ops_succeeded: 0,
        ops_failed: 0,
        bytes_written: 0,
        bytes_read: 0,
        coalesce_merges: 0,
        total_batches: 0,
    }
}

impl Default for BatchStats {
    fn default() -> (r: BatchStats)
        ensures
            r == zero_stats(),
    {
        BatchStats {
            ops_submitted: 0,
            ops_succeeded: 0,
            ops_failed: 0,
            bytes_written: 0,
            bytes_read: 0,
            coalesce_merges: 0,
            total_batches: 0,
        }
    }
}

impl BatchStats {
    /// Field-wise saturating sum.
    pub fn merge(&self, other: &BatchStats) -> (r: BatchStats)
        ensures
            r == merge_spec(*self, *other),
    {
        BatchStats {
            ops_submitted: self.ops_submitted.saturating_add(other.ops_submitted),
            ops_succeeded: self.ops_succeeded.saturating_add(other.ops_succeeded),
            ops_failed: self.ops_failed.saturating_add(other.ops_failed),
            bytes_written: self.bytes_written.saturating_add(other.bytes_written),
            bytes_read: self.bytes_read.saturating_add(other.bytes_read),
            coalesce_merges: self.coalesce_merges.saturating_add(other.coalesce_merges),
            total_batches: self.total_batches.saturating_add(other.total_batches),
        }
    }
}

// ── Ordering and merging, stated on views ───────────────────────────────────

/// First index at or after `p` whose offset exceeds `off` (or the length).
pub open spec fn first_greater(s: Seq<IoOpView>, off: u64, p: int) -> int
    decreases s.len() - p,
{
    if p < 0 || p >= s.len() || s[p].offset > off { if p < 0 { 0 } else { p } } else { first_greater(s, off, p + 1) }
}

/// Stable sort by offset: each operation goes after every earlier one with
/// an offset not above its own.
pub open spec fn sort_spec(s: Seq<IoOpView>) -> Seq<IoOpView>
    decreases s.len(),
{
    if s.len() == 0 {
        s
    } else {
        let r = sort_spec(s.drop_last());
        r.insert(first_greater(r, s.last().offset, 0), s.last())
    }
}

/// Grows a merged write that starts at `start` with bytes `acc`, taking the
/// writes from index `j` on: returns where it stopped, the bytes and the
/// number of writes taken.
pub open spec fn grow(s: Seq<IoOpView>, j: int, start: u64, acc: Seq<u8>) -> (int, Seq<u8>, nat)
    decreases s.len() - j,
{
    if j < 0 || j >= s.len() || acc.len() > MAX_COALESCE_BYTES || !s[j].write {
        (j, acc, 0)
    } else {
        let expected: int = if start + acc.len() > u64::MAX { u64::MAX as int } else { start + acc.len() };
        if s[j].offset != expected {
            (j, acc, 0)
        } else {
            let r = grow(s, j + 1, start, acc + s[j].data);
            (r.0, r.1, r.2 + 1)
        }
    }
}

/// The writes merged from index `i` on, with the number of merges.
pub open spec fn coalesce_spec(s: Seq<IoOpView>, i: int) -> (Seq<IoOpView>, nat)
    decreases s.len() - i,
{
    if i < 0 || i >= s.len() {
        (Seq::empty(), 0)
    } else if !s[i].write {
        let r = coalesce_spec(s, i + 1);
        (seq![s[i]] + r.0, r.1)
    } else {
        let g = grow(s, i + 1, s[i].offset, s[i].data);
        proof {
            lemma_grow_ahead(s, i + 1, s[i].offset, s[i].data);
        }
        let r = coalesce_spec(s, g.0);
        (seq![IoOpView { offset: s[i].offset, write: true, len: g.1.len(), data: g.1, prio: 128 }] + r.0, g.2 + r.1)
    }
}

/// Growing a merged write never goes backwards nor past the end.
pub proof fn lemma_grow_ahead(s: Seq<IoOpView>, j: int, start: u64, acc: Seq<u8>)
    requires
        0 <= j,
    ensures
        grow(s, j, start, acc).0 >= j,
        grow(s, j, start, acc).0 <= if j > s.len() { j } else { s.len() as int },
    decreases s.len() - j,
{
    if !(j < 0 || j >= s.len() || acc.len() > MAX_COALESCE_BYTES || !s[j].write) {
        let expected: int = if start + acc.len() > u64::MAX { u64::MAX as int } else { start + acc.len() };
        if s[j].offset == expected {
            lemma_grow_ahead(s, j + 1, start, acc + s[j].data);
        }
    }
}

/// `op` was submitted with outcome `res`, `wf` being the writer and `rf` the reader.
pub open spec fn op_outcome<F, G>(op: IoOpView, res: IoOpResult, wf: F, rf: G) -> bool
    where
        F: Fn(&[u8], DiskOffset) -> ExofsResult<usize>,
        G: Fn(DiskOffset, &mut [u8]) -> ExofsResult<usize>,
{
    let off = DiskOffset(op.offset);
    if op.write {
        ||| exists|b: &[u8], n: usize| #[trigger] call_ensures(wf, (b, off), Ok::<usize, ExofsError>(n)) && b@ == op.data && {
            ||| (n == op.len && res == IoOpResult { offset: off, bytes_done: n as u64, success: true, error: None })
            ||| (n != op.len && res == IoOpResult { offset: off, bytes_done: 0, success: false, error: Some(ExofsError::ShortWrite) })
        }
        ||| exists|b: &[u8], e: ExofsError| #[trigger] call_ensures(wf, (b, off), Err::<usize, ExofsError>(e)) && b@ == op.data
            && res == (IoOpResult { offset: off, bytes_done: 0, success: false, error: Some(e) })
    } else {
        ||| exists|b: &mut [u8], n: usize| #[trigger] call_ensures(rf, (off, b), Ok::<usize, ExofsError>(n))
            && res == (IoOpResult { offset: off, bytes_done: n as u64, success: true, error: None })
        ||| exists|b: &mut [u8], e: ExofsError| #[trigger] call_ensures(rf, (off, b), Err::<usize, ExofsError>(e))
            && res == (IoOpResult { offset: off, bytes_done: 0, success: false, error: Some(e) })
    }
}

/// Counters of the first `k` outcomes of the operations `ops`.
pub open spec fn tally(ops: Seq<IoOpView>, res: Seq<IoOpResult>, k: int) -> BatchStats
    decreases k,
{
    if k <= 0 {
        zero_stats()
    } else {
        let p = tally(ops, res, k - 1);
        let r = res[k - 1];
        BatchStats {
            ops_submitted: sat(p.ops_submitted, 1),
            ops_succeeded: if r.success { sat(p.ops_succeeded, 1) } else { p.ops_succeeded },
            ops_failed: if r.success { p.ops_failed } else { sat(p.ops_failed, 1) },
            bytes_written: if r.success && ops[k - 1].write { sat(p.bytes_written, r.bytes_done) } else { p.bytes_written },
            bytes_read: if r.success && !ops[k - 1].write { sat(p.bytes_read, r.bytes_done) } else { p.bytes_read },
            ..p
        }
    }
}

/// Abstract state of a batch.
pub struct IoBatchView {
    pub ops: Seq<IoOpView>,
    pub submitted: bool,
    pub coalesce: bool,
    pub sort_offsets: bool,
}

/// The operations of a batch once sorted and merged as configured, with the
/// number of merges.
pub open spec fn prepared(b: IoBatchView) -> (Seq<IoOpView>, nat) {
    let s1 = if b.sort_offsets { sort_spec(b.ops) } else { b.ops };
    if b.coalesce && s1.len() >= 2 { coalesce_spec(s1, 0) } else { (s1, 0) }
}

/// A successful submission of the unsubmitted, non-empty batch `b` gives
/// `results` and `stats`.
pub open spec fn submit_outcome<F, G>(b: IoBatchView, wf: F, rf: G, results: Seq<IoOpResult>, stats: BatchStats) -> bool
    where
        F: Fn(&[u8], DiskOffset) -> ExofsResult<usize>,
        G: Fn(DiskOffset, &mut [u8]) -> ExofsResult<usize>,
{
    let p = prepared(b);
    &&& results.len() == p.0.len()
    &&& forall|i: int| 0 <= i < results.len() ==> op_outcome(p.0[i], #[trigger] results[i], wf, rf)
    &&& stats == (BatchStats { total_batches: 1, coalesce_merges: p.1 as u64, ..tally(p.0, results, results.len() as int) })
}

/// A batch of operations.
pub struct IoBatch {
    ops: Vec<IoOp>,
    submitted: bool,
    coalesce: bool,
    sort_offsets: bool,
}

impl View for IoBatch {
    type V = IoBatchView;

    closed spec fn view(&self) -> IoBatchView {
        IoBatchView { ops: ops_view(self.ops@), submitted: self.submitted, coalesce: self.coalesce, sort_offsets: self.sort_offsets }
    }
}

/// Report of a submitted batch.
pub struct IoBatchReport {
    pub results: Vec<IoOpResult>,
    pub stats: BatchStats,
}

/// Why an operation cannot be added to the batch `b`, if it cannot.
pub open spec fn add_refusal(b: IoBatchView) -> Option<ExofsError> {
    if b.submitted {
        Some(ExofsError::InvalidState)
    } else if b.ops.len() >= MAX_BATCH_OPS {
        Some(ExofsError::BufferFull)
    } else {
        None
    }
}

impl IoBatch {
    /// An empty batch that sorts and merges.
    pub fn new() -> (r: IoBatch)
        ensures
            r@ == (IoBatchView { ops: Seq::empty(), submitted: false, coalesce: true, sort_offsets: true }),
    {
        let b = IoBatch { ops: Vec::new(), submitted: false, coalesce: true, sort_offsets: true };
        proof {
            assert(ops_view(b.ops@) =~= Seq::<IoOpView>::empty());
        }
        b
    }

    /// An empty batch with room for `min(cap, MAX_BATCH_OPS)` operations.
    pub fn with_capacity(cap: usize) -> (r: ExofsResult<IoBatch>)
        ensures
            r matches Ok(b) && b@ == (IoBatchView { ops: Seq::empty(), submitted: false, coalesce: true, sort_offsets: true }),
    {
        let c = if cap < MAX_BATCH_OPS { cap } else { MAX_BATCH_OPS };
        let ops: Vec<IoOp> = Vec::with_capacity(c);
        proof {
            assert(ops_view(ops@) =~= Seq::<IoOpView>::empty());
        }
        Ok(IoBatch { ops, submitted: false, coalesce: true, sort_offsets: true })
    }

    /// The same batch without merging.
    pub fn no_coalesce(self) -> (r: IoBatch)
        ensures
            r@ == (IoBatchView { coalesce: false, ..self@ }),
    {
        let mut b = self;
        b.coalesce = false;
        b
    }

    /// The same batch without sorting.
    pub fn no_sort(self) -> (r: IoBatch)
        ensures
            r@ == (IoBatchView { sort_offsets: false, ..self@ }),
    {
        let mut b = self;
        b.sort_offsets = false;
        b
    }

    /// Adds a read of `len` bytes at `offset`.
    pub fn add_read(&mut self, offset: DiskOffset, len: u64) -> (r: ExofsResult<()>)
        ensures
            add_refusal(old(self)@) matches Some(e) ==> r == Err::<(), ExofsError>(e) && final(self)@ == old(self)@,
            add_refusal(old(self)@) is None ==> r == Ok::<(), ExofsError>(()) && final(self)@ == (IoBatchView {
                ops: old(self)@.ops.push(IoOpView { offset: offset.0, write: false, len: len as nat, data: Seq::empty(), prio: 128 }),
                ..old(self)@
            }),
    {
        self.add_op(IoOp::read(offset, len))
    }

    /// Adds a write of `data` at `offset`.
    pub fn add_write(&mut self, offset: DiskOffset, data: Vec<u8>) -> (r: ExofsResult<()>)
        ensures
            add_refusal(old(self)@) matches Some(e) ==> r == Err::<(), ExofsError>(e) && final(self)@ == old(self)@,
            add_refusal(old(self)@) is None ==> r == Ok::<(), ExofsError>(()) && final(self)@ == (IoBatchView {
                ops: old(self)@.ops.push(IoOpView { offset: offset.0, write: true, len: data@.len(), data: data@, prio: 128 }),
                ..old(self)@
            }),
    {
        self.add_op(IoOp::write(offset, data))
    }

    /// Adds an operation.
    pub fn add_op(&mut self, op: IoOp) -> (r: ExofsResult<()>)
        ensures
            add_refusal(old(self)@) matches Some(e) ==> r == Err::<(), ExofsError>(e) && final(self)@ == old(self)@,
            add_refusal(old(self)@) is None ==> r == Ok::<(), ExofsError>(()) && final(self)@ == (IoBatchView {
                ops: old(self)@.ops.push(op_view(op)),
                ..old(self)@
            }),
    {
        if self.submitted {
            return Err(ExofsError::InvalidState);
        }
        if self.ops.len() >= MAX_BATCH_OPS {
            return Err(ExofsError::BufferFull);
        }
        let ghost before = self.ops@;
        self.ops.push(op);
        proof {
            assert(ops_view(self.ops@) =~= ops_view(before).push(op_view(op)));
        }
        Ok(())
    }

    /// Stable sort of the operations by offset.
    fn sort_by_offset(&mut self)
        ensures
            final(self)@ == (IoBatchView { ops: sort_spec(old(self)@.ops), ..old(self)@ }),
    {
        let mut src: Vec<IoOp> = Vec::new();
        std::mem::swap(&mut src, &mut self.ops);
        let ghost orig = ops_view(src@);
        let n = src.len();
        let mut k: usize = 0;
        proof {
            assert(orig.take(0) =~= Seq::<IoOpView>::empty());
            assert(orig.skip(0) =~= orig);
        }
        while k < n
            invariant
                0 <= k <= n,
                n == orig.len(),
                src@.len() == n - k,
                ops_view(src@) == orig.skip(k as int),
                ops_view(self.ops@) == sort_spec(orig.take(k as int)),
                self.submitted == old(self).submitted,
                self.coalesce == old(self).coalesce,
                self.sort_offsets == old(self).sort_offsets,
            decreases n - k,
        {
            let ghost srcv = src@;
            let op = src.remove(0);
            proof {
                assert(op_view(op) == orig[k as int]) by {
                    assert(ops_view(srcv)[0] == op_view(srcv[0]));
                }
                assert(ops_view(src@) =~= orig.skip(k + 1)) by {
                    assert forall|j: int| 0 <= j < src@.len() implies ops_view(src@)[j] == orig.skip(k + 1)[j] by {
                        assert(src@[j] == srcv[j + 1]);
                        assert(ops_view(srcv)[j + 1] == op_view(srcv[j + 1]));
                    }
                }
            }
            let off = op.offset.0;
            let ghost cur = ops_view(self.ops@);
            let mut p: usize = 0;
            while p < self.ops.len() && self.ops[p].offset.0 <= off
                invariant
                    cur == ops_view(self.ops@),
                    0 <= p <= self.ops@.len(),
                    first_greater(cur, off, 0) == first_greater(cur, off, p as int),
                decreases self.ops@.len() - p,
            {
                proof {
                    assert(cur[p as int] == op_view(self.ops@[p as int]));
                }
                p += 1;
            }
            proof {
                if p < self.ops@.len() {
                    assert(cur[p as int] == op_view(self.ops@[p as int]));
                }
                assert(first_greater(cur, off, p as int) == p);
            }
            let ghost before = self.ops@;
            self.ops.insert(p, op);
            proof {
                assert(ops_view(self.ops@) =~= cur.insert(p as int, op_view(op)));
                assert(orig.take(k + 1).drop_last() =~= orig.take(k as int));
                assert(orig.take(k + 1).last() == orig[k as int]);
            }
            k += 1;
        }
        proof {
            assert(orig.take(n as int) =~= orig);
        }
    }

    /// Merges runs of contiguous writes (each starting where the previous one
    /// ends) into single writes; returns the number of merges. No byte outside
    /// a requested write is ever written.
    pub fn coalesce_writes(&mut self) -> (r: u64)
        ensures
            old(self)@.ops.len() < 2 ==> r == 0 && final(self)@ == old(self)@,
            old(self)@.ops.len() >= 2 ==> final(self)@ == (IoBatchView { ops: coalesce_spec(old(self)@.ops, 0).0, ..old(self)@ })
                && r == coalesce_spec(old(self)@.ops, 0).1,
    {
        if self.ops.len() < 2 {
            return 0;
        }
        let ghost s = ops_view(self.ops@);
        let n = self.ops.len();
        let mut merged: u64 = 0;
        let mut result: Vec<IoOp> = Vec::new();
        let mut i: usize = 0;
        while i < n
            invariant
                0 <= i <= n,
                n == s.len(),
                s == ops_view(self.ops@),
                self@ == old(self)@,
                merged <= i,
                coalesce_spec(s, 0) == ({
                    let c = coalesce_spec(s, i as int);
                    (ops_view(result@) + c.0, (merged + c.1) as nat)
                }),
            decreases n - i,
        {
            proof {
                assert(s[i as int] == op_view(self.ops@[i as int]));
            }
            let start = self.ops[i].offset;
            let prio = self.ops[i].prio;
            let mut combined: Vec<u8> = Vec::new();
            let mut is_read = false;
            let mut read_len: u64 = 0;
            match &self.ops[i].kind {
                IoOpKind::Read { len } => {
                    is_read = true;
                    read_len = *len;
                },
                IoOpKind::Write { data } => {
                    combined.extend_from_slice(data.as_slice());
                    proof {
                        assert(combined@ == s[i as int].data);
                    }
                },
            }
            if is_read {
                let copy = IoOp { offset: start, kind: IoOpKind::Read { len: read_len }, prio };
                let ghost rb = result@;
                result.push(copy);
                proof {
                    assert(op_view(copy) == s[i as int]);
                    assert(ops_view(result@) =~= ops_view(rb).push(s[i as int]));
                    assert(ops_view(rb).push(s[i as int]) + coalesce_spec(s, i + 1).0 =~= ops_view(rb) + (seq![s[i as int]]
                        + coalesce_spec(s, i + 1).0));
                }
                i += 1;
            } else {
                let mut j: usize = i + 1;
                let mut m: u64 = 0;
                while j < n && (combined.len() as u64) <= MAX_COALESCE_BYTES
                    invariant
                        i < j <= n,
                        n == s.len(),
                        s == ops_view(self.ops@),
                        s[i as int].write,
                        start.0 == s[i as int].offset,
                        m <= j - i - 1,
                        grow(s, i + 1, start.0, s[i as int].data) == ({
                            let g = grow(s, j as int, start.0, combined@);
                            (g.0, g.1, (m + g.2) as nat)
                        }),
                    ensures
                        grow(s, j as int, start.0, combined@) == (j as int, combined@, 0nat),
                    decreases n - j,
                {
                    proof {
                        assert(s[j as int] == op_view(self.ops@[j as int]));
                    }
                    if !self.ops[j].is_write() {
                        break;
                    }
                    let expected: u64 = match start.0.checked_add(combined.len() as u64) {
                        Some(e) => e,
                        None => u64::MAX,
                    };
                    let next_off = self.ops[j].offset.0;
                    if next_off != expected {
                        break;
                    }
                    let ghost before_data = combined@;
                    match &self.ops[j].kind {
                        IoOpKind::Write { data } => {
                            combined.extend_from_slice(data.as_slice());
                            proof {
                                assert(combined@ == before_data + s[j as int].data);
                            }
                        },
                        IoOpKind::Read { .. } => {},
                    }
                    m = m + 1;
                    j += 1;
                }
                proof {
                    lemma_grow_ahead(s, i + 1, start.0, s[i as int].data);
                }
                let ghost rb = result@;
                let w = IoOp::write(start, combined);
                result.push(w);
                proof {
                    assert(ops_view(result@) =~= ops_view(rb).push(op_view(w)));
                    let c = coalesce_spec(s, j as int);
                    assert(ops_view(rb).push(op_view(w)) + c.0 =~= ops_view(rb) + (seq![op_view(w)] + c.0));
                }
                merged = merged + m;
                i = j;
            }
        }
        self.ops = result;
        proof {
            assert(ops_view(self.ops@) + Seq::<IoOpView>::empty() =~= ops_view(self.ops@));
        }
        merged
    }

    /// Submits the batch: sorts and merges as configured, then runs each
    /// operation through `write_fn` or `read_fn`, in order.
    pub fn submit<F, G>(&mut self, write_fn: &F, read_fn: &G) -> (r: ExofsResult<IoBatchReport>)
        where
            F: Fn(&[u8], DiskOffset) -> ExofsResult<usize>,
            G: Fn(DiskOffset, &mut [u8]) -> ExofsResult<usize>,
        requires
            forall|b: &[u8], o: DiskOffset| write_fn.requires((b, o)),
            forall|o: DiskOffset, b: &mut [u8]| read_fn.requires((o, b)),
        ensures
            old(self)@.submitted ==> r == Err::<IoBatchReport, ExofsError>(ExofsError::InvalidState) && final(self)@ == old(self)@,
            !old(self)@.submitted && old(self)@.ops.len() == 0 ==> final(self)@ == (IoBatchView { submitted: true, ..old(self)@ })
                && (r matches Ok(rep) && rep.results@.len() == 0 && rep.stats == zero_stats()),
            !old(self)@.submitted && old(self)@.ops.len() > 0 ==> final(self)@ == (IoBatchView {
                ops: prepared(old(self)@).0,
                submitted: true,
                ..old(self)@
            }) && (r matches Ok(rep) && submit_outcome(old(self)@, write_fn, read_fn, rep.results@, rep.stats)),
    {
        if self.submitted {
            return Err(ExofsError::InvalidState);
        }
        if self.ops.len() == 0 {
            self.submitted = true;
            return Ok(IoBatchReport::empty());
        }
        let ghost b0 = self@;
        if self.sort_offsets {
            self.sort_by_offset();
        }
        let merges = if self.coalesce { self.coalesce_writes() } else { 0 };
        let ghost p = ops_view(self.ops@);
        assert(p == prepared(b0).0 && merges == prepared(b0).1);
        let n = self.ops.len();
        let mut results: Vec<IoOpResult> = Vec::new();
        let mut stats = BatchStats {
            ops_submitted: 0,
            ops_succeeded: 0,
            ops_failed: 0,
            bytes_written: 0,
            bytes_read: 0,
            coalesce_merges: merges,
            total_batches: 1,
        };
        let mut i: usize = 0;
        while i < n
            invariant
                0 <= i <= n,
                n == p.len(),
                p == ops_view(self.ops@),
                forall|b: &[u8], o: DiskOffset| write_fn.requires((b, o)),
                forall|o: DiskOffset, b: &mut [u8]| read_fn.requires((o, b)),
                results@.len() == i,
                forall|k: int| 0 <= k < i ==> op_outcome(p[k], #[trigger] results@[k], write_fn, read_fn),
                stats == (BatchStats { total_batches: 1, coalesce_merges: merges, ..tally(p, results@, i as int) }),
            decreases n - i,
        {
            proof {
                assert(p[i as int] == op_view(self.ops@[i as int]));
            }
            let off = self.ops[i].offset;
            let ghost rb = results@;
            stats.ops_submitted = stats.ops_submitted.saturating_add(1);
            match &self.ops[i].kind {
                IoOpKind::Write { data } => {
                    let expected = data.len();
                    let sl = data.as_slice();
                    let res = write_fn(sl, off);
                    match res {
                        Ok(nw) => {
                            proof {
                                assert(call_ensures(write_fn, (sl, off), Ok::<usize, ExofsError>(nw)) && sl@ == p[i as int].data);
                            }
                            if nw != expected {
                                results.push(IoOpResult::err(off, ExofsError::ShortWrite));
                                stats.ops_failed = stats.ops_failed.saturating_add(1);
                            } else {
                                results.push(IoOpResult::ok(off, nw as u64));
                                stats.ops_succeeded = stats.ops_succeeded.saturating_add(1);
                                stats.bytes_written = stats.bytes_written.saturating_add(nw as u64);
                            }
                        },
                        Err(e) => {
                            proof {
                                assert(call_ensures(write_fn, (sl, off), Err::<usize, ExofsError>(e)) && sl@ == p[i as int].data);
                            }
                            results.push(IoOpResult::err(off, e));
                            stats.ops_failed = stats.ops_failed.saturating_add(1);
                        },
                    }
                },
                IoOpKind::Read { len } => {
                    let sz = *len as usize;
                    let mut buf: Vec<u8> = Vec::new();
                    let mut z: usize = 0;
                    while z < sz
                        invariant
                            z <= sz,
                        decreases sz - z,
                    {
                        buf.push(0u8);
                        z += 1;
                    }
                    let sl = buf.as_mut_slice();
                    let res = read_fn(off, sl);
                    match res {
                        Ok(nr) => {
                            results.push(IoOpResult::ok(off, nr as u64));
                            stats.ops_succeeded = stats.ops_succeeded.saturating_add(1);
                            stats.bytes_read = stats.bytes_read.saturating_add(nr as u64);
                        },
                        Err(e) => {
                            results.push(IoOpResult::err(off, e));
                            stats.ops_failed = stats.ops_failed.saturating_add(1);
                        },
                    }
                },
            }
            proof {
                assert(results@ == rb.push(results@[i as int]));
                assert forall|k: int| 0 <= k < i + 1 implies op_outcome(p[k], #[trigger] results@[k], write_fn, read_fn) by {
                    if k < i {
                        assert(results@[k] == rb[k]);
                    }
                }
                lemma_tally_frame(p, rb, results@, i as int);
            }
            i += 1;
        }
        self.submitted = true;
        Ok(IoBatchReport { results, stats })
    }

    /// Number of operations.
    pub fn len(&self) -> (r: usize)
        ensures
            r == self@.ops.len(),
    {
        proof {
            assert(self@.ops.len() == self.ops@.len());
        }
        self.ops.len()
    }

    /// True iff the batch holds no operation.
    pub fn is_empty(&self) -> (r: bool)
        ensures
            r == (self@.ops.len() == 0),
    {
        self.len() == 0
    }

    /// True iff the batch was submitted.
    pub fn is_submitted(&self) -> (r: bool)
        ensures
            r == self@.submitted,
    {
        self.submitted
    }

    /// The operation at index `i`.
    pub fn op_at(&self, i: usize) -> (r: &IoOp)
        requires
            i < self@.ops.len(),
        ensures
            op_view(*r) == self@.ops[i as int],
    {
        proof {
            assert(self@.ops[i as int] == op_view(self.ops@[i as int]));
        }
        &self.ops[i]
    }

    /// True iff some operation writes.
    pub fn has_writes(&self) -> (r: bool)
        ensures
            r == exists|i: int| 0 <= i < self@.ops.len() && #[trigger] self@.ops[i].write,
    {
        let mut i: usize = 0;
        while i < self.ops.len()
            invariant
                forall|k: int| 0 <= k < i ==> !(#[trigger] self@.ops[k]).write,
            decreases self.ops.len() - i,
        {
            proof {
                assert(self@.ops[i as int] == op_view(self.ops@[i as int]));
            }
            if self.ops[i].is_write() {
                return true;
            }
            i += 1;
        }
        false
    }

    /// True iff some operation reads.
    pub fn has_reads(&self) -> (r: bool)
        ensures
            r == exists|i: int| 0 <= i < self@.ops.len() && !(#[trigger] self@.ops[i]).write,
    {
        let mut i: usize = 0;
        while i < self.ops.len()
            invariant
                forall|k: int| 0 <= k < i ==> (#[trigger] self@.ops[k]).write,
            decreases self.ops.len() - i,
        {
            proof {
                assert(self@.ops[i as int] == op_view(self.ops@[i as int]));
            }
            if self.ops[i].is_read() {
                return true;
            }
            i += 1;
        }
        false
    }

    /// Total bytes to write (saturating).
    pub fn total_write_bytes(&self) -> (r: u64)
        ensures
            r == bytes_of(self@.ops, true, self@.ops.len() as int),
    {
        self.total_bytes(true)
    }

    /// Total bytes to read (saturating).
    pub fn total_read_bytes(&self) -> (r: u64)
        ensures
            r == bytes_of(self@.ops, false, self@.ops.len() as int),
    {
        self.total_bytes(false)
    }

    fn total_bytes(&self, writes: bool) -> (r: u64)
        ensures
            r == bytes_of(self@.ops, writes, self@.ops.len() as int),
    {
        let mut acc: u64 = 0;
        let mut i: usize = 0;
        while i < self.ops.len()
            invariant
                0 <= i <= self.ops@.len(),
                self@.ops.len() == self.ops@.len(),
                acc == bytes_of(self@.ops, writes, i as int),
            decreases self.ops.len() - i,
        {
            proof {
                assert(self@.ops[i as int] == op_view(self.ops@[i as int]));
            }
            if self.ops[i].is_write() == writes {
                acc = acc.saturating_add(self.ops[i].byte_count());
            }
            i += 1;
        }
        acc
    }
}

/// Saturating sum of the sizes of the first `k` writes (or reads).
pub open spec fn bytes_of(ops: Seq<IoOpView>, writes: bool, k: int) -> u64
    decreases k,
{
    if k <= 0 {
        0
    } else if ops[k - 1].write == writes {
        sat(bytes_of(ops, writes, k - 1), ops[k - 1].len as u64)
    } else {
        bytes_of(ops, writes, k - 1)
    }
}

/// `tally` of a prefix only reads that prefix.
proof fn lemma_tally_frame(ops: Seq<IoOpView>, a: Seq<IoOpResult>, b: Seq<IoOpResult>, k: int)
    requires
        0 <= k,
        k <= a.len(),
        k <= b.len(),
        forall|j: int| 0 <= j < k ==> a[j] == b[j],
    ensures
        tally(ops, a, k) == tally(ops, b, k),
    decreases k,
{
    if k > 0 {
        lemma_tally_frame(ops, a, b, k - 1);
    }
}

impl Default for IoBatch {
    fn default() -> (r: IoBatch)
        ensures
            r@ == (IoBatchView { ops: Seq::empty(), submitted: false, coalesce: true, sort_offsets: true }),
    {
        IoBatch::new()
    }
}

/// Number of failed outcomes among the first `k`.
pub open spec fn failures(rs: Seq<IoOpResult>, k: int) -> nat
    decreases k,
{
    if k <= 0 { 0 } else { failures(rs, k - 1) + (if rs[k - 1].success { 0nat } else { 1nat }) }
}

impl IoBatchReport {
    fn empty() -> (r: IoBatchReport)
        ensures
            r.results@.len() == 0,
            r.stats == zero_stats(),
    {
        IoBatchReport { results: Vec::new(), stats: BatchStats::default() }
    }

    /// True iff every operation succeeded.
    pub fn all_succeeded(&self) -> (r: bool)
        ensures
            r == forall|i: int| 0 <= i < self.results@.len() ==> (#[trigger] self.results@[i]).success,
    {
        let mut i: usize = 0;
        while i < self.results.len()
            invariant
                forall|k: int| 0 <= k < i ==> (#[trigger] self.results@[k]).success,
            decreases self.results.len() - i,
        {
            if !self.results[i].success {
                return false;
            }
            i += 1;
        }
        true
    }

    /// The failed outcomes, in order.
    pub fn failed_ops(&self) -> (r: Vec<IoOpResult>)
        ensures
            r@ == self.results@.filter(|x: IoOpResult| !x.success),
    {
        let mut out: Vec<IoOpResult> = Vec::new();
        let mut i: usize = 0;
        while i < self.results.len()
            invariant
                0 <= i <= self.results@.len(),
                out@ == self.results@.subrange(0, i as int).filter(|x: IoOpResult| !x.success),
            decreases self.results.len() - i,
        {
            proof {
                assert(self.results@.subrange(0, i + 1).drop_last() == self.results@.subrange(0, i as int));
                reveal(Seq::filter);
            }
            if !self.results[i].success {
                out.push(self.results[i]);
            }
            i += 1;
        }
        proof {
            assert(self.results@.subrange(0, self.results@.len() as int) == self.results@);
        }
        out
    }

    /// Number of failed operations.
    pub fn error_count(&self) -> (r: usize)
        ensures
            r == failures(self.results@, self.results@.len() as int),
    {
        let mut n: usize = 0;
        let mut i: usize = 0;
        while i < self.results.len()
            invariant
                0 <= i <= self.results@.len(),
                n == failures(self.results@, i as int),
                n <= i,
            decreases self.results.len() - i,
        {
            if !self.results[i].success {
                n += 1;
            }
            i += 1;
        }
        n
    }
}

/// Outcome of submitting the unsubmitted batch `b`: its results and counters.
pub open spec fn batch_outcome<F, G>(b: IoBatchView, wf: F, rf: G, results: Seq<IoOpResult>, stats: BatchStats) -> bool
    where
        F: Fn(&[u8], DiskOffset) -> ExofsResult<usize>,
        G: Fn(DiskOffset, &mut [u8]) -> ExofsResult<usize>,
{
    if b.ops.len() == 0 {
        results.len() == 0 && stats == zero_stats()
    } else {
        submit_outcome(b, wf, rf, results, stats)
    }
}

/// Saturating merge of the first `k` counters.
pub open spec fn merge_all(ss: Seq<BatchStats>, k: int) -> BatchStats
    decreases k,
{
    if k <= 0 { zero_stats() } else { merge_spec(merge_all(ss, k - 1), ss[k - 1]) }
}

/// `e` plus the failures of the first `k` result lists (wrapping).
pub open spec fn errors_after(e: u64, rs: Seq<Seq<IoOpResult>>, k: int) -> u64
    decreases k,
{
    if k <= 0 {
        e
    } else {
        let prev = errors_after(e, rs, k - 1);
        let f = failures(rs[k - 1], rs[k - 1].len() as int);
        if prev + f > u64::MAX { (prev + f - u64::MAX - 1) as u64 } else { (prev + f) as u64 }
    }
}

/// Abstract state of a queue of batches.
pub struct IoBatchQueueView {
    pub pending: Seq<IoBatchView>,
    pub global: BatchStats,
    pub errors: u64,
    pub shutdown: bool,
}

/// A queue of batches submitted in order.
pub struct IoBatchQueue {
    pending: Vec<IoBatch>,
    global: BatchStats,
    errors: u64,
    shutdown: bool,
}

impl View for IoBatchQueue {
    type V = IoBatchQueueView;

    closed spec fn view(&self) -> IoBatchQueueView {
        IoBatchQueueView {
            pending: self.pending@.map_values(|b: IoBatch| b@),
            global: self.global,
            errors: self.errors,
            shutdown: self.shutdown,
        }
    }
}

impl IoBatchQueue {
    /// No pending batch has been submitted.
    pub closed spec fn wf(&self) -> bool {
        forall|i: int| 0 <= i < self.pending@.len() ==> !(#[trigger] self.pending@[i])@.submitted
    }

    /// An empty, open queue.
    pub fn new() -> (r: IoBatchQueue)
        ensures
            r.wf(),
            r@ == (IoBatchQueueView { pending: Seq::empty(), global: zero_stats(), errors: 0, shutdown: false }),
    {
        let q = IoBatchQueue { pending: Vec::new(), global: BatchStats::default(), errors: 0, shutdown: false };
        proof {
            assert(q@.pending =~= Seq::<IoBatchView>::empty());
        }
        q
    }

    /// Queues an unsubmitted batch.
    pub fn enqueue(&mut self, batch: IoBatch) -> (r: ExofsResult<()>)
        requires
            old(self).wf(),
        ensures
            final(self).wf(),
            batch@.submitted ==> r == Err::<(), ExofsError>(ExofsError::InvalidState) && final(self)@ == old(self)@,
            !batch@.submitted && old(self)@.shutdown ==> r == Err::<(), ExofsError>(ExofsError::Shutdown) && final(self)@ == old(self)@,
            !batch@.submitted && !old(self)@.shutdown ==> r == Ok::<(), ExofsError>(())
                && final(self)@ == (IoBatchQueueView { pending: old(self)@.pending.push(batch@), ..old(self)@ }),
    {
        if batch.is_submitted() {
            return Err(ExofsError::InvalidState);
        }
        if self.shutdown {
            return Err(ExofsError::Shutdown);
        }
        let ghost before = self.pending@;
        self.pending.push(batch);
        proof {
            assert(self@.pending =~= before.map_values(|b: IoBatch| b@).push(batch@));
        }
        Ok(())
    }

    /// Submits every pending batch in order, then empties the queue.
    pub fn flush<F, G>(&mut self, write_fn: &F, read_fn: &G) -> (r: ExofsResult<BatchStats>)
        where
            F: Fn(&[u8], DiskOffset) -> ExofsResult<usize>,
            G: Fn(DiskOffset, &mut [u8]) -> ExofsResult<usize>,
        requires
            old(self).wf(),
            forall|b: &[u8], o: DiskOffset| write_fn.requires((b, o)),
            forall|o: DiskOffset, b: &mut [u8]| read_fn.requires((o, b)),
        ensures
            final(self).wf(),
            exists|rs: Seq<Seq<IoOpResult>>, ss: Seq<BatchStats>|
                #![trigger merge_all(ss, old(self)@.pending.len() as int), errors_after(old(self)@.errors, rs, old(self)@.pending.len() as int)]
            {
                let n = old(self)@.pending.len();
                &&& rs.len() == n
                &&& ss.len() == n
                &&& forall|i: int| 0 <= i < n ==> #[trigger] batch_outcome(old(self)@.pending[i], write_fn, read_fn, rs[i], ss[i])
                &&& r == Ok::<BatchStats, ExofsError>(merge_all(ss, n as int))
                &&& final(self)@ == (IoBatchQueueView {
                    pending: Seq::empty(),
                    global: merge_spec(old(self)@.global, merge_all(ss, n as int)),
                    errors: errors_after(old(self)@.errors, rs, n as int),
                    ..old(self)@
                })
            },
    {
        let ghost pv = self@.pending;
        let n = self.pending.len();
        let mut combined = BatchStats::default();
        let ghost mut rs: Seq<Seq<IoOpResult>> = Seq::empty();
        let ghost mut ss: Seq<BatchStats> = Seq::empty();
        let mut i: usize = 0;
        while i < n
            invariant
                0 <= i <= n,
                n == pv.len(),
                self.pending@.len() == n,
                forall|k: int| i <= k < n ==> (#[trigger] self.pending@[k])@ == pv[k],
                forall|k: int| 0 <= k < n ==> !(#[trigger] pv[k]).submitted,
                forall|b: &[u8], o: DiskOffset| write_fn.requires((b, o)),
                forall|o: DiskOffset, b: &mut [u8]| read_fn.requires((o, b)),
                rs.len() == i,
                ss.len() == i,
                forall|k: int| 0 <= k < i ==> #[trigger] batch_outcome(pv[k], write_fn, read_fn, rs[k], ss[k]),
                combined == merge_all(ss, i as int),
                self.errors == errors_after(old(self)@.errors, rs, i as int),
                self.global == old(self)@.global,
                self.shutdown == old(self)@.shutdown,
            decreases n - i,
        {
            proof {
                assert(pv[i as int] == self.pending@[i as int]@);
            }
            let res = self.pending[i].submit(write_fn, read_fn);
            match res {
                Ok(report) => {
                    combined = combined.merge(&report.stats);
                    let cnt = report.error_count();
                    if !report.all_succeeded() {
                        self.errors = self.errors.wrapping_add(cnt as u64);
                    } else {
                        proof {
                            assert(failures(report.results@, report.results@.len() as int) == 0) by {
                                lemma_no_failures(report.results@, report.results@.len() as int);
                            }
                        }
                    }
                    proof {
                        let ghost rs0 = rs;
                        let ghost ss0 = ss;
                        rs = rs.push(report.results@);
                        ss = ss.push(report.stats);
                        assert(batch_outcome(pv[i as int], write_fn, read_fn, rs[i as int], ss[i as int]));
                        assert forall|k: int| 0 <= k < i implies ss[k] == ss0[k] && rs[k] == rs0[k] by {}
                        lemma_merge_all_frame(ss, ss0, i as int);
                        lemma_errors_frame(old(self)@.errors, rs, rs0, i as int);
                    }
                },
                Err(_) => {
                    assert(false);
                    self.errors = self.errors.wrapping_add(1);
                },
            }
            i += 1;
        }
        self.pending.clear();
        self.global = self.global.merge(&combined);
        proof {
            assert(self@.pending =~= Seq::<IoBatchView>::empty());
            assert(merge_all(ss, n as int) == combined);
            assert(errors_after(old(self)@.errors, rs, n as int) == self.errors);
        }
        Ok(combined)
    }

    /// Number of pending batches.
    pub fn pending_count(&self) -> (r: usize)
        ensures
            r == self@.pending.len(),
    {
        self.pending.len()
    }

    /// Failed operations (and failed submissions) so far.
    pub fn error_count(&self) -> (r: u64)
        ensures
            r == self@.errors,
    {
        self.errors
    }

    /// Counters of every flush so far.
    pub fn global_stats(&self) -> (r: &BatchStats)
        ensures
            *r == self@.global,
    {
        &self.global
    }

    /// Refuses further batches.
    pub fn shutdown(&mut self)
        requires
            old(self).wf(),
        ensures
            final(self).wf(),
            final(self)@ == (IoBatchQueueView { shutdown: true, ..old(self)@ }),
    {
        self.shutdown = true;
    }
}

proof fn lemma_no_failures(rs: Seq<IoOpResult>, k: int)
    requires
        0 <= k <= rs.len(),
        forall|i: int| 0 <= i < rs.len() ==> (#[trigger] rs[i]).success,
    ensures
        failures(rs, k) == 0,
    decreases k,
{
    if k > 0 {
        lemma_no_failures(rs, k - 1);
    }
}

proof fn lemma_merge_all_frame(a: Seq<BatchStats>, b: Seq<BatchStats>, k: int)
    requires
        0 <= k <= a.len(),
        k <= b.len(),
        forall|j: int| 0 <= j < k ==> a[j] == b[j],
    ensures
        merge_all(a, k) == merge_all(b, k),
    decreases k,
{
    if k > 0 {
        lemma_merge_all_frame(a, b, k - 1);
    }
}

proof fn lemma_errors_frame(e: u64, a: Seq<Seq<IoOpResult>>, b: Seq<Seq<IoOpResult>>, k: int)
    requires
        0 <= k <= a.len(),
        k <= b.len(),
        forall|j: int| 0 <= j < k ==> a[j] == b[j],
    ensures
        errors_after(e, a, k) == errors_after(e, b, k),
    decreases k,
{
    if k > 0 {
        lemma_errors_frame(e, a, b, k - 1);
    }
}

} // verus!
