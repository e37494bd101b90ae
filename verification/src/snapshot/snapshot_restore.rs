//! Restoration of a snapshot: each blob is read from a source, checked
//! against its identifier, then handed to a sink.
use vstd::prelude::*;
use crate::types::{BlobId, ExofsError, ExofsResult, SnapshotId};
use crate::hash::{blob_id_spec, verify_blob_id};
use crate::snapshot::snapshot::{flags, Snapshot};
use crate::snapshot::snapshot_list::{has_key, SnapshotList, SnapshotListView};

verus! {

/// Where restored blobs go; written by the user of the restoration.
pub trait RestoreSink {
    /// The calls made on the sink so far, each with its answer. An
    /// implementation states it; one that does not leaves it unknown.
    closed spec fn calls(&self) -> Seq<SinkCall> {
        arbitrary()
    }

    /// Writes one blob and returns how many bytes were written.
    fn write_blob(&mut self, blob_id: BlobId, data: &[u8]) -> (r: ExofsResult<usize>)
        ensures
            final(self).calls() == old(self).calls().push(SinkCall::Write { blob_id, data: data@, answer: r }),
    ;

    /// Commits what was written.
    fn finalize(&mut self) -> (r: ExofsResult<()>)
        ensures
            final(self).calls() == old(self).calls().push(SinkCall::Finalize { answer: r }),
    ;

    /// Rolls back what was written.
    fn abort(&mut self)
        ensures
            final(self).calls() == old(self).calls().push(SinkCall::Abort),
    ;
}

/// A call made on a sink, with its answer.
pub enum SinkCall {
    Write { blob_id: BlobId, data: Seq<u8>, answer: ExofsResult<usize> },
    Finalize { answer: ExofsResult<()> },
    Abort,
}

/// Where the blobs of a snapshot come from; written by the user of the
/// restoration.
pub trait SnapshotBlobSource {
    /// The bytes the source gives for `blob_id` of `snap_id`, or its error.
    /// An implementation states it; one that does not leaves it unknown.
    closed spec fn blob(&self, snap_id: SnapshotId, blob_id: BlobId) -> ExofsResult<Seq<u8>> {
        arbitrary()
    }

    /// The blobs the source lists for `snap_id`, or its error. An
    /// implementation states it; one that does not leaves it unknown.
    closed spec fn blobs_listed(&self, snap_id: SnapshotId) -> ExofsResult<Seq<BlobId>> {
        arbitrary()
    }

    /// The raw bytes of one blob.
    fn read_blob(&self, snap_id: SnapshotId, blob_id: BlobId) -> (r: ExofsResult<Vec<u8>>)
        ensures
            match self.blob(snap_id, blob_id) {
                Ok(d) => r matches Ok(v) && v@ == d,
                Err(e) => r == Err::<Vec<u8>, ExofsError>(e),
            },
    ;

    /// The blobs of a snapshot, in the order in which they are restored.
    fn list_blobs(&self, snap_id: SnapshotId) -> (r: ExofsResult<Vec<BlobId>>)
        ensures
            match self.blobs_listed(snap_id) {
                Ok(l) => r matches Ok(v) && v@ == l,
                Err(e) => r == Err::<Vec<BlobId>, ExofsError>(e),
            },
    ;
}

/// How to restore.
#[derive(Clone, Copy, Debug)]
pub struct RestoreOptions {
    /// Check each blob against its identifier.
    pub verify_integrity: bool,
    /// Go on after a blob that failed.
    pub resilient: bool,
    /// At most this many blobs (0: all).
    pub max_blobs: usize,
    pub skip_existing: bool,
}

impl Default for RestoreOptions {
    fn default() -> (r: RestoreOptions)
        ensures
            r == (RestoreOptions { verify_integrity: true, resilient: false, max_blobs: 0, skip_existing: false }),
    {
        RestoreOptions { verify_integrity: true, resilient: false, max_blobs: 0, skip_existing: false }
    }
}

/// Why one blob was not restored.
#[derive(Clone, Copy, Debug, PartialEq, Eq, Structural)]
pub enum RestoreErrorKind {
    ReadFailed,
    IntegrityFailed,
    WriteFailed,
    ShortWrite,
}

/// A blob that was not restored.
#[derive(Clone, Copy, Debug)]
pub struct RestoreError {
    pub blob_id: BlobId,
    pub kind: RestoreErrorKind,
}

/// What a restoration did.
#[derive(Clone, Debug)]
pub struct RestoreResult {
    pub snap_id: SnapshotId,
    pub n_blobs_ok: u64,
    pub n_blobs_error: u64,
    pub n_blobs_skip: u64,
    pub bytes_restored: u64,
    pub errors: Vec<RestoreError>,
    /// The limit of blobs stopped the restoration.
    pub truncated: bool,
}

/// What holds of every result handed back by a restoration of `snap_id`:
/// one error recorded per failed blob, none without the resilient mode,
/// no integrity failure without the check, the limit of blobs kept, and
/// nothing restored once the restorer was aborted.
pub open spec fn restore_sane(res: RestoreResult, snap_id: SnapshotId, opts: RestoreOptions, aborted: bool) -> bool {
    &&& res.snap_id == snap_id
    &&& res.errors@.len() == res.n_blobs_error
    &&& opts.resilient || res.n_blobs_error == 0
    &&& res.n_blobs_skip == 0
    &&& opts.max_blobs > 0 ==> res.n_blobs_ok + res.n_blobs_error <= opts.max_blobs
    &&& res.truncated ==> opts.max_blobs > 0 && res.n_blobs_ok + res.n_blobs_error == opts.max_blobs
    &&& forall|k: int| 0 <= k < res.errors@.len() ==> ((#[trigger] res.errors@[k]).kind == RestoreErrorKind::IntegrityFailed
        ==> opts.verify_integrity)
    &&& aborted ==> res.n_blobs_ok + res.n_blobs_error == 0
}

/// The check of a blob read for `blob_id`: with the check on, `data` must
/// hash to the identifier.
pub fn check_blob(blob_id: &BlobId, data: &[u8], opts: RestoreOptions) -> (r: Option<RestoreErrorKind>)
    ensures
        r == (if opts.verify_integrity && blob_id.0@ != blob_id_spec(data@) {
            Some(RestoreErrorKind::IntegrityFailed)
        } else {
            None
        }),
{
    if opts.verify_integrity {
        if !verify_blob_id(blob_id, data) {
            return Some(RestoreErrorKind::IntegrityFailed);
        }
    }
    None
}

/// The outcome of a write of `expected` bytes that answered `written`.
pub fn write_verdict(written: ExofsResult<usize>, expected: usize) -> (r: Result<usize, RestoreErrorKind>)
    ensures
        r == (match written {
            Err(_) => Err(RestoreErrorKind::WriteFailed),
            Ok(n) => if n == expected { Ok(n) } else { Err(RestoreErrorKind::ShortWrite) },
        }),
{
    match written {
        Err(_) => Err(RestoreErrorKind::WriteFailed),
        Ok(n) => {
            if n != expected {
                Err(RestoreErrorKind::ShortWrite)
            } else {
                Ok(n)
            }
        },
    }
}

impl RestoreResult {
    /// Counts the outcome of the blob `blob_id`.
    fn record(&mut self, blob_id: BlobId, outcome: Result<usize, RestoreErrorKind>)
        requires
            old(self).n_blobs_ok < u64::MAX,
            old(self).n_blobs_error < u64::MAX,
        ensures
            final(self).snap_id == old(self).snap_id,
            final(self).n_blobs_skip == old(self).n_blobs_skip,
            final(self).truncated == old(self).truncated,
            match outcome {
                Ok(b) => final(self).n_blobs_ok == old(self).n_blobs_ok + 1
                    && final(self).n_blobs_error == old(self).n_blobs_error
                    && final(self).bytes_restored == (if old(self).bytes_restored + b > u64::MAX { u64::MAX as int } else {
                        old(self).bytes_restored + b
                    })
                    && final(self).errors@ == old(self).errors@,
                Err(kind) => final(self).n_blobs_error == old(self).n_blobs_error + 1
                    && final(self).n_blobs_ok == old(self).n_blobs_ok
                    && final(self).bytes_restored == old(self).bytes_restored
                    && final(self).errors@ == old(self).errors@.push(RestoreError { blob_id, kind }),
            },
    {
        match outcome {
            Ok(bytes) => {
                self.n_blobs_ok = self.n_blobs_ok + 1;
                let b: u64 = bytes as u64;
                self.bytes_restored = self.bytes_restored.saturating_add(b);
            },
            Err(kind) => {
                self.n_blobs_error = self.n_blobs_error + 1;
                self.errors.push(RestoreError { blob_id, kind });
            },
        }
    }
}

/// What restoring the blob `id` of `snap` from `source` answers, `w` being
/// what the sink answered to the write of its bytes: a read error, a failed
/// check (only with the check on), a failed or short write, or the bytes
/// written.
pub open spec fn blob_outcome<S: SnapshotBlobSource>(
    source: S,
    snap: SnapshotId,
    id: BlobId,
    opts: RestoreOptions,
    w: ExofsResult<usize>,
) -> Result<usize, RestoreErrorKind> {
    match source.blob(snap, id) {
        Err(_) => Err(RestoreErrorKind::ReadFailed),
        Ok(d) => if opts.verify_integrity && id.0@ != blob_id_spec(d) {
            Err(RestoreErrorKind::IntegrityFailed)
        } else {
            match w {
                Err(_) => Err(RestoreErrorKind::WriteFailed),
                Ok(n) => if n == d.len() { Ok(n) } else { Err(RestoreErrorKind::ShortWrite) },
            }
        },
    }
}

/// The call restoring the blob `id` makes on the sink, `w` being its answer:
/// a write of the source's bytes once they were read and passed the check,
/// none otherwise.
pub open spec fn blob_call<S: SnapshotBlobSource>(
    source: S,
    snap: SnapshotId,
    id: BlobId,
    opts: RestoreOptions,
    w: ExofsResult<usize>,
) -> Seq<SinkCall> {
    match source.blob(snap, id) {
        Err(_) => Seq::empty(),
        Ok(d) => if opts.verify_integrity && id.0@ != blob_id_spec(d) {
            Seq::empty()
        } else {
            seq![SinkCall::Write { blob_id: id, data: d, answer: w }]
        },
    }
}

/// The writes made for the first `m` blobs of `ids`, the sink having
/// answered `ws`.
pub open spec fn writes_upto<S: SnapshotBlobSource>(
    source: S,
    snap: SnapshotId,
    ids: Seq<BlobId>,
    ws: Seq<ExofsResult<usize>>,
    opts: RestoreOptions,
    m: int,
) -> Seq<SinkCall>
    decreases m,
{
    if m <= 0 {
        Seq::empty()
    } else {
        writes_upto(source, snap, ids, ws, opts, m - 1) + blob_call(source, snap, ids[m - 1], opts, ws[m - 1])
    }
}

/// The calls a restoration of the listed blobs `ids` makes on the sink: an
/// abort alone when the restorer was aborted; else the writes of the blobs
/// it went through, then an abort after a failure that stops it, or a
/// commit, whose answer decides the result `r`.
pub open spec fn pipeline_calls<S: SnapshotBlobSource>(
    source: S,
    snap: SnapshotId,
    ids: Seq<BlobId>,
    ws: Seq<ExofsResult<usize>>,
    opts: RestoreOptions,
    aborted: bool,
    r: ExofsResult<RestoreResult>,
) -> Seq<SinkCall> {
    let m = ws.len() as int;
    let outs = outcomes(source, snap, ids, ws, opts);
    if aborted && ids.len() > 0 {
        seq![SinkCall::Abort]
    } else if !opts.resilient && m > 0 && outs[m - 1] is Err {
        writes_upto(source, snap, ids, ws, opts, m).push(SinkCall::Abort)
    } else {
        writes_upto(source, snap, ids, ws, opts, m).push(SinkCall::Finalize {
            answer: match r {
                Ok(_) => Ok(()),
                Err(e) => Err(e),
            },
        })
    }
}

/// The outcomes of the first `ws.len()` blobs of `ids`, the sink having
/// answered `ws`.
pub open spec fn outcomes<S: SnapshotBlobSource>(
    source: S,
    snap: SnapshotId,
    ids: Seq<BlobId>,
    ws: Seq<ExofsResult<usize>>,
    opts: RestoreOptions,
) -> Seq<Result<usize, RestoreErrorKind>> {
    Seq::new(ws.len(), |k: int| blob_outcome(source, snap, ids[k], opts, ws[k]))
}

/// Counters of a restoration.
pub struct RestoreTally {
    pub n_ok: int,
    pub n_error: int,
    pub bytes: u64,
    pub errors: Seq<RestoreError>,
}

/// The counters after recording the outcomes `outs` of the blobs `ids`, in
/// order.
pub open spec fn tally_of(ids: Seq<BlobId>, outs: Seq<Result<usize, RestoreErrorKind>>) -> RestoreTally
    decreases outs.len(),
{
    if outs.len() == 0 {
        RestoreTally { n_ok: 0, n_error: 0, bytes: 0, errors: Seq::empty() }
    } else {
        let p = tally_of(ids, outs.drop_last());
        match outs.last() {
            Ok(b) => RestoreTally {
                n_ok: p.n_ok + 1,
                bytes: if p.bytes + b > u64::MAX { u64::MAX } else { (p.bytes + b) as u64 },
                ..p
            },
            Err(kind) => RestoreTally {
                n_error: p.n_error + 1,
                errors: p.errors.push(RestoreError { blob_id: ids[outs.len() - 1], kind }),
                ..p
            },
        }
    }
}

/// The most blobs restored under `opts`.
pub open spec fn blob_limit(opts: RestoreOptions) -> int {
    if opts.max_blobs > 0 { opts.max_blobs as int } else { usize::MAX as int }
}

/// What a restoration of `snap`, listing `ids`, whose sink answered `ws` to
/// the writes made, gives: an aborted restorer refuses any blob; without
/// the resilient mode the first failed blob stops it; else every blob up
/// to the limit is restored and counted, the result then standing unless
/// the sink fails to commit.
pub open spec fn pipeline_ok<S: SnapshotBlobSource>(
    source: S,
    snap: SnapshotId,
    ids: Seq<BlobId>,
    ws: Seq<ExofsResult<usize>>,
    opts: RestoreOptions,
    aborted: bool,
    r: ExofsResult<RestoreResult>,
) -> bool {
    let outs = outcomes(source, snap, ids, ws, opts);
    let m = ws.len();
    let t = tally_of(ids, outs);
    &&& m <= ids.len() && m <= blob_limit(opts)
    &&& aborted && ids.len() > 0 ==> m == 0 && r == Err::<RestoreResult, ExofsError>(ExofsError::Shutdown)
    &&& !(aborted && ids.len() > 0) ==> {
        ||| (!opts.resilient && m > 0 && outs[m - 1] is Err && (forall|k: int| 0 <= k < m - 1 ==> (#[trigger] outs[k]) is Ok)
            && r == Err::<RestoreResult, ExofsError>(ExofsError::ChecksumMismatch))
        ||| (m == (if ids.len() < blob_limit(opts) { ids.len() as int } else { blob_limit(opts) })
            && (opts.resilient || forall|k: int| 0 <= k < m ==> (#[trigger] outs[k]) is Ok)
            && (r matches Ok(res) ==> res.snap_id == snap && res.n_blobs_ok == t.n_ok && res.n_blobs_error == t.n_error
                && res.bytes_restored == t.bytes && res.errors@ == t.errors && res.n_blobs_skip == 0
                && res.truncated == (ids.len() > blob_limit(opts))))
    }
}

/// The flags of the snapshot of key `k` with `RESTORING` set, then cleared.
pub open spec fn restoring_cleared(o: SnapshotListView, n: SnapshotListView, k: u64) -> bool {
    forall|i: int| 0 <= i < o.entries.len() && (#[trigger] o.entries[i]).0 == k ==> n == (SnapshotListView {
        entries: o.entries.update(i, (k, Snapshot {
            flags: (o.entries[i].1.flags | flags::RESTORING) & !flags::RESTORING,
            ..o.entries[i].1
        })),
        ..o
    })
}

/// Runs restorations; it can be aborted.
pub struct SnapshotRestore {
    aborted: bool,
}

impl SnapshotRestore {
    /// A restorer that is not aborted.
    pub fn new() -> (r: SnapshotRestore)
        ensures
            !r.is_aborted_spec(),
    {
        SnapshotRestore { aborted: false }
    }

    /// The restorer was aborted.
    pub closed spec fn is_aborted_spec(&self) -> bool {
        self.aborted
    }

    /// Restores the snapshot `snap_id` of `list` from `source` into `dest`;
    /// the snapshot is marked as restoring in `list` meanwhile.
    pub fn restore<S: SnapshotBlobSource, D: RestoreSink>(
        &self,
        list: &mut SnapshotList,
        snap_id: SnapshotId,
        source: &S,
        dest: &mut D,
        opts: RestoreOptions,
    ) -> (r: ExofsResult<RestoreResult>)
        requires
            old(list).wf(),
        ensures
            final(list).wf(),
            !has_key(old(list)@.entries, snap_id.0) ==> r == Err::<RestoreResult, ExofsError>(ExofsError::NotFound)
                && final(list)@ == old(list)@ && *final(dest) == *old(dest),
            has_key(old(list)@.entries, snap_id.0) ==> restoring_cleared(old(list)@, final(list)@, snap_id.0),
            r matches Ok(res) ==> restore_sane(res, snap_id, opts, self.is_aborted_spec()),
            has_key(old(list)@.entries, snap_id.0) ==> (source.blobs_listed(snap_id) matches Err(e)
                ==> r == Err::<RestoreResult, ExofsError>(e) && final(dest).calls() == old(dest).calls().push(SinkCall::Abort)),
            has_key(old(list)@.entries, snap_id.0) && source.blobs_listed(snap_id) is Ok
                ==> exists|ws: Seq<ExofsResult<usize>>| #[trigger] pipeline_ok(*source, snap_id, source.blobs_listed(snap_id)->Ok_0, ws,
                    opts, self.is_aborted_spec(), r) && final(dest).calls() == old(dest).calls() + pipeline_calls(*source, snap_id,
                    source.blobs_listed(snap_id)->Ok_0, ws, opts, self.is_aborted_spec(), r) + (if r is Err {
                    seq![SinkCall::Abort]
                } else {
                    Seq::empty()
                }),
    {
        match list.get_ref(snap_id) {
            Ok(_) => {},
            Err(e) => return Err(e),
        }
        let ghost l0 = list@;
        match list.set_flags(snap_id, flags::RESTORING) {
            Ok(_) => {},
            Err(e) => return Err(e),
        }
        let ghost l1 = list@;
        let result = self.run_pipeline(snap_id, source, dest, opts);
        let _ = list.clear_flags(snap_id, flags::RESTORING);
        proof {
            assert forall|i: int| 0 <= i < l0.entries.len() && (#[trigger] l0.entries[i]).0 == snap_id.0 implies list@ == (
            SnapshotListView {
                entries: l0.entries.update(i, (snap_id.0, Snapshot {
                    flags: (l0.entries[i].1.flags | flags::RESTORING) & !flags::RESTORING,
                    ..l0.entries[i].1
                })),
                ..l0
            }) by {
                assert(l1.entries[i].0 == snap_id.0);
                assert(l1.entries.update(i, (snap_id.0, Snapshot { flags: l1.entries[i].1.flags & !flags::RESTORING, ..l1.entries[i].1 }))
                    =~= l0.entries.update(i, (snap_id.0, Snapshot {
                    flags: (l0.entries[i].1.flags | flags::RESTORING) & !flags::RESTORING,
                    ..l0.entries[i].1
                })));
            }
        }
        let ghost mid = dest.calls();
        match result {
            Ok(r) => {
                proof {
                    if source.blobs_listed(snap_id) is Ok {
                        let ws = choose|ws: Seq<ExofsResult<usize>>| #[trigger] pipeline_ok(*source, snap_id, source.blobs_listed(snap_id)->Ok_0,
                            ws, opts, self.is_aborted_spec(), result) && mid == old(dest).calls() + pipeline_calls(*source, snap_id,
                            source.blobs_listed(snap_id)->Ok_0, ws, opts, self.is_aborted_spec(), result);
                        assert(dest.calls() =~= old(dest).calls() + pipeline_calls(*source, snap_id, source.blobs_listed(snap_id)->Ok_0, ws,
                            opts, self.is_aborted_spec(), result) + Seq::<SinkCall>::empty());
                    }
                }
                Ok(r)
            },
            Err(e) => {
                dest.abort();
                proof {
                    if source.blobs_listed(snap_id) is Ok {
                        let ws = choose|ws: Seq<ExofsResult<usize>>| #[trigger] pipeline_ok(*source, snap_id, source.blobs_listed(snap_id)->Ok_0,
                            ws, opts, self.is_aborted_spec(), result) && mid == old(dest).calls() + pipeline_calls(*source, snap_id,
                            source.blobs_listed(snap_id)->Ok_0, ws, opts, self.is_aborted_spec(), result);
                        assert(dest.calls() =~= old(dest).calls() + pipeline_calls(*source, snap_id, source.blobs_listed(snap_id)->Ok_0, ws,
                            opts, self.is_aborted_spec(), result) + seq![SinkCall::Abort]);
                    }
                }
                Err(e)
            },
        }
    }

    fn run_pipeline<S: SnapshotBlobSource, D: RestoreSink>(
        &self,
        snap_id: SnapshotId,
        source: &S,
        dest: &mut D,
        opts: RestoreOptions,
    ) -> (r: ExofsResult<RestoreResult>)
        ensures
            r matches Ok(res) ==> restore_sane(res, snap_id, opts, self.aborted),
            source.blobs_listed(snap_id) matches Err(e) ==> r == Err::<RestoreResult, ExofsError>(e)
                && final(dest).calls() == old(dest).calls(),
            source.blobs_listed(snap_id) is Ok ==> exists|ws: Seq<ExofsResult<usize>>| #[trigger] pipeline_ok(*source, snap_id,
                source.blobs_listed(snap_id)->Ok_0, ws, opts, self.is_aborted_spec(), r)
                && final(dest).calls() == old(dest).calls() + pipeline_calls(*source, snap_id, source.blobs_listed(snap_id)->Ok_0, ws, opts,
                self.is_aborted_spec(), r),
    {
        let blob_ids = match source.list_blobs(snap_id) {
            Ok(v) => v,
            Err(e) => return Err(e),
        };
        let ghost ids = blob_ids@;
        let ghost mut ws: Seq<ExofsResult<usize>> = Seq::empty();
        let mut result = RestoreResult {
            snap_id,
            n_blobs_ok: 0,
            n_blobs_error: 0,
            n_blobs_skip: 0,
            bytes_restored: 0,
            errors: Vec::new(),
            truncated: false,
        };
        let limit: usize = if opts.max_blobs > 0 { opts.max_blobs } else { usize::MAX };
        let mut i: usize = 0;
        while i < blob_ids.len() && !result.truncated
            invariant
                i <= blob_ids@.len(),
                i <= limit,
                limit == (if opts.max_blobs > 0 { opts.max_blobs } else { usize::MAX }),
                result.snap_id == snap_id,
                result.n_blobs_ok + result.n_blobs_error == i,
                result.errors@.len() == result.n_blobs_error,
                opts.resilient || result.n_blobs_error == 0,
                result.n_blobs_skip == 0,
                result.truncated ==> i == limit && opts.max_blobs > 0,
                forall|k: int| 0 <= k < result.errors@.len() ==> ((#[trigger] result.errors@[k]).kind
                    == RestoreErrorKind::IntegrityFailed ==> opts.verify_integrity),
                self.aborted ==> i == 0,
                ids == blob_ids@,
                source.blobs_listed(snap_id) == Ok::<Seq<BlobId>, ExofsError>(ids),
                ids == source.blobs_listed(snap_id)->Ok_0,
                ws.len() == i,
                !result.truncated ==> i <= blob_ids@.len(),
                result.n_blobs_ok == tally_of(ids, outcomes(*source, snap_id, ids, ws, opts)).n_ok,
                result.n_blobs_error == tally_of(ids, outcomes(*source, snap_id, ids, ws, opts)).n_error,
                result.bytes_restored == tally_of(ids, outcomes(*source, snap_id, ids, ws, opts)).bytes,
                result.errors@ == tally_of(ids, outcomes(*source, snap_id, ids, ws, opts)).errors,
                !opts.resilient ==> forall|k: int| 0 <= k < i ==> (#[trigger] outcomes(*source, snap_id, ids, ws, opts)[k]) is Ok,
                result.truncated ==> i < blob_ids@.len(),
                dest.calls() == old(dest).calls() + writes_upto(*source, snap_id, ids, ws, opts, ws.len() as int),
            decreases blob_ids@.len() - i, (if result.truncated { 0int } else { 1int }),
        {
            if self.aborted {
                dest.abort();
                proof {
                    assert(writes_upto(*source, snap_id, ids, ws, opts, 0) == Seq::<SinkCall>::empty());
                    assert(dest.calls() =~= old(dest).calls() + pipeline_calls(*source, snap_id, ids, ws, opts, self.is_aborted_spec(),
                        Err::<RestoreResult, ExofsError>(ExofsError::Shutdown)));
                    assert(pipeline_ok(*source, snap_id, ids, ws, opts, self.is_aborted_spec(), Err::<RestoreResult, ExofsError>(ExofsError::Shutdown)));
                }
                return Err(ExofsError::Shutdown);
            }
            if i >= limit {
                result.truncated = true;
            } else {
                let blob_id = blob_ids[i];
                let (outcome, Ghost(w)) = Self::restore_one_blob(blob_id, snap_id, source, dest, opts);
                let ghost ws0 = ws;
                proof {
                    ws = ws.push(w);
                    assert forall|k: int| 0 <= k <= ws0.len() implies writes_upto(*source, snap_id, ids, ws, opts, k)
                        == writes_upto(*source, snap_id, ids, ws0, opts, k) by {
                        Self::lemma_writes_prefix(*source, snap_id, ids, ws0, w, opts, k);
                    }
                    assert(writes_upto(*source, snap_id, ids, ws, opts, ws.len() as int) == writes_upto(*source, snap_id, ids, ws0, opts,
                        ws0.len() as int) + blob_call(*source, snap_id, ids[ws0.len() as int], opts, w));
                    let o0 = outcomes(*source, snap_id, ids, ws0, opts);
                    let o1 = outcomes(*source, snap_id, ids, ws, opts);
                    assert(o1.drop_last() =~= o0);
                    assert(o1.last() == outcome);
                }
                let failed = outcome.is_err();
                result.record(blob_id, outcome);
                if failed && !opts.resilient {
                    dest.abort();
                    proof {
                        assert(dest.calls() =~= old(dest).calls() + pipeline_calls(*source, snap_id, ids, ws, opts, self.is_aborted_spec(),
                            Err::<RestoreResult, ExofsError>(ExofsError::ChecksumMismatch)));
                        let o1 = outcomes(*source, snap_id, ids, ws, opts);
                        assert(forall|k: int| 0 <= k < ws.len() - 1 ==> #[trigger] o1[k] == outcomes(*source, snap_id, ids, ws0, opts)[k]);
                        assert(pipeline_ok(*source, snap_id, ids, ws, opts, self.is_aborted_spec(), Err::<RestoreResult, ExofsError>(ExofsError::ChecksumMismatch)));
                    }
                    return Err(ExofsError::ChecksumMismatch);
                }
                proof {
                    let o1 = outcomes(*source, snap_id, ids, ws, opts);
                    assert(forall|k: int| 0 <= k < ws.len() - 1 ==> #[trigger] o1[k] == outcomes(*source, snap_id, ids, ws0, opts)[k]);
                }
                i += 1;
            }
        }
        proof {
            if !result.truncated {
                assert(i == blob_ids@.len());
            }
        }
        if result.n_blobs_error == 0 || opts.resilient {
            let ghost before_fin = dest.calls();
            let fin = dest.finalize();
            proof {
                assert(before_fin == old(dest).calls() + writes_upto(*source, snap_id, ids, ws, opts, ws.len() as int));
            }
            match fin {
                Ok(_) => {
                    proof {
                        assert(fin is Ok);
                        assert(fin->Ok_0 == ());
                        assert(fin == Ok::<(), ExofsError>(()));
                        assert(dest.calls() == before_fin.push(SinkCall::Finalize { answer: Ok::<(), ExofsError>(()) }));
                    }
                },
                Err(e) => {
                    proof {
                        assert(dest.calls() =~= old(dest).calls() + pipeline_calls(*source, snap_id, ids, ws, opts, self.is_aborted_spec(),
                            Err::<RestoreResult, ExofsError>(e)));
                        assert(pipeline_ok(*source, snap_id, ids, ws, opts, self.is_aborted_spec(), Err::<RestoreResult, ExofsError>(e)));
                    }
                    return Err(e);
                },
            }
        } else {
            dest.abort();
            return Err(ExofsError::ChecksumMismatch);
        }
        proof {
            assert(pipeline_ok(*source, snap_id, ids, ws, opts, self.is_aborted_spec(), Ok::<RestoreResult, ExofsError>(result)));
            assert(dest.calls() =~= old(dest).calls() + pipeline_calls(*source, snap_id, ids, ws, opts, self.is_aborted_spec(),
                Ok::<RestoreResult, ExofsError>(result)));
        }
        Ok(result)
    }

    /// Sink answers after the first `k` do not change the writes before them.
    proof fn lemma_writes_prefix<S: SnapshotBlobSource>(
        source: S,
        snap: SnapshotId,
        ids: Seq<BlobId>,
        ws: Seq<ExofsResult<usize>>,
        w: ExofsResult<usize>,
        opts: RestoreOptions,
        k: int,
    )
        requires
            0 <= k <= ws.len(),
        ensures
            writes_upto(source, snap, ids, ws.push(w), opts, k) == writes_upto(source, snap, ids, ws, opts, k),
        decreases k,
    {
        if k > 0 {
            Self::lemma_writes_prefix(source, snap, ids, ws, w, opts, k - 1);
            assert(ws.push(w)[k - 1] == ws[k - 1]);
        }
    }

    fn restore_one_blob<S: SnapshotBlobSource, D: RestoreSink>(
        blob_id: BlobId,
        snap_id: SnapshotId,
        source: &S,
        dest: &mut D,
        opts: RestoreOptions,
    ) -> (r: (Result<usize, RestoreErrorKind>, Ghost<ExofsResult<usize>>))
        ensures
            r.0 == Err::<usize, RestoreErrorKind>(RestoreErrorKind::IntegrityFailed) ==> opts.verify_integrity,
            r.0 == blob_outcome(*source, snap_id, blob_id, opts, r.1@),
            r.0 == Err::<usize, RestoreErrorKind>(RestoreErrorKind::ReadFailed)
                || r.0 == Err::<usize, RestoreErrorKind>(RestoreErrorKind::IntegrityFailed) ==> *final(dest) == *old(dest),
            final(dest).calls() == old(dest).calls() + blob_call(*source, snap_id, blob_id, opts, r.1@),
    {
        let data = match source.read_blob(snap_id, blob_id) {
            Ok(d) => d,
            Err(_) => return (Err(RestoreErrorKind::ReadFailed), Ghost(Err(ExofsError::IoError))),
        };
        match check_blob(&blob_id, data.as_slice(), opts) {
            Some(k) => return (Err(k), Ghost(Err(ExofsError::IoError))),
            None => {},
        }
        let written = dest.write_blob(blob_id, data.as_slice());
        (write_verdict(written, data.len()), Ghost(written))
    }

    /// Aborts the restorations run from now on.
    pub fn abort(&mut self)
        ensures
            final(self).is_aborted_spec(),
    {
        self.aborted = true;
    }

    /// True iff aborted.
    pub fn is_aborted(&self) -> (r: bool)
        ensures
            r == self.is_aborted_spec(),
    {
        self.aborted
    }

    /// Lifts the abort.
    pub fn reset(&mut self)
        ensures
            !final(self).is_aborted_spec(),
    {
        self.aborted = false;
    }
}

/// A sink that writes nothing and counts what it is given.
pub struct NullRestoreSink {
    pub bytes_received: u64,
    pub blobs_received: u64,
    /// The calls received.
    pub log: Ghost<Seq<SinkCall>>,
}

impl NullRestoreSink {
    /// A sink that received nothing.
    pub fn new() -> (r: NullRestoreSink)
        ensures
            r.bytes_received == 0 && r.blobs_received == 0,
            r.calls() == Seq::<SinkCall>::empty(),
    {
        NullRestoreSink { bytes_received: 0, blobs_received: 0, log: Ghost(Seq::empty()) }
    }
}

impl RestoreSink for NullRestoreSink {
    closed spec fn calls(&self) -> Seq<SinkCall> {
        self.log@
    }

    fn write_blob(&mut self, blob_id: BlobId, data: &[u8]) -> (r: ExofsResult<usize>)
        ensures
            r == Ok::<usize, ExofsError>(data@.len() as usize),
            final(self).bytes_received == (if old(self).bytes_received + data@.len() > u64::MAX { u64::MAX as int } else {
                old(self).bytes_received + data@.len()
            }),
            final(self).blobs_received == (if old(self).blobs_received == u64::MAX { 0 } else {
                old(self).blobs_received + 1
            }),
    {
        let n: u64 = data.len() as u64;
        self.bytes_received = self.bytes_received.saturating_add(n);
        self.blobs_received = self.blobs_received.wrapping_add(1);
        let r: ExofsResult<usize> = Ok(data.len());
        self.log = Ghost(self.log@.push(SinkCall::Write { blob_id, data: data@, answer: r }));
        r
    }

    fn finalize(&mut self) -> (r: ExofsResult<()>)
        ensures
            r is Ok,
            final(self).bytes_received == old(self).bytes_received,
            final(self).blobs_received == old(self).blobs_received,
    {
        self.log = Ghost(self.log@.push(SinkCall::Finalize { answer: Ok(()) }));
        Ok(())
    }

    fn abort(&mut self)
        ensures
            final(self).bytes_received == old(self).bytes_received,
            final(self).blobs_received == old(self).blobs_received,
    {
        self.log = Ghost(self.log@.push(SinkCall::Abort));
    }
}

/// The data recorded last for the identifier `id` in `s`.
pub open spec fn last_data(s: Seq<(BlobId, Vec<u8>)>, id: Seq<u8>) -> Option<Seq<u8>>
    decreases s.len(),
{
    if s.len() == 0 {
        None
    } else if s.last().0.0@ == id {
        Some(s.last().1@)
    } else {
        last_data(s.drop_last(), id)
    }
}

/// The blobs listed for the snapshot `snap` in `s`, in the order they were added.
pub open spec fn listed(s: Seq<(u64, BlobId)>, snap: u64) -> Seq<BlobId>
    decreases s.len(),
{
    if s.len() == 0 {
        Seq::empty()
    } else {
        let p = listed(s.drop_last(), snap);
        if s.last().0 == snap { p.push(s.last().1) } else { p }
    }
}

/// A source of blobs held in memory.
pub struct MemBlobSource {
    entries: Vec<(BlobId, Vec<u8>)>,
    snap_blobs: Vec<(u64, BlobId)>,
}

impl MemBlobSource {
    /// The data the source gives for the identifier `id`.
    pub closed spec fn data_of(&self, id: Seq<u8>) -> Option<Seq<u8>> {
        last_data(self.entries@, id)
    }

    /// The blobs the source lists for `snap`.
    pub closed spec fn blobs_of(&self, snap: u64) -> Seq<BlobId> {
        listed(self.snap_blobs@, snap)
    }

    /// A source with no blob.
    pub fn new() -> (r: MemBlobSource)
        ensures
            forall|id: Seq<u8>| r.data_of(id) is None,
            forall|snap: u64| r.blobs_of(snap).len() == 0,
    {
        MemBlobSource { entries: Vec::new(), snap_blobs: Vec::new() }
    }

    /// Records `data` under `blob_id` and lists the blob for `snap_id`.
    pub fn add_blob(&mut self, snap_id: SnapshotId, blob_id: BlobId, data: Vec<u8>) -> (r: ExofsResult<()>)
        ensures
            r is Ok,
            final(self).data_of(blob_id.0@) == Some(data@),
            forall|id: Seq<u8>| id != blob_id.0@ ==> final(self).data_of(id) == old(self).data_of(id),
            final(self).blobs_of(snap_id.0) == old(self).blobs_of(snap_id.0).push(blob_id),
            forall|snap: u64| snap != snap_id.0 ==> final(self).blobs_of(snap) == old(self).blobs_of(snap),
    {
        let ghost e0 = self.entries@;
        let ghost s0 = self.snap_blobs@;
        self.entries.push((blob_id, data));
        self.snap_blobs.push((snap_id.0, blob_id));
        proof {
            assert(self.entries@.drop_last() =~= e0);
            assert(self.snap_blobs@.drop_last() =~= s0);
        }
        Ok(())
    }

    fn copy_bytes(v: &Vec<u8>) -> (r: Vec<u8>)
        ensures
            r@ == v@,
    {
        let mut out: Vec<u8> = Vec::new();
        let mut i: usize = 0;
        while i < v.len()
            invariant
                0 <= i <= v@.len(),
                out@ == v@.subrange(0, i as int),
            decreases v@.len() - i,
        {
            out.push(v[i]);
            i += 1;
            proof {
                assert(v@.subrange(0, i as int) =~= v@.subrange(0, i - 1).push(v@[i - 1]));
            }
        }
        proof {
            assert(v@.subrange(0, i as int) =~= v@);
        }
        out
    }
}

impl SnapshotBlobSource for MemBlobSource {
    open spec fn blob(&self, snap_id: SnapshotId, blob_id: BlobId) -> ExofsResult<Seq<u8>> {
        match self.data_of(blob_id.0@) {
            Some(d) => Ok(d),
            None => Err(ExofsError::NotFound),
        }
    }

    open spec fn blobs_listed(&self, snap_id: SnapshotId) -> ExofsResult<Seq<BlobId>> {
        Ok(self.blobs_of(snap_id.0))
    }

    fn read_blob(&self, snap_id: SnapshotId, blob_id: BlobId) -> (r: ExofsResult<Vec<u8>>)
        ensures
            match self.data_of(blob_id.0@) {
                Some(d) => r matches Ok(v) && v@ == d,
                None => r == Err::<Vec<u8>, ExofsError>(ExofsError::NotFound),
            },
    {
        let mut i: usize = self.entries.len();
        proof {
            assert(self.entries@.subrange(0, i as int) =~= self.entries@);
        }
        while i > 0
            invariant
                i <= self.entries@.len(),
                last_data(self.entries@, blob_id.0@) == last_data(self.entries@.subrange(0, i as int), blob_id.0@),
            decreases i,
        {
            let ghost p = self.entries@.subrange(0, i as int);
            assert(p.drop_last() =~= self.entries@.subrange(0, i - 1));
            if self.entries[i - 1].0.ct_eq(&blob_id) {
                return Ok(Self::copy_bytes(&self.entries[i - 1].1));
            }
            i -= 1;
        }
        Err(ExofsError::NotFound)
    }

    fn list_blobs(&self, snap_id: SnapshotId) -> (r: ExofsResult<Vec<BlobId>>)
        ensures
            r matches Ok(v) && v@ == self.blobs_of(snap_id.0),
    {
        let mut out: Vec<BlobId> = Vec::new();
        let mut i: usize = 0;
        while i < self.snap_blobs.len()
            invariant
                0 <= i <= self.snap_blobs@.len(),
                out@ == listed(self.snap_blobs@.subrange(0, i as int), snap_id.0),
            decreases self.snap_blobs@.len() - i,
        {
            let ghost p = self.snap_blobs@.subrange(0, i + 1);
            assert(p.drop_last() =~= self.snap_blobs@.subrange(0, i as int));
            let e = self.snap_blobs[i];
            if e.0 == snap_id.0 {
                out.push(e.1);
            }
            i += 1;
        }
        proof {
            assert(self.snap_blobs@.subrange(0, i as int) =~= self.snap_blobs@);
        }
        Ok(out)
    }
}

} // verus!
