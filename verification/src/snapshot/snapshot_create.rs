//! Creating a snapshot from a set of blobs: checks on the parameters, the
//! root over the raw blob identifiers, and registration.
use vstd::prelude::*;
use crate::types::{BlobId, DiskOffset, EpochId, ExofsError, ExofsResult, SnapshotId};
use crate::hash::{blob_id_spec, compute_blob_id};
use crate::bytes::push_bytes;
use crate::snapshot::snapshot::{flags, make_snapshot_name, Snapshot, SNAPSHOT_MAX_COUNT};
use crate::snapshot::snapshot_list::{has_key, SnapshotList, SnapshotListView};
use crate::snapshot::snapshot_delete::{ranked, tree_ordered};

verus! {

/// Most blobs in one snapshot.
pub const SNAPSHOT_MAX_BLOBS: u64 = 16777216;
/// Most bytes in one snapshot (512 GiB).
pub const SNAPSHOT_MAX_TOTAL_BYTES: u64 = 549755813888;

/// Parameters of a new snapshot.
#[derive(Clone, Copy, Debug)]
pub struct SnapshotParams {
    pub name: [u8; 128],
    pub parent_id: Option<SnapshotId>,
    pub epoch_id: EpochId,
    pub flags: u32,
    /// 0 for no quota.
    pub quota_bytes: u64,
    pub created_at: u64,
    pub blob_catalog_offset: DiskOffset,
    pub blob_catalog_size: u32,
}

impl SnapshotParams {
    /// Parameters with the name made from `name` and the other fields zero.
    pub fn new(name: &[u8], parent_id: Option<SnapshotId>, epoch_id: EpochId) -> (r: SnapshotParams)
        ensures
            r.parent_id == parent_id && r.epoch_id == epoch_id && r.flags == 0 && r.quota_bytes == 0,
            r.created_at == 0 && r.blob_catalog_offset == DiskOffset(0) && r.blob_catalog_size == 0,
            ({
                let n = if name@.len() < 128 { name@.len() as int } else { 128 };
                r.name@ == name@.subrange(0, n) + Seq::new((128 - n) as nat, |i: int| 0u8)
            }),
    {
        SnapshotParams {
            name: make_snapshot_name(name),
            parent_id,
            epoch_id,
            flags: 0,
            quota_bytes: 0,
            created_at: 0,
            blob_catalog_offset: DiskOffset(0),
            blob_catalog_size: 0,
        }
    }
}

/// What a creation gave.
#[derive(Clone, Copy, Debug)]
pub struct SnapshotCreateResult {
    pub id: SnapshotId,
    pub root_blob: BlobId,
    pub n_blobs: u64,
    pub total_bytes: u64,
    pub duration_ticks: u64,
}

/// A blob of a snapshot: its identifier over the raw bytes and their size.
#[derive(Clone, Copy, Debug)]
pub struct BlobEntry {
    pub blob_id: BlobId,
    pub raw_size: u64,
}

impl BlobEntry {
    /// The entry of `blob_id` of `raw_size` bytes.
    pub fn new(blob_id: BlobId, raw_size: u64) -> (r: BlobEntry)
        ensures
            r == (BlobEntry { blob_id, raw_size }),
    {
        BlobEntry { blob_id, raw_size }
    }
}

/// Sum of the raw sizes of the first `n` entries.
pub open spec fn raw_sum(s: Seq<BlobEntry>, n: int) -> int
    decreases n,
{
    if n <= 0 { 0 } else { raw_sum(s, n - 1) + s[n - 1].raw_size }
}

/// The identifiers of the first `n` entries, one after the other.
pub open spec fn ids_concat(s: Seq<BlobEntry>, n: int) -> Seq<u8>
    decreases n,
{
    if n <= 0 { Seq::empty() } else { ids_concat(s, n - 1) + s[n - 1].blob_id.0@ }
}

/// Root of a set of blobs: the identifier of their identifiers one after
/// the other (of nothing for an empty set).
pub open spec fn root_of(s: Seq<BlobEntry>) -> Seq<u8> {
    blob_id_spec(ids_concat(s, s.len() as int))
}

proof fn lemma_raw_sum_mono(s: Seq<BlobEntry>, a: int, b: int)
    requires
        0 <= a <= b <= s.len(),
    ensures
        raw_sum(s, a) <= raw_sum(s, b),
    decreases b - a,
{
    if a < b {
        lemma_raw_sum_mono(s, a, b - 1);
    }
}

/// Blobs gathered for a new snapshot, in order.
pub struct SnapshotBlobSet {
    entries: Vec<BlobEntry>,
}

impl View for SnapshotBlobSet {
    type V = Seq<BlobEntry>;

    closed spec fn view(&self) -> Seq<BlobEntry> {
        self.entries@
    }
}

impl SnapshotBlobSet {
    /// An empty set.
    pub fn new() -> (r: SnapshotBlobSet)
        ensures
            r@ == Seq::<BlobEntry>::empty(),
    {
        SnapshotBlobSet { entries: Vec::new() }
    }

    /// Appends `entry`.
    pub fn push(&mut self, entry: BlobEntry) -> (r: ExofsResult<()>)
        ensures
            r is Ok,
            final(self)@ == old(self)@.push(entry),
    {
        self.entries.push(entry);
        Ok(())
    }

    /// Number of entries.
    pub fn len(&self) -> (r: u64)
        ensures
            r == self@.len(),
    {
        self.entries.len() as u64
    }

    /// True iff there is no entry.
    pub fn is_empty(&self) -> (r: bool)
        ensures
            r == (self@.len() == 0),
    {
        self.entries.len() == 0
    }

    /// Sum of the raw sizes; `Overflow` when it does not fit.
    pub fn total_bytes(&self) -> (r: ExofsResult<u64>)
        ensures
            raw_sum(self@, self@.len() as int) > u64::MAX ==> r == Err::<u64, ExofsError>(ExofsError::Overflow),
            raw_sum(self@, self@.len() as int) <= u64::MAX ==> (r matches Ok(t) && t == raw_sum(self@, self@.len() as int)),
    {
        let mut total: u64 = 0;
        let mut i: usize = 0;
        while i < self.entries.len()
            invariant
                0 <= i <= self.entries@.len(),
                total == raw_sum(self.entries@, i as int),
            decreases self.entries.len() - i,
        {
            total = match total.checked_add(self.entries[i].raw_size) {
                Some(t) => t,
                None => {
                    proof {
                        lemma_raw_sum_mono(self.entries@, i + 1, self.entries@.len() as int);
                    }
                    return Err(ExofsError::Overflow);
                },
            };
            i += 1;
        }
        Ok(total)
    }

    /// The root over the identifiers of the entries.
    pub fn compute_root_blob(&self) -> (r: ExofsResult<BlobId>)
        ensures
            r matches Ok(id) && id.0@ == root_of(self@),
    {
        let mut raw: Vec<u8> = Vec::new();
        let mut i: usize = 0;
        while i < self.entries.len()
            invariant
                0 <= i <= self.entries@.len(),
                raw@ == ids_concat(self.entries@, i as int),
            decreases self.entries.len() - i,
        {
            push_bytes(&mut raw, self.entries[i].blob_id.0.as_slice());
            i += 1;
        }
        Ok(compute_blob_id(raw.as_slice()))
    }

    /// The entries.
    pub fn entries(&self) -> (r: &[BlobEntry])
        ensures
            r@ == self@,
    {
        self.entries.as_slice()
    }
}

/// The name has a nonzero byte.
pub open spec fn name_given(n: Seq<u8>) -> bool {
    exists|i: int| 0 <= i < n.len() && n[i] != 0
}

/// What the checks made before registration give, in their order.
pub open spec fn create_verdict(p: SnapshotParams, e: Seq<BlobEntry>, list: SnapshotListView) -> ExofsResult<()> {
    let total = raw_sum(e, e.len() as int);
    if !name_given(p.name@) {
        Err(ExofsError::InvalidArgument)
    } else if p.epoch_id.0 == 0 {
        Err(ExofsError::InvalidArgument)
    } else if e.len() > SNAPSHOT_MAX_BLOBS {
        Err(ExofsError::InvalidSize)
    } else if total > u64::MAX {
        Err(ExofsError::Overflow)
    } else if total > SNAPSHOT_MAX_TOTAL_BYTES {
        Err(ExofsError::InvalidSize)
    } else if p.quota_bytes != 0 && total > p.quota_bytes {
        Err(ExofsError::InvalidSize)
    } else if p.parent_id matches Some(pid) && !has_key(list.entries, pid.0) {
        Err(ExofsError::NotFound)
    } else {
        Ok(())
    }
}

/// The id the registry hands out next.
pub open spec fn next_id_of(list: SnapshotListView) -> u64 {
    if list.next_id == 0 { 1 } else { list.next_id }
}

/// The snapshot made from `p` under `id`.
pub open spec fn made_snapshot(p: SnapshotParams, id: SnapshotId, root: BlobId, n: u64, total: u64) -> Snapshot {
    Snapshot {
        id,
        epoch_id: p.epoch_id,
        parent_id: p.parent_id,
        root_blob: root,
        created_at: p.created_at,
        n_blobs: n,
        total_bytes: total,
        flags: (p.flags | (if p.quota_bytes != 0 { flags::QUOTA_SET } else { 0 })) | (if p.parent_id is Some { flags::INCREMENTAL } else { 0 }),
        blob_catalog_offset: p.blob_catalog_offset,
        blob_catalog_size: p.blob_catalog_size,
        name: p.name,
    }
}

/// What registering a snapshot of `total` bytes under the next id of
/// `list` answers, once every check has passed: the registry full, the id
/// taken, the byte total overflowing, or success.
pub open spec fn register_verdict(list: SnapshotListView, total: int) -> ExofsResult<()> {
    if list.count >= SNAPSHOT_MAX_COUNT {
        Err(ExofsError::BufferFull)
    } else if has_key(list.entries, next_id_of(list)) {
        Err(ExofsError::InvalidState)
    } else if list.total_bytes + total > u64::MAX {
        Err(ExofsError::Overflow)
    } else {
        Ok(())
    }
}

/// `name` cut or padded with zeros to 128 bytes.
pub open spec fn padded_name(name: Seq<u8>) -> Seq<u8> {
    let n = if name.len() < 128 { name.len() as int } else { 128 };
    name.subrange(0, n) + Seq::new((128 - n) as nat, |i: int| 0u8)
}

/// The checks of an incremental snapshot of `parent_id` holding `e`, in
/// their order.
pub open spec fn incremental_verdict(parent_id: SnapshotId, e: Seq<BlobEntry>, epoch_id: EpochId, name: Seq<u8>, list: SnapshotListView) -> ExofsResult<()> {
    let total = raw_sum(e, e.len() as int);
    if !has_key(list.entries, parent_id.0) {
        Err(ExofsError::NotFound)
    } else if !name_given(padded_name(name)) {
        Err(ExofsError::InvalidArgument)
    } else if epoch_id.0 == 0 {
        Err(ExofsError::InvalidArgument)
    } else if e.len() > SNAPSHOT_MAX_BLOBS {
        Err(ExofsError::InvalidSize)
    } else if total > u64::MAX {
        Err(ExofsError::Overflow)
    } else if total > SNAPSHOT_MAX_TOTAL_BYTES {
        Err(ExofsError::InvalidSize)
    } else {
        Ok(())
    }
}

/// Builder of snapshots.
pub struct SnapshotCreator;

impl SnapshotCreator {
    /// Checks the parameters, builds the snapshot of `blobs` and registers it
    /// in `list` under a fresh id.
    pub fn create(list: &mut SnapshotList, params: &SnapshotParams, blobs: SnapshotBlobSet) -> (r: ExofsResult<SnapshotCreateResult>)
        requires
            old(list).wf(),
        ensures
            final(list).wf(),
            create_verdict(*params, blobs@, old(list)@) matches Err(e) ==> r == Err::<SnapshotCreateResult, ExofsError>(e)
                && final(list)@ == old(list)@,
            create_verdict(*params, blobs@, old(list)@) is Ok ==> {
                let id = SnapshotId(next_id_of(old(list)@));
                let total = raw_sum(blobs@, blobs@.len() as int);
                &&& r matches Ok(res) ==> {
                    &&& res.id == id && res.n_blobs == blobs@.len() && res.total_bytes == total && res.duration_ticks == 0
                    &&& res.root_blob.0@ == root_of(blobs@)
                    &&& exists|i: int| 0 <= i < final(list)@.entries.len() && #[trigger] final(list)@.entries[i]
                        == (id.0, made_snapshot(*params, id, res.root_blob, res.n_blobs, res.total_bytes))
                    &&& exists|p: int| 0 <= p <= old(list)@.entries.len() && #[trigger] old(list)@.entries.insert(p, (id.0, made_snapshot(
                        *params, id, res.root_blob, res.n_blobs, res.total_bytes))) == final(list)@.entries
                    &&& final(list)@.count == old(list)@.count + 1
                }
                &&& register_verdict(old(list)@, total) matches Err(e) ==> r == Err::<SnapshotCreateResult, ExofsError>(e)
                    && final(list)@.entries == old(list)@.entries && final(list)@.count == old(list)@.count
                    && final(list)@.total_bytes == old(list)@.total_bytes
                &&& register_verdict(old(list)@, total) is Ok ==> r is Ok
            },
    {
        Self::validate_params(params)?;
        if blobs.len() > SNAPSHOT_MAX_BLOBS {
            return Err(ExofsError::InvalidSize);
        }
        let total_bytes = match blobs.total_bytes() {
            Ok(t) => t,
            Err(e) => return Err(e),
        };
        if total_bytes > SNAPSHOT_MAX_TOTAL_BYTES {
            return Err(ExofsError::InvalidSize);
        }
        if params.quota_bytes != 0 && total_bytes > params.quota_bytes {
            return Err(ExofsError::InvalidSize);
        }
        if let Some(parent_id) = params.parent_id {
            match list.get_ref(parent_id) {
                Ok(_) => {},
                Err(e) => return Err(e),
            }
        }
        let root_blob = match blobs.compute_root_blob() {
            Ok(b) => b,
            Err(e) => return Err(e),
        };
        let n_blobs = blobs.len();
        let snap_id = match list.allocate_id() {
            Ok(i) => i,
            Err(e) => return Err(e),
        };
        let quota_bit: u32 = if params.quota_bytes != 0 { flags::QUOTA_SET } else { 0 };
        let incr_bit: u32 = if params.parent_id.is_some() { flags::INCREMENTAL } else { 0 };
        let snap_flags = (params.flags | quota_bit) | incr_bit;
        let snap = Snapshot {
            id: snap_id,
            epoch_id: params.epoch_id,
            parent_id: params.parent_id,
            root_blob,
            created_at: params.created_at,
            n_blobs,
            total_bytes,
            flags: snap_flags,
            blob_catalog_offset: params.blob_catalog_offset,
            blob_catalog_size: params.blob_catalog_size,
            name: params.name,
        };
        let ghost mid = list@;
        proof {
            list.lemma_wf();
        }
        match list.register(snap) {
            Ok(_) => {},
            Err(e) => return Err(e),
        }
        proof {
            let p = choose|p: int| 0 <= p <= mid.entries.len()
                && (forall|i: int| 0 <= i < p ==> (#[trigger] mid.entries[i]).0 < snap.id.0)
                && (forall|i: int| p <= i < mid.entries.len() ==> (#[trigger] mid.entries[i]).0 > snap.id.0)
                && list@.entries == mid.entries.insert(p, (snap.id.0, snap));
            assert(list@.entries[p] == (snap_id.0, snap));
            assert(mid.entries == old(list)@.entries);
            assert(old(list)@.entries.insert(p, (snap_id.0, snap)) == list@.entries);
        }
        Ok(SnapshotCreateResult { id: snap_id, root_blob, n_blobs, total_bytes, duration_ticks: 0 })
    }

    /// Creates a snapshot with no blob.
    pub fn create_empty(list: &mut SnapshotList, params: &SnapshotParams) -> (r: ExofsResult<SnapshotCreateResult>)
        requires
            old(list).wf(),
        ensures
            final(list).wf(),
            create_verdict(*params, Seq::empty(), old(list)@) matches Err(e) ==> r == Err::<SnapshotCreateResult, ExofsError>(e)
                && final(list)@ == old(list)@,
            create_verdict(*params, Seq::empty(), old(list)@) is Ok ==> {
                let id = SnapshotId(next_id_of(old(list)@));
                &&& r matches Ok(res) ==> res.id == id && res.n_blobs == 0 && res.total_bytes == 0
                    && res.root_blob.0@ == root_of(Seq::empty()) && final(list)@.count == old(list)@.count + 1
                    && exists|i: int| 0 <= i < final(list)@.entries.len() && #[trigger] final(list)@.entries[i]
                        == (id.0, made_snapshot(*params, id, res.root_blob, 0, 0))
                &&& register_verdict(old(list)@, 0) matches Err(e) ==> r == Err::<SnapshotCreateResult, ExofsError>(e)
                    && final(list)@.entries == old(list)@.entries && final(list)@.count == old(list)@.count
                    && final(list)@.total_bytes == old(list)@.total_bytes
                &&& register_verdict(old(list)@, 0) is Ok ==> r is Ok
            },
    {
        Self::create(list, params, SnapshotBlobSet::new())
    }

    /// The name must hold a nonzero byte and the epoch must not be 0.
    pub fn validate_params(params: &SnapshotParams) -> (r: ExofsResult<()>)
        ensures
            !name_given(params.name@) ==> r == Err::<(), ExofsError>(ExofsError::InvalidArgument),
            name_given(params.name@) && params.epoch_id.0 == 0 ==> r == Err::<(), ExofsError>(ExofsError::InvalidArgument),
            name_given(params.name@) && params.epoch_id.0 != 0 ==> r is Ok,
    {
        let mut all_zero = true;
        let mut i: usize = 0;
        while i < 128
            invariant
                0 <= i <= 128,
                params.name@.len() == 128,
                all_zero == forall|k: int| 0 <= k < i ==> params.name@[k] == 0,
            decreases 128 - i,
        {
            if params.name[i] != 0 {
                all_zero = false;
            }
            i += 1;
        }
        if all_zero {
            return Err(ExofsError::InvalidArgument);
        }
        if !params.epoch_id.is_valid() {
            return Err(ExofsError::InvalidArgument);
        }
        Ok(())
    }

    /// Creates an incremental snapshot of `parent_id` holding `new_blobs`.
    #[verifier::rlimit(40)]
    pub fn create_incremental(
        list: &mut SnapshotList,
        parent_id: SnapshotId,
        new_blobs: Vec<BlobEntry>,
        epoch_id: EpochId,
        name: &[u8],
        created_at: u64,
    ) -> (r: ExofsResult<SnapshotCreateResult>)
        requires
            old(list).wf(),
        ensures
            final(list).wf(),
            !has_key(old(list)@.entries, parent_id.0) ==> r == Err::<SnapshotCreateResult, ExofsError>(ExofsError::NotFound)
                && final(list)@ == old(list)@,
            r matches Ok(res) ==> res.n_blobs == new_blobs@.len() && res.total_bytes == raw_sum(new_blobs@, new_blobs@.len() as int)
                && res.root_blob.0@ == root_of(new_blobs@) && res.id == SnapshotId(next_id_of(old(list)@)),
            incremental_verdict(parent_id, new_blobs@, epoch_id, name@, old(list)@) matches Err(e)
                ==> r == Err::<SnapshotCreateResult, ExofsError>(e) && final(list)@ == old(list)@,
            incremental_verdict(parent_id, new_blobs@, epoch_id, name@, old(list)@) is Ok ==> {
                let total = raw_sum(new_blobs@, new_blobs@.len() as int);
                &&& register_verdict(old(list)@, total) matches Err(e) ==> r == Err::<SnapshotCreateResult, ExofsError>(e)
                    && final(list)@.entries == old(list)@.entries && final(list)@.count == old(list)@.count
                    && final(list)@.total_bytes == old(list)@.total_bytes
                &&& register_verdict(old(list)@, total) is Ok ==> r is Ok
            },
    {
        let _parent = list.get(parent_id)?;
        let params = SnapshotParams {
            name: make_snapshot_name(name),
            parent_id: Some(parent_id),
            epoch_id,
            flags: flags::INCREMENTAL,
            quota_bytes: 0,
            created_at,
            blob_catalog_offset: DiskOffset(0),
            blob_catalog_size: 0,
        };
        let mut set = SnapshotBlobSet::new();
        let mut i: usize = 0;
        while i < new_blobs.len()
            invariant
                0 <= i <= new_blobs@.len(),
                set@ == new_blobs@.subrange(0, i as int),
            decreases new_blobs.len() - i,
        {
            let _ = set.push(new_blobs[i]);
            proof {
                assert(set@ =~= new_blobs@.subrange(0, i + 1));
            }
            i += 1;
        }
        proof {
            assert(set@ =~= new_blobs@);
            assert(params.name@ == padded_name(name@));
            assert(create_verdict(params, set@, old(list)@) == incremental_verdict(parent_id, new_blobs@, epoch_id, name@, old(list)@));
        }
        Self::create(list, &params, set)
    }
}

/// The entries of raw blobs: each identifier computed over the raw bytes.
pub fn entries_from_raw(raw_data: &[&[u8]]) -> (r: ExofsResult<Vec<BlobEntry>>)
    ensures
        r matches Ok(v) && v@.len() == raw_data@.len() && forall|k: int| 0 <= k < v@.len() ==> {
            &&& (#[trigger] v@[k]).blob_id.0@ == blob_id_spec(raw_data@[k]@)
            &&& v@[k].raw_size == raw_data@[k]@.len()
        },
{
    let mut out: Vec<BlobEntry> = Vec::new();
    let mut i: usize = 0;
    while i < raw_data.len()
        invariant
            0 <= i <= raw_data@.len(),
            out@.len() == i,
            forall|k: int| 0 <= k < i ==> {
                &&& (#[trigger] out@[k]).blob_id.0@ == blob_id_spec(raw_data@[k]@)
                &&& out@[k].raw_size == raw_data@[k]@.len()
            },
        decreases raw_data.len() - i,
    {
        let data = raw_data[i];
        let blob_id = compute_blob_id(data);
        out.push(BlobEntry { blob_id, raw_size: data.len() as u64 });
        i += 1;
    }
    Ok(out)
}

/// Adding a snapshot under its own id keeps the parent links free of
/// cycles, when its parent, if any, is another snapshot and no entry names
/// its id as a parent: so it is for a snapshot that `create` makes under a
/// fresh id.
pub proof fn lemma_insert_keeps_tree_ordered(s: Seq<(u64, Snapshot)>, p: int, snap: Snapshot)
    requires
        tree_ordered(s),
        0 <= p <= s.len(),
        snap.parent_id matches Some(q) ==> q != snap.id,
        forall|i: int| 0 <= i < s.len() ==> (#[trigger] s[i]).1.parent_id != Some(snap.id),
    ensures
        tree_ordered(s.insert(p, (snap.id.0, snap))),
{
    let n = s.insert(p, (snap.id.0, snap));
    let rank = choose|rank: spec_fn(u64) -> nat| ranked(s, rank);
    let r2 = |x: u64| if x == snap.id.0 { 0nat } else { rank(x) + 1 };
    assert forall|i: int| 0 <= i < n.len() implies ((#[trigger] n[i]).1.parent_id matches Some(q) ==> r2(n[i].0) < r2(q.0)) by {
        if i < p {
            assert(n[i] == s[i]);
        } else if i > p {
            assert(n[i] == s[i - 1]);
        }
        if n[i].1.parent_id is Some && i != p {
            let k = if i < p { i } else { i - 1 };
            assert(s[k].1.parent_id != Some(snap.id));
            assert(s[k].1.id.0 == s[k].0);
        }
    }
    assert(ranked(n, r2));
    assert forall|i: int| 0 <= i < n.len() implies (#[trigger] n[i]).1.id.0 == n[i].0 by {
        if i < p {
            assert(n[i] == s[i]);
        } else if i > p {
            assert(n[i] == s[i - 1]);
        }
    }
}

/// A snapshot is only created under a parent that is registered: the checks
/// before registration pass only when the parent, if any, is in the
/// registry, and an unregistered parent makes them fail (with `NotFound`
/// once the other arguments are valid); an incremental snapshot likewise
/// needs its parent registered.
pub proof fn lemma_create_needs_registered_parent(p: SnapshotParams, e: Seq<BlobEntry>, list: SnapshotListView)
    ensures
        create_verdict(p, e, list) is Ok ==> (p.parent_id matches Some(pid) ==> has_key(list.entries, pid.0)),
        p.parent_id matches Some(pid) && !has_key(list.entries, pid.0) ==> create_verdict(p, e, list) is Err,
        p.parent_id matches Some(pid) && !has_key(list.entries, pid.0) && create_verdict(SnapshotParams { parent_id: None, ..p }, e, list)
            is Ok ==> create_verdict(p, e, list) == Err::<(), ExofsError>(ExofsError::NotFound),
        forall|pid: SnapshotId, epoch_id: EpochId, name: Seq<u8>| #[trigger] incremental_verdict(pid, e, epoch_id, name, list) is Ok
            ==> has_key(list.entries, pid.0),
{
}

/// A snapshot is only created from valid arguments: a name, a nonzero
/// epoch, at most `SNAPSHOT_MAX_BLOBS` blobs whose sizes sum to at most
/// `SNAPSHOT_MAX_TOTAL_BYTES`, and within the quota when one is given; any
/// of these failing makes the checks fail.
pub proof fn lemma_create_needs_valid_arguments(p: SnapshotParams, e: Seq<BlobEntry>, list: SnapshotListView)
    ensures
        create_verdict(p, e, list) is Ok <==> {
            &&& name_given(p.name@)
            &&& p.epoch_id.0 != 0
            &&& e.len() <= SNAPSHOT_MAX_BLOBS
            &&& raw_sum(e, e.len() as int) <= SNAPSHOT_MAX_TOTAL_BYTES
            &&& (p.quota_bytes == 0 || raw_sum(e, e.len() as int) <= p.quota_bytes)
            &&& (p.parent_id matches Some(pid) ==> has_key(list.entries, pid.0))
        },
{
}

} // verus!
