//! Snapshots: read-only views of a volume, their registry, protection,
//! mounts, quotas, differences, retention, restoration and streaming.
//!
//! The registries are values the caller owns and hands to each operation:
//! the list of snapshots, the protections, the mounts and the quotas.
use vstd::prelude::*;
use crate::snapshot::snapshot_list::{bytes_upto, SnapshotList, SnapshotListView};
use crate::snapshot::snapshot_mount::{MountView, SnapshotMountRegistry};
use crate::snapshot::snapshot_protect::{worm_count, ProtectView, SnapshotProtect};
use crate::snapshot::snapshot_quota::{QuotaView, SnapshotQuotaTable};

pub mod keyed;
pub mod snapshot;
pub mod snapshot_list;
pub mod snapshot_create;
pub mod snapshot_delete;
pub mod snapshot_diff;
pub mod snapshot_gc;
pub mod snapshot_protect;
pub mod snapshot_mount;
pub mod snapshot_quota;
pub mod snapshot_restore;
pub mod snapshot_streaming;

pub use crate::snapshot::snapshot::{
    flags as snapshot_flags, make_snapshot_name, verify_snapshot_header, Snapshot, SnapshotChain,
    SnapshotHeaderDisk, SnapshotRef, SNAPSHOT_FORMAT_VERSION, SNAPSHOT_HEADER_SIZE, SNAPSHOT_MAGIC,
    SNAPSHOT_MAX_COUNT, SNAPSHOT_NAME_LEN,
};
pub use crate::snapshot::snapshot_list::{ListConsistencyError, ListStats};
pub use crate::snapshot::snapshot_create::{
    entries_from_raw, BlobEntry, SnapshotBlobSet, SnapshotCreateResult, SnapshotCreator, SnapshotParams,
    SNAPSHOT_MAX_BLOBS, SNAPSHOT_MAX_TOTAL_BYTES,
};
pub use crate::snapshot::snapshot_delete::{DeleteDenyReason, DeleteOptions, DeleteResult, SnapshotDeleter};
pub use crate::snapshot::snapshot_diff::{
    DiffEntry, DiffKind, DiffOptions, DiffSummary, MetaOnlyEnumerator, SnapshotBlobEnumerator, SnapshotDiff,
    SnapshotDiffReport,
};
pub use crate::snapshot::snapshot_gc::{GcCandidate, GcReason, SnapshotGc, SnapshotGcReport, SnapshotRetentionPolicy};
pub use crate::snapshot::snapshot_restore::{
    MemBlobSource, NullRestoreSink, RestoreError, RestoreErrorKind, RestoreOptions, RestoreResult, RestoreSink, SinkCall,
    SnapshotBlobSource, SnapshotRestore,
};
pub use crate::snapshot::snapshot_protect::{ProtectEntry, ProtectStats, WormPolicy};
pub use crate::snapshot::snapshot_mount::{MountId, MountOptions, MountPoint, MountStats};
pub use crate::snapshot::snapshot_quota::{GlobalQuotaPolicy, SnapshotQuotaEntry};
pub use crate::snapshot::snapshot_streaming::{
    MemStreamBlobSource, SnapshotStreamer, StreamBlobSource, StreamChunkHeader, StreamOptions, StreamResult,
    StreamWriter, VecStreamWriter, CHUNK_TYPE_BLOB, CHUNK_TYPE_END, CHUNK_TYPE_MANIFEST, STREAM_CHUNK_HDR_SIZE,
    STREAM_MAGIC,
};

verus! {

/// Starts the snapshot subsystem; the registries are made empty by their
/// constructors, so there is nothing to do.
pub fn init() {
}

/// Empties the four registries, when the volume is unmounted.
pub fn shutdown(
    list: &mut SnapshotList,
    protect: &mut SnapshotProtect,
    mount: &mut SnapshotMountRegistry,
    quota: &mut SnapshotQuotaTable,
)
    requires
        old(quota).wf(),
    ensures
        final(list).wf() && final(protect).wf() && final(mount).wf() && final(quota).wf(),
        final(list)@ == (SnapshotListView { entries: Seq::empty(), count: 0, total_bytes: 0, ..old(list)@ }),
        final(protect)@ == (ProtectView { entries: Seq::empty() }),
        final(mount)@ == (MountView { mounts: Seq::empty(), n_mounts: 0, ..old(mount)@ }),
        final(quota)@ == (QuotaView { entries: Seq::empty(), used_bytes: 0, snap_count: 0, ..old(quota)@ }),
{
    list.clear();
    protect.clear();
    mount.clear();
    quota.clear();
}

/// Health of the snapshot subsystem.
#[derive(Clone, Copy, Debug)]
pub struct HealthReport {
    pub list_ok: bool,
    pub n_snaps: usize,
    pub n_mounts: usize,
    pub n_protected: usize,
    pub n_worm: usize,
}

impl HealthReport {
    /// True iff the registry of snapshots is consistent.
    pub fn is_healthy(&self) -> (r: bool)
        ensures
            r == self.list_ok,
    {
        self.list_ok
    }
}

/// Checks the registry of snapshots and reports the counters.
pub fn verify_health(list: &SnapshotList, mount: &SnapshotMountRegistry, protect: &SnapshotProtect) -> (r: HealthReport)
    ensures
        r.list_ok == (list@.count == list@.entries.len() && list@.total_bytes == bytes_upto(
            list@.entries,
            list@.entries.len() as int,
        )),
        r.n_snaps == list@.count,
        r.n_mounts == mount@.n_mounts,
        r.n_protected == protect@.entries.len(),
        r.n_worm == worm_count(protect@.entries),
{
    let list_ok = list.verify_consistency().is_ok();
    HealthReport {
        list_ok,
        n_snaps: list.count(),
        n_mounts: mount.n_mounts(),
        n_protected: protect.n_protected(),
        n_worm: protect.n_worm(),
    }
}

} // verus!
