//! Read-only mounts of snapshots: the registry of mount points, their
//! open counts, and the MOUNTED flag of the snapshots.
use vstd::prelude::*;
use vstd::utf8::valid_utf8;
use vstd::string::StringSliceAdditionalSpecFns;
use crate::types::{ExofsError, ExofsResult, SnapshotId};
use crate::snapshot::snapshot::{flags, utf8_str, zero_from, Snapshot};
use crate::snapshot::snapshot_list::{has_key, SnapshotList, SnapshotListView};
use crate::snapshot::snapshot_protect::{dec, flags_set, inc};
use crate::snapshot::keyed::{key_in, map_of, sorted_keys, KeyedVec};

verus! {

/// Identifier of a mount.
#[derive(Clone, Copy, Debug, PartialEq, Eq, PartialOrd, Ord, Structural)]
pub struct MountId(pub u64);

/// Options of a mount.
#[derive(Clone, Copy, Debug)]
pub struct MountOptions {
    /// Always set for a snapshot.
    pub readonly: bool,
    pub nonblock: bool,
    pub strict: bool,
}

impl Default for MountOptions {
    fn default() -> (r: MountOptions)
        ensures
            r == (MountOptions { readonly: true, nonblock: false, strict: false }),
    {
        MountOptions { readonly: true, nonblock: false, strict: false }
    }
}

/// A mounted snapshot.
#[derive(Clone, Copy, Debug)]
pub struct MountPoint {
    pub mount_id: MountId,
    pub snap_id: SnapshotId,
    /// Zero-padded path.
    pub path: [u8; 256],
    pub mounted_at: u64,
    pub open_count: u64,
    pub opts: MountOptions,
}

impl MountPoint {
    /// The path as text, or `"<invalid>"` when it is not UTF-8.
    pub fn path_str(&self) -> (r: &str)
        ensures
            valid_utf8(self.path@.subrange(0, zero_from(self.path@, 0))) ==> r.spec_bytes() == self.path@.subrange(0, zero_from(self.path@, 0)),
            !valid_utf8(self.path@.subrange(0, zero_from(self.path@, 0))) ==> r@ == "<invalid>"@,
    {
        let mut end: usize = 0;
        while end < 256 && self.path[end] != 0
            invariant
                0 <= end <= 256,
                self.path@.len() == 256,
                zero_from(self.path@, 0) == zero_from(self.path@, end as int),
            decreases 256 - end,
        {
            end += 1;
        }
        let prefix = vstd::slice::slice_subrange(self.path.as_slice(), 0, end);
        match utf8_str(prefix) {
            Some(s) => s,
            None => "<invalid>",
        }
    }

    /// True iff files are open on it.
    pub fn is_busy(&self) -> (r: bool)
        ensures
            r == (self.open_count > 0),
    {
        self.open_count > 0
    }
}

/// Counters of the mounts.
#[derive(Clone, Copy, Debug)]
pub struct MountStats {
    pub n_mounts: usize,
    pub n_busy: usize,
    pub total_opens: u64,
}

/// Mounts and their counters.
pub struct MountView {
    pub mounts: Seq<(u64, MountPoint)>,
    pub next_id: u64,
    /// Counted mounts.
    pub n_mounts: usize,
}

/// Registry of the mounts.
pub struct SnapshotMountRegistry {
    mounts: KeyedVec<MountPoint>,
    next_id: u64,
    /// The id counter went past `u64::MAX` once.
    wrapped: Ghost<bool>,
    n_mounts: usize,
}

impl View for SnapshotMountRegistry {
    type V = MountView;

    closed spec fn view(&self) -> MountView {
        MountView { mounts: self.mounts@, next_id: self.next_id, n_mounts: self.n_mounts }
    }
}

/// Some mount of `s` is on `snap`.
pub open spec fn snap_mounted(s: Seq<(u64, MountPoint)>, snap: SnapshotId) -> bool {
    exists|i: int| 0 <= i < s.len() && (#[trigger] s[i]).1.snap_id == snap
}

/// The path `p` matches `path` cut to 256 bytes, the rest being zero.
pub open spec fn path_matches(p: Seq<u8>, path: Seq<u8>) -> bool {
    let len = if path.len() < 256 { path.len() as int } else { 256 };
    &&& p.subrange(0, len) == path.subrange(0, len)
    &&& forall|i: int| len <= i < 256 ==> p[i] == 0
}

/// Mount ids on `snap` among the first `n` mounts.
pub open spec fn mounts_upto(s: Seq<(u64, MountPoint)>, snap: SnapshotId, n: int) -> Seq<MountId>
    decreases n,
{
    if n <= 0 {
        Seq::empty()
    } else {
        let p = mounts_upto(s, snap, n - 1);
        if s[n - 1].1.snap_id == snap { p.push(s[n - 1].1.mount_id) } else { p }
    }
}

/// Busy mounts among the first `n`.
pub open spec fn busy_upto(s: Seq<(u64, MountPoint)>, n: int) -> int
    decreases n,
{
    if n <= 0 { 0 } else { busy_upto(s, n - 1) + (if s[n - 1].1.open_count > 0 { 1int } else { 0int }) }
}

/// Saturating sum of the open counts of the first `n` mounts.
pub open spec fn opens_upto(s: Seq<(u64, MountPoint)>, n: int) -> u64
    decreases n,
{
    if n <= 0 {
        0
    } else {
        let t = opens_upto(s, n - 1) + s[n - 1].1.open_count;
        if t > u64::MAX { u64::MAX } else { t as u64 }
    }
}

/// The list after the MOUNTED flag of `snap` is cleared, when no mount is
/// left on it; otherwise unchanged.
pub open spec fn after_umount(s: Seq<(u64, MountPoint)>, ol: SnapshotListView, nl: SnapshotListView, snap: SnapshotId) -> bool {
    &&& snap_mounted(s, snap) ==> nl == ol
    &&& !snap_mounted(s, snap) && !has_key(ol.entries, snap.0) ==> nl == ol
    &&& !snap_mounted(s, snap) && has_key(ol.entries, snap.0) ==> flags_set(ol, nl, snap.0, flags::MOUNTED, true)
}

impl SnapshotMountRegistry {
    /// The keys are in increasing order; until the id counter wraps, every
    /// mount id in use is below the next one.
    pub closed spec fn wf(&self) -> bool {
        &&& self.mounts.wf()
        &&& !self.wrapped@ ==> self.next_id >= 1 && forall|k: u64| #[trigger] map_of(self.mounts@).dom().contains(k) ==> k < self.next_id
    }

    /// The id counter never went past `u64::MAX`.
    pub closed spec fn never_wrapped(&self) -> bool {
        !self.wrapped@
    }

    /// An empty registry; mount ids are given from 1.
    pub fn new_const() -> (r: SnapshotMountRegistry)
        ensures
            r.wf(),
            r@ == (MountView { mounts: Seq::empty(), next_id: 1, n_mounts: 0 }),
            r.never_wrapped(),
    {
        SnapshotMountRegistry { mounts: KeyedVec::new(), next_id: 1, n_mounts: 0, wrapped: Ghost(false) }
    }

    /// Mounts the snapshot `snap_id` of `list` at `path`, read-only; a
    /// snapshot being restored is refused. The snapshot gets the MOUNTED and
    /// READONLY flags.
    pub fn mount(&mut self, list: &mut SnapshotList, snap_id: SnapshotId, path: &[u8], opts: MountOptions, now: u64) -> (r: ExofsResult<MountId>)
        requires
            old(self).wf(),
            old(list).wf(),
        ensures
            final(self).wf(),
            final(list).wf(),
            !has_key(old(list)@.entries, snap_id.0) ==> r == Err::<MountId, ExofsError>(ExofsError::NotFound)
                && final(self)@ == old(self)@ && final(list)@ == old(list)@,
            forall|i: int| 0 <= i < old(list)@.entries.len() && (#[trigger] old(list)@.entries[i]).0 == snap_id.0 ==> {
                &&& old(list)@.entries[i].1.flags & flags::RESTORING != 0 ==> r == Err::<MountId, ExofsError>(ExofsError::InvalidState)
                    && final(self)@ == old(self)@ && final(list)@ == old(list)@
                &&& old(list)@.entries[i].1.flags & flags::RESTORING == 0 ==> {
                    let id = old(self)@.next_id;
                    &&& r == Ok::<MountId, ExofsError>(MountId(id))
                    &&& old(self).never_wrapped() ==> !map_of(old(self)@.mounts).dom().contains(id)
                    &&& final(self).never_wrapped() == (old(self).never_wrapped() && id != u64::MAX)
                    &&& final(self)@.next_id == (if id == u64::MAX { 0 } else { id + 1 })
                    &&& final(self)@.n_mounts == inc(old(self)@.n_mounts)
                    &&& flags_set(old(list)@, final(list)@, snap_id.0, flags::MOUNTED | flags::READONLY, false)
                    &&& map_of(final(self)@.mounts).dom() == map_of(old(self)@.mounts).dom().insert(id)
                    &&& forall|k: u64| k != id && map_of(old(self)@.mounts).dom().contains(k)
                        ==> map_of(final(self)@.mounts)[k] == map_of(old(self)@.mounts)[k]
                    &&& ({
                        let mp = map_of(final(self)@.mounts)[id];
                        &&& mp.mount_id == MountId(id) && mp.snap_id == snap_id && mp.mounted_at == now && mp.open_count == 0
                        &&& mp.opts == (MountOptions { readonly: true, ..opts })
                        &&& path_matches(mp.path@, path@)
                    })
                }
            },
    {
        let snap = match list.get(snap_id) {
            Ok(s) => s,
            Err(e) => return Err(e),
        };
        proof {
            list.lemma_wf();
            crate::snapshot::snapshot_list::lemma_unique_key(list@.entries, snap_id.0);
        }
        if snap.is_restoring() {
            return Err(ExofsError::InvalidState);
        }
        let mount_id = MountId(self.next_id);
        proof {
            if !self.wrapped@ {
                assert(!map_of(self.mounts@).dom().contains(self.next_id));
            }
        }
        if self.next_id == u64::MAX {
            self.wrapped = Ghost(true);
        }
        self.next_id = self.next_id.wrapping_add(1);
        let mut path_arr: [u8; 256] = [0u8; 256];
        let len: usize = if path.len() < 256 { path.len() } else { 256 };
        let mut i: usize = 0;
        while i < len
            invariant
                0 <= i <= len,
                len <= 256,
                len <= path@.len(),
                path_arr@.len() == 256,
                forall|k: int| 0 <= k < i ==> path_arr@[k] == path@[k],
                forall|k: int| i <= k < 256 ==> path_arr@[k] == 0,
            decreases len - i,
        {
            path_arr[i] = path[i];
            i += 1;
        }
        proof {
            assert(path_arr@.subrange(0, len as int) =~= path@.subrange(0, len as int));
        }
        let mp = MountPoint {
            mount_id,
            snap_id,
            path: path_arr,
            mounted_at: now,
            open_count: 0,
            opts: MountOptions { readonly: true, ..opts },
        };
        let _ = self.mounts.insert(mount_id.0, mp);
        match list.set_flags(snap_id, flags::MOUNTED | flags::READONLY) {
            Ok(_) => {},
            Err(e) => return Err(e),
        }
        self.n_mounts = self.n_mounts.wrapping_add(1);
        Ok(mount_id)
    }

    /// Unmounts `mount_id` unless files are open on it; the MOUNTED flag is
    /// cleared once no mount is left on its snapshot.
    pub fn umount(&mut self, list: &mut SnapshotList, mount_id: MountId) -> (r: ExofsResult<()>)
        requires
            old(self).wf(),
            old(list).wf(),
        ensures
            final(self).wf(),
            final(list).wf(),
            !map_of(old(self)@.mounts).dom().contains(mount_id.0) ==> r == Err::<(), ExofsError>(ExofsError::NotFound)
                && final(self)@ == old(self)@ && final(list)@ == old(list)@,
            map_of(old(self)@.mounts).dom().contains(mount_id.0) && map_of(old(self)@.mounts)[mount_id.0].open_count > 0
                ==> r == Err::<(), ExofsError>(ExofsError::InvalidState) && final(self)@ == old(self)@ && final(list)@ == old(list)@,
            map_of(old(self)@.mounts).dom().contains(mount_id.0) && map_of(old(self)@.mounts)[mount_id.0].open_count == 0 ==> {
                &&& r is Ok
                &&& map_of(final(self)@.mounts) == map_of(old(self)@.mounts).remove(mount_id.0)
                &&& final(self)@.n_mounts == dec(old(self)@.n_mounts)
                &&& final(self)@.next_id == old(self)@.next_id
                &&& after_umount(final(self)@.mounts, old(list)@, final(list)@, map_of(old(self)@.mounts)[mount_id.0].snap_id)
            },
    {
        let mp = match self.mounts.get(mount_id.0) {
            Some(m) => m,
            None => return Err(ExofsError::NotFound),
        };
        if mp.is_busy() {
            return Err(ExofsError::InvalidState);
        }
        self.detach(list, mount_id, mp.snap_id);
        Ok(())
    }

    /// Unmounts `mount_id` even with files open on it.
    pub fn force_umount(&mut self, list: &mut SnapshotList, mount_id: MountId) -> (r: ExofsResult<()>)
        requires
            old(self).wf(),
            old(list).wf(),
        ensures
            final(self).wf(),
            final(list).wf(),
            !map_of(old(self)@.mounts).dom().contains(mount_id.0) ==> r == Err::<(), ExofsError>(ExofsError::NotFound)
                && final(self)@ == old(self)@ && final(list)@ == old(list)@,
            map_of(old(self)@.mounts).dom().contains(mount_id.0) ==> {
                &&& r is Ok
                &&& map_of(final(self)@.mounts) == map_of(old(self)@.mounts).remove(mount_id.0)
                &&& final(self)@.n_mounts == dec(old(self)@.n_mounts)
                &&& final(self)@.next_id == old(self)@.next_id
                &&& after_umount(final(self)@.mounts, old(list)@, final(list)@, map_of(old(self)@.mounts)[mount_id.0].snap_id)
            },
    {
        let mp = match self.mounts.get(mount_id.0) {
            Some(m) => m,
            None => return Err(ExofsError::NotFound),
        };
        self.detach(list, mount_id, mp.snap_id);
        Ok(())
    }

    fn detach(&mut self, list: &mut SnapshotList, mount_id: MountId, snap_id: SnapshotId)
        requires
            old(self).wf(),
            old(list).wf(),
            map_of(old(self)@.mounts).dom().contains(mount_id.0),
        ensures
            final(self).wf(),
            final(list).wf(),
            map_of(final(self)@.mounts) == map_of(old(self)@.mounts).remove(mount_id.0),
            final(self)@.n_mounts == dec(old(self)@.n_mounts),
            final(self)@.next_id == old(self)@.next_id,
            after_umount(final(self)@.mounts, old(list)@, final(list)@, snap_id),
    {
        let _ = self.mounts.remove(mount_id.0);
        self.n_mounts = self.n_mounts.wrapping_sub(1);
        if !self.is_snap_mounted(snap_id) {
            let _ = list.clear_flags(snap_id, flags::MOUNTED);
        }
    }

    /// Counts one more open file on `mount_id`.
    pub fn open(&mut self, mount_id: MountId) -> (r: ExofsResult<()>)
        requires
            old(self).wf(),
        ensures
            final(self).wf(),
            !map_of(old(self)@.mounts).dom().contains(mount_id.0) ==> r == Err::<(), ExofsError>(ExofsError::NotFound) && final(self)@ == old(self)@,
            map_of(old(self)@.mounts).dom().contains(mount_id.0) && map_of(old(self)@.mounts)[mount_id.0].open_count == u64::MAX
                ==> r == Err::<(), ExofsError>(ExofsError::Overflow) && final(self)@ == old(self)@,
            map_of(old(self)@.mounts).dom().contains(mount_id.0) && map_of(old(self)@.mounts)[mount_id.0].open_count < u64::MAX
                ==> r is Ok && final(self)@.n_mounts == old(self)@.n_mounts && final(self)@.next_id == old(self)@.next_id
                && map_of(final(self)@.mounts) == map_of(old(self)@.mounts).insert(mount_id.0, MountPoint {
                    open_count: (map_of(old(self)@.mounts)[mount_id.0].open_count + 1) as u64,
                    ..map_of(old(self)@.mounts)[mount_id.0]
                }),
    {
        let mut mp = match self.mounts.get(mount_id.0) {
            Some(m) => m,
            None => return Err(ExofsError::NotFound),
        };
        mp.open_count = match mp.open_count.checked_add(1) {
            Some(n) => n,
            None => return Err(ExofsError::Overflow),
        };
        let _ = self.mounts.insert(mount_id.0, mp);
        Ok(())
    }

    /// Counts one open file less on `mount_id` (not below 0).
    pub fn close(&mut self, mount_id: MountId) -> (r: ExofsResult<()>)
        requires
            old(self).wf(),
        ensures
            final(self).wf(),
            !map_of(old(self)@.mounts).dom().contains(mount_id.0) ==> r == Err::<(), ExofsError>(ExofsError::NotFound) && final(self)@ == old(self)@,
            map_of(old(self)@.mounts).dom().contains(mount_id.0) ==> r is Ok && final(self)@.n_mounts == old(self)@.n_mounts
                && final(self)@.next_id == old(self)@.next_id
                && map_of(final(self)@.mounts) == map_of(old(self)@.mounts).insert(mount_id.0, MountPoint {
                    open_count: if map_of(old(self)@.mounts)[mount_id.0].open_count == 0 { 0 } else {
                        (map_of(old(self)@.mounts)[mount_id.0].open_count - 1) as u64
                    },
                    ..map_of(old(self)@.mounts)[mount_id.0]
                }),
    {
        let mut mp = match self.mounts.get(mount_id.0) {
            Some(m) => m,
            None => return Err(ExofsError::NotFound),
        };
        mp.open_count = mp.open_count.saturating_sub(1);
        let _ = self.mounts.insert(mount_id.0, mp);
        Ok(())
    }

    /// The mount point `mount_id`.
    pub fn get(&self, mount_id: MountId) -> (r: ExofsResult<MountPoint>)
        requires
            self.wf(),
        ensures
            map_of(self@.mounts).dom().contains(mount_id.0) ==> r == Ok::<MountPoint, ExofsError>(map_of(self@.mounts)[mount_id.0]),
            !map_of(self@.mounts).dom().contains(mount_id.0) ==> r == Err::<MountPoint, ExofsError>(ExofsError::NotFound),
    {
        match self.mounts.get(mount_id.0) {
            Some(m) => Ok(m),
            None => Err(ExofsError::NotFound),
        }
    }

    /// True iff some mount is on `snap_id`.
    pub fn is_snap_mounted(&self, snap_id: SnapshotId) -> (r: bool)
        ensures
            r == snap_mounted(self@.mounts, snap_id),
    {
        let mut i: usize = 0;
        while i < self.mounts.len()
            invariant
                0 <= i <= self.mounts@.len(),
                forall|j: int| 0 <= j < i ==> (#[trigger] self.mounts@[j]).1.snap_id != snap_id,
            decreases self.mounts@.len() - i,
        {
            if self.mounts.at(i).1.snap_id.0 == snap_id.0 {
                return true;
            }
            i += 1;
        }
        false
    }

    /// The mounts on `snap_id`, in id order.
    pub fn mounts_for_snap(&self, snap_id: SnapshotId) -> (r: ExofsResult<Vec<MountId>>)
        ensures
            r matches Ok(v) && v@ == mounts_upto(self@.mounts, snap_id, self@.mounts.len() as int),
    {
        let mut out: Vec<MountId> = Vec::new();
        let mut i: usize = 0;
        while i < self.mounts.len()
            invariant
                0 <= i <= self.mounts@.len(),
                out@ == mounts_upto(self.mounts@, snap_id, i as int),
            decreases self.mounts@.len() - i,
        {
            let mp = self.mounts.at(i).1;
            if mp.snap_id.0 == snap_id.0 {
                out.push(mp.mount_id);
            }
            i += 1;
        }
        Ok(out)
    }

    /// The first mount, in id order, at `path`.
    pub fn find_by_path(&self, path: &[u8]) -> (r: Option<MountPoint>)
        ensures
            r is None ==> forall|i: int| 0 <= i < self@.mounts.len() ==> !path_matches((#[trigger] self@.mounts[i]).1.path@, path@),
            r matches Some(m) ==> exists|i: int| 0 <= i < self@.mounts.len() && m == (#[trigger] self@.mounts[i]).1
                && path_matches(m.path@, path@)
                && forall|j: int| 0 <= j < i ==> !path_matches((#[trigger] self@.mounts[j]).1.path@, path@),
    {
        let len: usize = if path.len() < 256 { path.len() } else { 256 };
        let mut i: usize = 0;
        while i < self.mounts.len()
            invariant
                0 <= i <= self.mounts@.len(),
                len == (if path@.len() < 256 { path@.len() as int } else { 256 }),
                forall|j: int| 0 <= j < i ==> !path_matches((#[trigger] self.mounts@[j]).1.path@, path@),
            decreases self.mounts@.len() - i,
        {
            let mp = self.mounts.at(i).1;
            let mut same = true;
            let mut k: usize = 0;
            while k < 256
                invariant
                    0 <= k <= 256,
                    len <= 256,
                    len <= path@.len(),
                    mp.path@.len() == 256,
                    i < self.mounts@.len(),
                    mp == self.mounts@[i as int].1,
                    forall|j: int| 0 <= j < i ==> !path_matches((#[trigger] self.mounts@[j]).1.path@, path@),
                    same == ((forall|m: int| 0 <= m < k && m < len ==> mp.path@[m] == path@[m]) && (forall|m: int| len <= m < k ==> mp.path@[m] == 0)),
                decreases 256 - k,
            {
                if k < len {
                    if mp.path[k] != path[k] {
                        same = false;
                    }
                } else if mp.path[k] != 0 {
                    same = false;
                }
                k += 1;
            }
            proof {
                if same {
                    assert(mp.path@.subrange(0, len as int) =~= path@.subrange(0, len as int));
                } else if mp.path@.subrange(0, len as int) == path@.subrange(0, len as int) {
                    assert forall|m: int| 0 <= m < len implies mp.path@[m] == path@[m] by {
                        assert(mp.path@.subrange(0, len as int)[m] == path@.subrange(0, len as int)[m]);
                    }
                }
            }
            if same {
                assert(self@.mounts[i as int].1 == mp);
                return Some(mp);
            }
            i += 1;
        }
        None
    }

    /// Every mount id, in increasing order.
    pub fn all_mount_ids(&self) -> (r: ExofsResult<Vec<MountId>>)
        ensures
            r matches Ok(v) && v@ == self@.mounts.map_values(|e: (u64, MountPoint)| MountId(e.0)),
    {
        let mut out: Vec<MountId> = Vec::new();
        let mut i: usize = 0;
        while i < self.mounts.len()
            invariant
                0 <= i <= self.mounts@.len(),
                out@ == self.mounts@.subrange(0, i as int).map_values(|e: (u64, MountPoint)| MountId(e.0)),
            decreases self.mounts@.len() - i,
        {
            out.push(MountId(self.mounts.at(i).0));
            proof {
                assert(self.mounts@.subrange(0, i + 1).map_values(|e: (u64, MountPoint)| MountId(e.0))
                    =~= self.mounts@.subrange(0, i as int).map_values(|e: (u64, MountPoint)| MountId(e.0)).push(MountId(self.mounts@[i as int].0)));
            }
            i += 1;
        }
        proof {
            assert(self.mounts@.subrange(0, i as int) =~= self.mounts@);
        }
        Ok(out)
    }

    /// Counted mounts.
    pub fn n_mounts(&self) -> (r: usize)
        ensures
            r == self@.n_mounts,
    {
        self.n_mounts
    }

    /// Mounts, busy mounts and open files.
    pub fn stats(&self) -> (r: MountStats)
        ensures
            r.n_mounts == self@.mounts.len(),
            r.n_busy == busy_upto(self@.mounts, self@.mounts.len() as int),
            r.total_opens == opens_upto(self@.mounts, self@.mounts.len() as int),
    {
        let mut n_busy: usize = 0;
        let mut total_opens: u64 = 0;
        let mut i: usize = 0;
        while i < self.mounts.len()
            invariant
                0 <= i <= self.mounts@.len(),
                n_busy == busy_upto(self.mounts@, i as int),
                n_busy <= i,
                total_opens == opens_upto(self.mounts@, i as int),
            decreases self.mounts@.len() - i,
        {
            let mp = self.mounts.at(i).1;
            if mp.is_busy() {
                n_busy = n_busy + 1;
            }
            total_opens = total_opens.saturating_add(mp.open_count);
            i += 1;
        }
        MountStats { n_mounts: self.mounts.len(), n_busy, total_opens }
    }

    /// Removes every mount and zeroes the counter.
    pub fn clear(&mut self)
        ensures
            final(self).wf(),
            final(self)@ == (MountView { mounts: Seq::empty(), n_mounts: 0, ..old(self)@ }),
    {
        self.mounts.clear();
        self.n_mounts = 0;
        if self.next_id == 0 {
            self.wrapped = Ghost(true);
        }
    }
}

} // verus!
