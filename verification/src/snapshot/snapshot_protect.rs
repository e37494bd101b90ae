//! Protection of snapshots against deletion, with an optional WORM
//! retention: a protection under WORM can only be lifted once it expired.
use vstd::prelude::*;
use crate::types::{ExofsError, ExofsResult, SnapshotId};
use crate::snapshot::snapshot::{flags, Snapshot};
use crate::snapshot::snapshot_list::{has_key, SnapshotList, SnapshotListView};
use crate::snapshot::keyed::{key_in, map_of, sorted_keys, KeyedVec};

verus! {

/// A WORM retention.
#[derive(Clone, Copy, Debug)]
pub struct WormPolicy {
    pub activated_at: u64,
    /// 0: permanent.
    pub retain_ticks: u64,
}

/// The retention is over at `now`.
pub open spec fn worm_expired(w: WormPolicy, now: u64) -> bool {
    w.retain_ticks != 0 && (if now >= w.activated_at { now - w.activated_at } else { 0 }) >= w.retain_ticks
}

impl WormPolicy {
    /// True iff the retention is over at `now` (never for a permanent one).
    pub fn is_expired(&self, now: u64) -> (r: bool)
        ensures
            r == worm_expired(*self, now),
    {
        if self.retain_ticks == 0 {
            return false;
        }
        now.saturating_sub(self.activated_at) >= self.retain_ticks
    }

    /// When the retention ends (0 for a permanent one), clamped to `u64::MAX`.
    pub fn expires_at(&self) -> (r: u64)
        ensures
            self.retain_ticks == 0 ==> r == 0,
            self.retain_ticks != 0 ==> r == (if self.activated_at + self.retain_ticks > u64::MAX { u64::MAX as int } else {
                self.activated_at + self.retain_ticks
            }),
    {
        if self.retain_ticks == 0 {
            return 0;
        }
        self.activated_at.saturating_add(self.retain_ticks)
    }
}

/// The protection of one snapshot.
#[derive(Clone, Copy, Debug)]
pub struct ProtectEntry {
    pub snap_id: SnapshotId,
    pub worm: Option<WormPolicy>,
    pub protected_at: u64,
    /// Free text, zero-padded.
    pub note: [u8; 64],
}

/// The protection may be lifted at `now`: no WORM, or an expired one.
pub open spec fn may_unprotect(e: ProtectEntry, now: u64) -> bool {
    match e.worm {
        None => true,
        Some(w) => worm_expired(w, now),
    }
}

/// A protection of `e` may be replaced by one with `worm`: a WORM
/// retention is immutable, so only by a WORM retention that ends no earlier
/// (a permanent one only by a permanent one).
pub open spec fn may_replace(e: ProtectEntry, worm: Option<WormPolicy>) -> bool {
    match e.worm {
        None => true,
        Some(ow) => match worm {
            None => false,
            Some(nw) => if ow.retain_ticks == 0 {
                nw.retain_ticks == 0
            } else {
                nw.retain_ticks == 0 || nw.activated_at + nw.retain_ticks >= ow.activated_at + ow.retain_ticks
            },
        },
    }
}

/// A protection that may replace `e` never lets the snapshot be
/// unprotected sooner: at any time at which the new entry may be lifted, so
/// may the old one.
pub proof fn lemma_replace_keeps_worm(e: ProtectEntry, n: ProtectEntry, now: u64)
    requires
        may_replace(e, n.worm),
        may_unprotect(n, now),
    ensures
        may_unprotect(e, now),
{
}

/// The entry holds a WORM retention not expired at `now`.
pub open spec fn worm_active(e: ProtectEntry, now: u64) -> bool {
    match e.worm {
        Some(w) => !worm_expired(w, now),
        None => false,
    }
}

impl ProtectEntry {
    fn new(snap_id: SnapshotId, worm: Option<WormPolicy>, now: u64) -> (r: ProtectEntry)
        ensures
            r.snap_id == snap_id && r.worm == worm && r.protected_at == now && r.note@ == Seq::new(64, |i: int| 0u8),
    {
        let r = ProtectEntry { snap_id, worm, protected_at: now, note: [0u8; 64] };
        proof {
            assert(r.note@ =~= Seq::new(64, |i: int| 0u8));
        }
        r
    }

    /// True iff the protection has a WORM retention.
    pub fn is_worm(&self) -> (r: bool)
        ensures
            r == self.worm is Some,
    {
        self.worm.is_some()
    }

    /// True iff the protection may be lifted at `now`.
    pub fn can_unprotect(&self, now: u64) -> (r: bool)
        ensures
            r == may_unprotect(*self, now),
    {
        match &self.worm {
            None => true,
            Some(w) => w.is_expired(now),
        }
    }
}

/// Protections and their counters.
pub struct ProtectView {
    pub entries: Seq<(u64, ProtectEntry)>,
}

/// Table of the protections.
pub struct SnapshotProtect {
    entries: KeyedVec<ProtectEntry>,
}

impl View for SnapshotProtect {
    type V = ProtectView;

    closed spec fn view(&self) -> ProtectView {
        ProtectView { entries: self.entries@ }
    }
}

/// `a + 1`, wrapping.
pub open spec fn inc(a: usize) -> usize {
    if a == usize::MAX { 0 } else { (a + 1) as usize }
}

/// `a - 1`, wrapping.
pub open spec fn dec(a: usize) -> usize {
    if a == 0 { usize::MAX } else { (a - 1) as usize }
}

/// Entries under a WORM retention.
pub open spec fn worm_count(s: Seq<(u64, ProtectEntry)>) -> int {
    s.len() - permanent_upto(s, s.len() as int)
}

/// Entries without WORM among the first `n`.
pub open spec fn permanent_upto(s: Seq<(u64, ProtectEntry)>, n: int) -> int
    decreases n,
{
    if n <= 0 { 0 } else { permanent_upto(s, n - 1) + (if s[n - 1].1.worm is None { 1int } else { 0int }) }
}

/// Entries with a WORM of nonzero length among the first `n`.
pub open spec fn expiring_upto(s: Seq<(u64, ProtectEntry)>, n: int) -> int
    decreases n,
{
    if n <= 0 {
        0
    } else {
        expiring_upto(s, n - 1) + (if s[n - 1].1.worm matches Some(w) && w.retain_ticks > 0 { 1int } else { 0int })
    }
}

/// Snapshots of the first `n` entries whose WORM expired at `now`.
pub open spec fn expired_upto(s: Seq<(u64, ProtectEntry)>, now: u64, n: int) -> Seq<SnapshotId>
    decreases n,
{
    if n <= 0 {
        Seq::empty()
    } else {
        let p = expired_upto(s, now, n - 1);
        if s[n - 1].1.worm matches Some(w) && worm_expired(w, now) { p.push(s[n - 1].1.snap_id) } else { p }
    }
}

/// Counters of the protections.
#[derive(Clone, Copy, Debug)]
pub struct ProtectStats {
    pub n_protected: usize,
    pub n_worm: usize,
    pub n_permanent: usize,
    pub n_expiring_soon: usize,
}

/// The flags of the snapshot of key `k` after ORing `f` into them.
pub open spec fn flags_set(o: SnapshotListView, n: SnapshotListView, k: u64, f: u32, clear: bool) -> bool {
    forall|i: int| 0 <= i < o.entries.len() && (#[trigger] o.entries[i]).0 == k ==> n == (SnapshotListView {
        entries: o.entries.update(i, (k, Snapshot {
            flags: if clear { o.entries[i].1.flags & !f } else { o.entries[i].1.flags | f },
            ..o.entries[i].1
        })),
        ..o
    })
}

impl SnapshotProtect {
    /// The keys are in increasing order.
    pub closed spec fn wf(&self) -> bool {
        self.entries.wf()
    }

    /// An empty table.
    pub fn new_const() -> (r: SnapshotProtect)
        ensures
            r.wf(),
            r@ == (ProtectView { entries: Seq::empty() }),
    {
        SnapshotProtect { entries: KeyedVec::new() }
    }

    /// Protects the snapshot `snap_id` of `list`.
    pub fn protect(&mut self, list: &mut SnapshotList, snap_id: SnapshotId, now: u64) -> (r: ExofsResult<()>)
        requires
            old(self).wf(),
            old(list).wf(),
        ensures
            final(self).wf(),
            final(list).wf(),
            Self::protect_post(*old(self), *final(self), old(list)@, final(list)@, snap_id, None, now, r),
    {
        self.protect_inner(list, snap_id, None, now)
    }

    /// Protects the snapshot `snap_id` of `list` for at least `retain_ticks`
    /// from `now` (forever when 0).
    pub fn protect_worm(&mut self, list: &mut SnapshotList, snap_id: SnapshotId, retain_ticks: u64, now: u64) -> (r: ExofsResult<()>)
        requires
            old(self).wf(),
            old(list).wf(),
        ensures
            final(self).wf(),
            final(list).wf(),
            Self::protect_post(*old(self), *final(self), old(list)@, final(list)@, snap_id,
                Some(WormPolicy { activated_at: now, retain_ticks }), now, r),
    {
        let worm = WormPolicy { activated_at: now, retain_ticks };
        self.protect_inner(list, snap_id, Some(worm), now)
    }

    /// What protecting `snap_id` with `worm` does.
    pub open spec fn protect_post(
        o: SnapshotProtect,
        n: SnapshotProtect,
        ol: SnapshotListView,
        nl: SnapshotListView,
        snap_id: SnapshotId,
        worm: Option<WormPolicy>,
        now: u64,
        r: ExofsResult<()>,
    ) -> bool {
        &&& !has_key(ol.entries, snap_id.0) ==> r == Err::<(), ExofsError>(ExofsError::NotFound) && nl == ol && n@ == o@
        &&& has_key(ol.entries, snap_id.0) && map_of(o@.entries).dom().contains(snap_id.0)
            && !may_replace(map_of(o@.entries)[snap_id.0], worm)
            ==> r == Err::<(), ExofsError>(ExofsError::InvalidState) && nl == ol && n@ == o@
        &&& has_key(ol.entries, snap_id.0) && (map_of(o@.entries).dom().contains(snap_id.0)
            ==> may_replace(map_of(o@.entries)[snap_id.0], worm)) ==> {
            &&& r is Ok
            &&& flags_set(ol, nl, snap_id.0, flags::PROTECTED, false)
            &&& map_of(n@.entries).dom() == map_of(o@.entries).dom().insert(snap_id.0)
            &&& map_of(n@.entries)[snap_id.0].snap_id == snap_id && map_of(n@.entries)[snap_id.0].worm == worm
            &&& map_of(n@.entries)[snap_id.0].protected_at == now
            &&& forall|k: u64| k != snap_id.0 && map_of(o@.entries).dom().contains(k) ==> map_of(n@.entries)[k] == map_of(o@.entries)[k]
        }
    }

    fn protect_inner(&mut self, list: &mut SnapshotList, snap_id: SnapshotId, worm: Option<WormPolicy>, now: u64) -> (r: ExofsResult<()>)
        requires
            old(self).wf(),
            old(list).wf(),
        ensures
            final(self).wf(),
            final(list).wf(),
            Self::protect_post(*old(self), *final(self), old(list)@, final(list)@, snap_id, worm, now, r),
    {
        match list.get_ref(snap_id) {
            Ok(_) => {},
            Err(e) => return Err(e),
        }
        if let Some(cur) = self.entries.get(snap_id.0) {
            if !Self::replace_allowed(&cur, worm) {
                return Err(ExofsError::InvalidState);
            }
        }
        match list.set_flags(snap_id, flags::PROTECTED) {
            Ok(_) => {},
            Err(e) => return Err(e),
        }
        let entry = ProtectEntry::new(snap_id, worm, now);
        let _ = self.entries.insert(snap_id.0, entry);
        Ok(())
    }

    /// True iff the protection `cur` may be replaced by one with `worm`.
    fn replace_allowed(cur: &ProtectEntry, worm: Option<WormPolicy>) -> (r: bool)
        ensures
            r == may_replace(*cur, worm),
    {
        match cur.worm {
            None => true,
            Some(ow) => match worm {
                None => false,
                Some(nw) => {
                    if ow.retain_ticks == 0 {
                        nw.retain_ticks == 0
                    } else {
                        nw.retain_ticks == 0 || nw.activated_at as u128 + nw.retain_ticks as u128
                            >= ow.activated_at as u128 + ow.retain_ticks as u128
                    }
                },
            },
        }
    }

    /// Lifts the protection of `snap_id` unless a WORM retention still runs;
    /// the flag is then cleared in `list`.
    pub fn unprotect(&mut self, list: &mut SnapshotList, snap_id: SnapshotId, now: u64) -> (r: ExofsResult<()>)
        requires
            old(self).wf(),
            old(list).wf(),
        ensures
            final(self).wf(),
            final(list).wf(),
            !map_of(old(self)@.entries).dom().contains(snap_id.0) ==> r == Err::<(), ExofsError>(ExofsError::NotFound)
                && final(self)@ == old(self)@ && final(list)@ == old(list)@,
            map_of(old(self)@.entries).dom().contains(snap_id.0) && !may_unprotect(map_of(old(self)@.entries)[snap_id.0], now)
                ==> r == Err::<(), ExofsError>(ExofsError::InvalidState) && final(self)@ == old(self)@ && final(list)@ == old(list)@,
            map_of(old(self)@.entries).dom().contains(snap_id.0) && may_unprotect(map_of(old(self)@.entries)[snap_id.0], now) ==> {
                &&& map_of(final(self)@.entries) == map_of(old(self)@.entries).remove(snap_id.0)
                &&& !has_key(old(list)@.entries, snap_id.0) ==> r == Err::<(), ExofsError>(ExofsError::NotFound)
                    && final(list)@ == old(list)@
                &&& has_key(old(list)@.entries, snap_id.0) ==> r is Ok && flags_set(old(list)@, final(list)@, snap_id.0, flags::PROTECTED, true)
            },
    {
        let entry = match self.entries.get(snap_id.0) {
            Some(e) => e,
            None => return Err(ExofsError::NotFound),
        };
        if !entry.can_unprotect(now) {
            return Err(ExofsError::InvalidState);
        }
        let _ = self.entries.remove(snap_id.0);
        match list.clear_flags(snap_id, flags::PROTECTED) {
            Ok(_) => {},
            Err(e) => return Err(e),
        }
        Ok(())
    }

    /// True iff `snap_id` is protected.
    pub fn is_protected(&self, snap_id: SnapshotId) -> (r: bool)
        requires
            self.wf(),
        ensures
            r == map_of(self@.entries).dom().contains(snap_id.0),
    {
        self.entries.get(snap_id.0).is_some()
    }

    /// The protection of `snap_id`.
    pub fn get_entry(&self, snap_id: SnapshotId) -> (r: Option<ProtectEntry>)
        requires
            self.wf(),
        ensures
            r == (if map_of(self@.entries).dom().contains(snap_id.0) { Some(map_of(self@.entries)[snap_id.0]) } else { None }),
    {
        self.entries.get(snap_id.0)
    }

    /// True iff `snap_id` is under a WORM retention not expired at `now`.
    pub fn is_worm_active(&self, snap_id: SnapshotId, now: u64) -> (r: bool)
        requires
            self.wf(),
        ensures
            r == (map_of(self@.entries).dom().contains(snap_id.0) && worm_active(map_of(self@.entries)[snap_id.0], now)),
    {
        match self.entries.get(snap_id.0) {
            Some(e) => match e.worm {
                Some(w) => !w.is_expired(now),
                None => false,
            },
            None => false,
        }
    }

    /// Protected snapshots.
    pub fn n_protected(&self) -> (r: usize)
        ensures
            r == self@.entries.len(),
    {
        self.entries.len()
    }

    /// Protected snapshots under a WORM retention.
    pub fn n_worm(&self) -> (r: usize)
        ensures
            r == worm_count(self@.entries),
    {
        self.stats().n_worm
    }

    /// Counters: entries, counted WORM ones, permanent ones and those with
    /// a retention of nonzero length.
    pub fn stats(&self) -> (r: ProtectStats)
        ensures
            r.n_protected == self@.entries.len() && r.n_worm == worm_count(self@.entries),
            r.n_permanent == permanent_upto(self@.entries, self@.entries.len() as int),
            r.n_expiring_soon == expiring_upto(self@.entries, self@.entries.len() as int),
    {
        let mut n_expiring_soon: usize = 0;
        let mut n_permanent: usize = 0;
        let mut i: usize = 0;
        while i < self.entries.len()
            invariant
                0 <= i <= self.entries@.len(),
                n_permanent == permanent_upto(self.entries@, i as int),
                n_expiring_soon == expiring_upto(self.entries@, i as int),
                n_permanent <= i && n_expiring_soon <= i,
            decreases self.entries@.len() - i,
        {
            let e = self.entries.at(i).1;
            match e.worm {
                None => {
                    n_permanent = n_permanent + 1;
                },
                Some(w) => {
                    if w.retain_ticks > 0 {
                        n_expiring_soon = n_expiring_soon + 1;
                    }
                },
            }
            i += 1;
        }
        ProtectStats { n_protected: self.entries.len(), n_worm: self.entries.len() - n_permanent, n_permanent, n_expiring_soon }
    }

    /// Snapshots whose WORM retention expired at `now`, in key order.
    pub fn expired_worm(&self, now: u64) -> (r: ExofsResult<Vec<SnapshotId>>)
        ensures
            r matches Ok(v) && v@ == expired_upto(self@.entries, now, self@.entries.len() as int),
    {
        let mut out: Vec<SnapshotId> = Vec::new();
        let mut i: usize = 0;
        while i < self.entries.len()
            invariant
                0 <= i <= self.entries@.len(),
                out@ == expired_upto(self.entries@, now, i as int),
            decreases self.entries@.len() - i,
        {
            let e = self.entries.at(i).1;
            if let Some(w) = e.worm {
                if w.is_expired(now) {
                    out.push(e.snap_id);
                }
            }
            i += 1;
        }
        Ok(out)
    }

    /// The protected keys, in increasing order.
    pub fn all_protected(&self) -> (r: ExofsResult<Vec<SnapshotId>>)
        ensures
            r matches Ok(v) && v@ == self@.entries.map_values(|e: (u64, ProtectEntry)| SnapshotId(e.0)),
    {
        let mut out: Vec<SnapshotId> = Vec::new();
        let mut i: usize = 0;
        while i < self.entries.len()
            invariant
                0 <= i <= self.entries@.len(),
                out@ == self.entries@.subrange(0, i as int).map_values(|e: (u64, ProtectEntry)| SnapshotId(e.0)),
            decreases self.entries@.len() - i,
        {
            out.push(SnapshotId(self.entries.at(i).0));
            proof {
                assert(self.entries@.subrange(0, i + 1).map_values(|e: (u64, ProtectEntry)| SnapshotId(e.0))
                    =~= self.entries@.subrange(0, i as int).map_values(|e: (u64, ProtectEntry)| SnapshotId(e.0)).push(SnapshotId(self.entries@[i as int].0)));
            }
            i += 1;
        }
        proof {
            assert(self.entries@.subrange(0, i as int) =~= self.entries@);
        }
        Ok(out)
    }

    /// Sets the note of `snap_id` to the first 64 bytes of `note`, zero-padded.
    pub fn set_note(&mut self, snap_id: SnapshotId, note: &[u8]) -> (r: ExofsResult<()>)
        requires
            old(self).wf(),
        ensures
            final(self).wf(),
            !map_of(old(self)@.entries).dom().contains(snap_id.0) ==> r == Err::<(), ExofsError>(ExofsError::NotFound)
                && final(self)@ == old(self)@,
            map_of(old(self)@.entries).dom().contains(snap_id.0) ==> r is Ok
                && map_of(final(self)@.entries) == map_of(old(self)@.entries).insert(snap_id.0, ProtectEntry {
                    note: map_of(final(self)@.entries)[snap_id.0].note,
                    ..map_of(old(self)@.entries)[snap_id.0]
                })
                && ({
                    let n = if note@.len() < 64 { note@.len() as int } else { 64 };
                    map_of(final(self)@.entries)[snap_id.0].note@ == note@.subrange(0, n) + Seq::new((64 - n) as nat, |i: int| 0u8)
                }),
    {
        let mut entry = match self.entries.get(snap_id.0) {
            Some(e) => e,
            None => return Err(ExofsError::NotFound),
        };
        let ghost orig = entry;
        let len: usize = if note.len() < 64 { note.len() } else { 64 };
        let mut i: usize = 0;
        while i < 64
            invariant
                entry == (ProtectEntry { note: entry.note, ..orig }),
                0 <= i <= 64,
                len <= 64,
                len <= note@.len(),
                entry.note@.len() == 64,
                forall|k: int| 0 <= k < i && k < len ==> entry.note@[k] == note@[k],
                forall|k: int| len <= k < i ==> entry.note@[k] == 0,
            decreases 64 - i,
        {
            if i < len {
                entry.note[i] = note[i];
            } else {
                entry.note[i] = 0;
            }
            i += 1;
        }
        proof {
            let n = len as int;
            assert(entry.note@ =~= note@.subrange(0, n) + Seq::new((64 - n) as nat, |i: int| 0u8));
        }
        let _ = self.entries.insert(snap_id.0, entry);
        Ok(())
    }

    /// Removes every protection.
    pub fn clear(&mut self)
        ensures
            final(self).wf(),
            final(self)@ == (ProtectView { entries: Seq::empty() }),
    {
        self.entries.clear();
    }
}

/// The entry is under a WORM retention that lasts at least until `until`
/// (a permanent one lasts forever).
pub open spec fn worm_holds_until(e: ProtectEntry, until: int) -> bool {
    e.worm matches Some(w) && (w.retain_ticks == 0 || w.activated_at + w.retain_ticks >= until)
}

/// A protection under a WORM retention lasting until `until` cannot be
/// lifted before `until`.
pub proof fn lemma_worm_blocks_unprotect(e: ProtectEntry, until: int, now: u64)
    requires
        worm_holds_until(e, until),
        now < until,
    ensures
        !may_unprotect(e, now),
{
}

/// Whatever a call of `protect` or `protect_worm` did, a snapshot under a
/// WORM retention lasting until `until` stays protected under one lasting
/// at least as long; with the law above, no sequence of protections lets a
/// WORM snapshot be unprotected before its retention ends.
pub proof fn lemma_protect_keeps_worm(
    o: SnapshotProtect,
    n: SnapshotProtect,
    ol: SnapshotListView,
    nl: SnapshotListView,
    snap_id: SnapshotId,
    worm: Option<WormPolicy>,
    now: u64,
    r: ExofsResult<()>,
    id: u64,
    until: int,
)
    requires
        SnapshotProtect::protect_post(o, n, ol, nl, snap_id, worm, now, r),
        map_of(o@.entries).dom().contains(id),
        worm_holds_until(map_of(o@.entries)[id], until),
    ensures
        map_of(n@.entries).dom().contains(id),
        worm_holds_until(map_of(n@.entries)[id], until),
{
}

} // verus!
