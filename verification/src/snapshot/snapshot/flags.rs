//! Bits of the flags word of a snapshot.
use vstd::prelude::*;

verus! {

/// Read-only (immutable) snapshot.
pub const READONLY: u32 = 1;
/// Protected against deletion.
pub const PROTECTED: u32 = 2;
/// Being streamed.
pub const STREAMING: u32 = 4;
/// A quota was set explicitly.
pub const QUOTA_SET: u32 = 8;
/// Mounted.
pub const MOUNTED: u32 = 16;
/// Being restored.
pub const RESTORING: u32 = 32;
/// Its parent cannot be found.
pub const ORPHAN: u32 = 64;
/// Incremental snapshot.
pub const INCREMENTAL: u32 = 128;

} // verus!
