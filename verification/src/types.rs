//! Identifiers, disk offsets and the error type shared by every module.
use vstd::prelude::*;

verus! {

/// Byte offset on the volume.
#[derive(Clone, Copy, Debug, PartialEq, Eq, Structural)]
pub struct DiskOffset(pub u64);

/// Identifier of a snapshot.
#[derive(Clone, Copy, Debug, PartialEq, Eq, Structural)]
pub struct SnapshotId(pub u64);

/// Identifier of an epoch (transaction group).
#[derive(Clone, Copy, Debug, PartialEq, Eq, Structural)]
pub struct EpochId(pub u64);

/// Content identifier of a blob: the Blake3 digest of its raw bytes.
#[derive(Clone, Copy, Debug)]
pub struct BlobId(pub [u8; 32]);

/// Identifier of an object.
#[derive(Clone, Copy, Debug)]
pub struct ObjectId(pub [u8; 32]);

/// Errors reported by the storage and snapshot layers.
#[derive(Clone, Copy, Debug, PartialEq, Eq, Structural)]
pub enum ExofsError {
    BadMagic,
    InvalidArgument,
    ChecksumMismatch,
    InvalidSize,
    BufferFull,
    NoMemory,
    InvalidState,
    Overflow,
    NotFound,
    OffsetOverflow,
    NoSpace,
    ShortWrite,
    Shutdown,
    DecompressError,
    IoError,
}

pub type ExofsResult<T> = Result<T, ExofsError>;

impl EpochId {
    /// An epoch is valid when it is not the reserved epoch 0.
    pub fn is_valid(&self) -> (r: bool)
        ensures
            r == (self.0 != 0),
    {
        self.0 != 0
    }
}

impl BlobId {
    /// The 32 bytes of the identifier.
    pub fn as_bytes(&self) -> (r: &[u8; 32])
        ensures
            r@ == self.0@,
    {
        &self.0
    }

    /// Byte-wise comparison of two identifiers that visits all 32 bytes.
    pub fn ct_eq(&self, other: &BlobId) -> (r: bool)
        ensures
            r == (self.0@ == other.0@),
    {
        let mut diff: bool = false;
        let mut i: usize = 0;
        while i < 32
            invariant
                0 <= i <= 32,
                diff == exists|j: int| 0 <= j < i && self.0@[j] != other.0@[j],
            decreases 32 - i,
        {
            if self.0[i] != other.0[i] {
                diff = true;
            }
            i += 1;
        }
        proof {
            if !diff {
                assert(self.0@ =~= other.0@);
            }
        }
        !diff
    }
}

/// `a * b` clamped to `u64::MAX`.
pub fn mul_sat(a: u64, b: u64) -> (r: u64)
    ensures
        r == (if a * b > u64::MAX { u64::MAX as int } else { a * b }),
{
    match a.checked_mul(b) {
        Some(p) => p,
        None => u64::MAX,
    }
}

} // verus!
