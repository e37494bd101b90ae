//! Blake3 digests and blob identifiers.
use vstd::prelude::*;
use crate::types::BlobId;

verus! {

/// The Blake3 digest (32 bytes) of a byte sequence, as computed by the `blake3` crate.
pub uninterp spec fn blake3_spec(data: Seq<u8>) -> Seq<u8>;

/// Calls `blake3::hash` and returns the 32 bytes of the digest.
///
/// Trusted: the digest is taken to be a function of the input bytes alone,
/// named `blake3_spec`; nothing else about it is stated.
#[verifier::external_body]
pub fn blake3_hash(data: &[u8]) -> (r: [u8; 32])
    ensures
        r@ == blake3_spec(data@),
{
    *blake3::hash(data).as_bytes()
}

/// Identifier of a blob whose raw bytes are `data`.
pub open spec fn blob_id_spec(data: Seq<u8>) -> Seq<u8> {
    blake3_spec(data)
}

/// Computes the identifier of raw (uncompressed) data.
pub fn compute_blob_id(data: &[u8]) -> (r: BlobId)
    ensures
        r.0@ == blob_id_spec(data@),
{
    BlobId(blake3_hash(data))
}

/// True iff `data` hashes to `id`.
pub fn verify_blob_id(id: &BlobId, data: &[u8]) -> (r: bool)
    ensures
        r == (id.0@ == blob_id_spec(data@)),
{
    let got = compute_blob_id(data);
    got.ct_eq(id)
}

/// Compares two 32-byte digests.
pub fn digest_eq(a: &[u8; 32], b: &[u8; 32]) -> (r: bool)
    ensures
        r == (a@ == b@),
{
    let mut i: usize = 0;
    while i < 32
        invariant
            0 <= i <= 32,
            forall|j: int| 0 <= j < i ==> a@[j] == b@[j],
        decreases 32 - i,
    {
        if a[i] != b[i] {
            return false;
        }
        i += 1;
    }
    proof {
        assert(a@ =~= b@);
    }
    true
}

} // verus!
