# exofs

The storage and snapshot layers of the ExoFS file system as a Verus library:
each function carries a `requires`/`ensures` contract that Verus proves.

- `src/types.rs`, `src/bytes.rs`, `src/hash.rs`: identifiers and errors,
  little-endian encodings, Blake3 digests (the `blake3` crate, behind one
  trusted function).
- `src/storage/`: disk layout, heap and block allocation, block cache,
  checksums, compression frames, deduplication, extents, blobs, and the
  decisions of the ATA PIO driver.
- `src/snapshot/`: snapshot headers, the registry, creation, deletion,
  differences, retention, protection, mounts, quotas, restoration and
  streaming. The registries are values owned by the caller.
- `tests/`: ordinary Rust tests of the library.
- `app/`: what runs around the library: the port I/O of the ATA driver
  (with the `spin` crate) and the ratios computed in floating point.

Blob payloads are written in clear. Payload encryption (XChaCha20 under a
key derived from the blob identifier) needs a cipher and a key-derivation
module that this library does not have; a blob marked as encrypted is
refused by the reader with `InvalidState`.
