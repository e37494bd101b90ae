//! ExoFS storage and snapshot layers with machine-checked contracts.
pub mod types;
pub mod bytes;
pub mod hash;
pub mod storage;
pub mod snapshot;
