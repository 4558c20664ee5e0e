//! The errors of saving and loading.

use vstd::prelude::*;

verus! {

/// Why a snapshot could not be written or read back.
#[derive(Debug, Clone, Copy, PartialEq, Eq, Structural)]
pub enum SnapshotError {
    /// The storage location could not be created, written or read.
    Io,
    /// The snapshot could not be turned into bytes.
    Encode,
    /// The bytes do not hold a snapshot.
    Decode,
    /// There is no file at the given path.
    NotFound,
}

} // verus!
