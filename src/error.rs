//! Errors of the storage layer.

use vstd::prelude::*;

verus! {

/// Why a storage operation failed.
#[derive(Clone, Copy, Debug, PartialEq, Eq, Structural)]
pub enum Error {
    /// No block, entry or root for the key asked.
    BlockNotFound,
    /// Stored data that does not decode: a bad header, a block of the wrong size, or data
    /// that violates a structural invariant.
    Corrupt,
    /// An argument out of range, such as a length past the largest blob.
    InvalidArgument,
    /// The effective access level is below what the operation needs.
    PermissionDenied,
    /// A name collision that cannot be merged.
    EntryExists,
    /// A path operation expected a directory and found a file.
    EntryIsFile,
    /// A path operation expected a file and found a directory.
    EntryIsDirectory,
    /// A directory that still has live entries cannot be replaced.
    DirectoryNotEmpty,
    /// No entry of that name.
    EntryNotFound,
    /// The blocks would take more space than the configured quota.
    QuotaExceeded,
    /// A stored value does not decode as the type asked for.
    MalformedData,
    /// A lifecycle lock on the blob is held in a way that excludes the operation.
    Locked,
}

} // verus!
