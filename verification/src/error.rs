//! The error taxonomy of the registry core.

use vstd::prelude::*;

verus! {

/// Why a content-store operation failed.
#[derive(Clone, Copy, Debug, PartialEq, Eq, Structural)]
pub enum IoFault {
    /// No file is stored at the path.
    NotFound,
    /// The relative path has a component that is not a plain name.
    InvalidInput,
    /// The path holds the file of a blob.
    InUse,
}

/// Why a metadata operation failed.
#[derive(Clone, Copy, Debug, PartialEq, Eq, Structural)]
pub enum MetadataFault {
    /// A row with the same key is already in the table.
    Duplicate,
    /// A counter or an identifier would leave its range.
    OutOfRange,
    /// Other rows still refer to the row.
    InUse,
}

/// What a lookup did not find.
#[derive(Clone, Copy, Debug, PartialEq, Eq, Structural)]
pub enum Missing {
    Blob,
    Manifest,
    Repository,
    Tag,
    Upload,
    User,
}

/// Every way an operation of the registry core can fail.
#[derive(Clone, Copy, Debug, PartialEq, Eq, Structural)]
pub enum StorageError {
    /// The content store failed.
    IoError(IoFault),
    /// The metadata store failed.
    MetadataError(MetadataFault),
    /// The bytes do not hash to the digest that was announced.
    DigestError,
    /// The credentials were not accepted.
    InvalidLogin,
    /// A chunk does not start where the session stands.
    OutOfOrder,
    /// A blob, manifest, repository, tag, upload session or user is absent.
    NotFound(Missing),
    /// A path, scope string, manifest or registration is malformed.
    InvalidInput,
}

impl StorageError {
    /// A short description of the failure.
    pub fn message(&self) -> (out: &'static str)
        ensures
            out@ == match *self {
                StorageError::IoError(_) => "IO Error"@,
                StorageError::MetadataError(_) => "Metadata Error"@,
                StorageError::DigestError => "Digest mismatch"@,
                StorageError::InvalidLogin => "Login failed"@,
                StorageError::OutOfOrder => "Chunk out of order"@,
                StorageError::NotFound(_) => "Not found"@,
                StorageError::InvalidInput => "Invalid input"@,
            },
    {
        match self {
            StorageError::IoError(_) => "IO Error",
            StorageError::MetadataError(_) => "Metadata Error",
            StorageError::DigestError => "Digest mismatch",
            StorageError::InvalidLogin => "Login failed",
            StorageError::OutOfOrder => "Chunk out of order",
            StorageError::NotFound(_) => "Not found",
            StorageError::InvalidInput => "Invalid input",
        }
    }
}

} // verus!
