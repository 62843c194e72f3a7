//! The error taxonomy of the pipeline. Every error is fatal to the group
//! being built; each carries the context a caller needs to act on it.

use vstd::prelude::*;

verus! {

/// Why building an asset group failed.
#[derive(Debug, PartialEq, Eq)]
pub enum AssetError {
    /// The base directory does not exist or is not a directory.
    DirectoryNotFound { path: String },
    /// Reading a directory entry failed.
    IoFailure { path: String },
    /// An include or ignore string is not a valid regular expression.
    InvalidPattern { pattern: String },
    /// The filters matched no file at all.
    NoMatches,
    /// A discovered path does not lie under the base directory.
    PathOutsideBase { path: String },
    /// Two relative paths synthesize to the same identifier.
    DuplicateIdentifier { identifier: String, first_path: String, second_path: String },
}

} // verus!
