//! The error taxonomy: loading a record can fail towards the caller;
//! saving can fail only on the eviction path, where the failure is swallowed.

use vstd::prelude::*;

verus! {

/// Why a record could not be loaded. Surfaces to the caller of
/// `get_or_insert`.
#[derive(Clone, Copy, Debug, PartialEq, Eq, Structural)]
pub enum LoadError {
    /// No file exists for this guild, and creating a default was not asked.
    ConfigNotFound(u64),
    /// The file's text is not in the record grammar.
    FailedDeserialization,
    /// The file exists but could not be read.
    FailedReading,
}

/// Why a record could not be saved. Reached only from eviction, never
/// surfaced.
#[derive(Clone, Copy, Debug, PartialEq, Eq, Structural)]
pub enum SaveError {
    /// A key of the record cannot be written in the canonical encoding.
    FailedSerialization,
    /// The directory for the record files could not be created.
    FailedDirectoryCreation,
    /// The file could not be written.
    FailedWriting,
}

/// Either failure, as the cache reports it.
#[derive(Clone, Copy, Debug, PartialEq, Eq, Structural)]
pub enum Error {
    SaveError(SaveError),
    LoadError(LoadError),
}

} // verus!
