//! Error taxonomy of the status engine: fatal errors abort a whole call,
//! per-path backend errors are collected in the result.

use vstd::prelude::*;

verus! {

/// A fatal error: the whole status call aborts.
#[derive(Debug, PartialEq, Eq, Structural, Clone, Copy)]
pub enum StatusError {
    /// A parent manifest could not be resolved; classification would be
    /// inconsistent without it.
    ManifestUnavailable,
    /// The flag store contradicts itself, such as a record flagged `COPIED`
    /// with no recorded source.
    FlagStoreCorrupt,
    /// The requested filesystem backend is not available in this build.
    ScopeMisconfiguration,
}

/// A per-path, non-fatal filesystem error, recorded in the result beside
/// whatever classification succeeded.
#[derive(Debug)]
pub struct BackendIoError {
    /// What the backend reported for the path it could not read.
    pub message: String,
}

impl BackendIoError {
    /// A copy of the error with the same message.
    pub fn dup(&self) -> (r: BackendIoError)
        ensures
            r.message@ == self.message@,
    {
        BackendIoError { message: self.message.clone() }
    }
}

} // verus!
