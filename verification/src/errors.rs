//! Error taxonomy of the backup pipeline.
//!
//! Configuration errors abort before any network call; an `Api` error carries
//! the HTTP status that caused it; `Decode` marks a listing page whose body
//! did not match the expected shape; `Io` marks a filesystem failure.

use vstd::prelude::*;

verus! {

/// One error kind per failure class of the pipeline.
#[derive(Debug, Clone, Copy, PartialEq, Eq, Structural)]
pub enum BackupError {
    /// The credential could not be encoded into a request header.
    Configuration,
    /// A request was answered with a non-success HTTP status.
    Api { status: u16 },
    /// A listing page body did not decode against the expected shape.
    Decode,
    /// A filesystem create or write failed.
    Io,
}

impl BackupError {
    /// True for the kind that carries a non-success HTTP status — fatal when
    /// it strikes the listing, recorded and skipped when it strikes one
    /// download.
    pub open spec fn spec_is_api(self) -> bool {
        self matches BackupError::Api { .. }
    }

    /// Executable test for the `Api` kind.
    pub fn is_api(&self) -> (b: bool)
        ensures
            b == self.spec_is_api(),
    {
        match self {
            BackupError::Api { .. } => true,
            _ => false,
        }
    }
}

} // verus!
