//! Verified core of a repository backup pipeline.
//!
//! The library enumerates the repositories of an account through a paginated
//! listing interface, derives a deterministic archive filename for each
//! repository, skips archives that already exist on disk, streams archive
//! bytes in fixed-size chunks while accounting for the transferred total, and
//! isolates per-repository failures so that one failed download never aborts
//! the whole run. All decision logic lives here with proved contracts; the
//! surrounding process performs the actual network and filesystem work and
//! feeds the results back in as plain values.

pub mod client;
pub mod archive;
pub mod errors;
pub mod lister;
pub mod repo;
pub mod run;
pub mod text;

use vstd::prelude::*;

verus! {

/// True exactly when an HTTP status code counts as success for the
/// listing and archive endpoints (the conventional 2xx range).
pub open spec fn spec_status_success(status: u16) -> bool {
    200 <= status < 300
}

/// Executable check matching `spec_status_success`.
pub fn status_is_success(status: u16) -> (b: bool)
    ensures
        b == spec_status_success(status),
{
    200 <= status && status < 300
}

} // verus!
