//! The errors that raw operations report.
use vstd::prelude::*;

verus! {

/// What a raw operation can fail with.
#[derive(Debug)]
pub enum Error {
    /// A scan asked for more pairs than a single scan may return; raised before
    /// anything is sent.
    MaxScanLimitExceeded { limit: u32, max_limit: u32 },
    /// The cluster could not serve the request for now (a shard moved or was
    /// unavailable); the execution layer gave up retrying.
    Retryable { message: String },
    /// The store refused the request for good.
    Rejected { message: String },
    /// No connection could carry the request.
    Transport { message: String },
}

} // verus!
