//! Verified core of a Debian package-pool scraper: link discovery and
//! classification, bounded-pool accounting, crawl-frontier scheduling with
//! quiescence detection, retrying-fetch policy, and the cache-keyed
//! download/unpack/sort pipeline plan.
use vstd::prelude::*;

pub mod fetch;
pub mod frontier;
pub mod links;
pub mod pipeline;
pub mod pool;
pub mod scan;
pub mod text;
pub mod urls;

verus! {

/// The closed set of failure kinds a crawl or download task can report.
pub enum TaskErrorKind {
    /// A transport-level failure: connection error, timeout, or a response
    /// whose body could not be read. Retried by the resilient fetch.
    TransientNetwork,
    /// A malformed URL or a non-UTF-8 fragment: skipped per link, never
    /// aborts the enclosing task.
    ParseAnomaly,
    /// A non-zero exit of the extractor or sorter subprocess: fails that
    /// artifact's or package's task.
    SubprocessFailure,
    /// A setup failure before any task is spawned: aborts the run.
    FatalSetup,
}

/// Only transport-level failures are retried; every other kind surfaces at
/// once as a task failure.
pub fn is_retryable(k: &TaskErrorKind) -> (r: bool)
    ensures
        r == (k is TransientNetwork),
{
    match k {
        TaskErrorKind::TransientNetwork => true,
        _ => false,
    }
}

} // verus!
