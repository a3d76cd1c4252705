//! Metrics facade.
//!
//! All metric calls go through this module so that the recorder is chosen in
//! one place. This build carries no metrics recorder, so the calls are no-ops
//! and add no runtime overhead.
use vstd::prelude::*;

verus! {

/// Increment a counter by `n`.
pub fn counter(name: &'static str, n: u64) {
    let _ = (name, n);
}

/// Increment a counter with label values.
pub fn counter_with(name: &'static str, labels: &[(&'static str, &'static str)], n: u64) {
    let _ = (name, labels, n);
}

/// Total number of queries executed.
pub const QUERY_TOTAL: &'static str = "ruprizzle_query_total";

/// Total number of query errors.
pub const QUERY_ERRORS_TOTAL: &'static str = "ruprizzle_query_errors_total";

/// Query duration histogram, in seconds.
pub const QUERY_DURATION_SECONDS: &'static str = "ruprizzle_query_duration_seconds";

/// Current pool size gauge.
pub const POOL_SIZE: &'static str = "ruprizzle_pool_size";

/// Current idle connection gauge.
pub const POOL_IDLE: &'static str = "ruprizzle_pool_idle";

/// Current in-use connection gauge.
pub const POOL_IN_USE: &'static str = "ruprizzle_pool_in_use";

/// Current waiter count gauge.
pub const POOL_WAITERS: &'static str = "ruprizzle_pool_waiters";

} // verus!
