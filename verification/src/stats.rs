//! Aggregate storage statistics served by the stats endpoint.

use vstd::prelude::*;

verus! {

/// Total stored rows and the store's human-readable size.
#[derive(Debug)]
pub struct Stats {
    pub total_count: i64,
    pub db_size: String,
}

impl Stats {
    /// Packs the two figures the store reports.
    pub fn new(total_count: i64, db_size: String) -> (r: Self)
        ensures
            r.total_count == total_count,
            r.db_size == db_size,
    {
        Stats { total_count, db_size }
    }
}

} // verus!
