//! The page type and the tuning constants shared by the pool, the ledger and
//! the rate limiter. All instants are milliseconds on one monotonic clock.

use vstd::prelude::*;

verus! {

/// Minimum age, in milliseconds, before a served page may be evicted by age.
pub const PAGE_TTL_MS: u64 = 60_000;

/// Cadence of the housekeeping tick, in milliseconds.
pub const CLEANUP_EVERY_MS: u64 = 5_000;

/// Upper bound on how many pages the pool may hold.
pub const MAX_BUCKET_PAGES: usize = 200;

/// Length of the rate limiter's sliding window, in milliseconds.
pub const RATE_WINDOW_MS: u64 = 60_000;

/// One generated page. Immutable after creation except for `seen_count`,
/// which counts how many times the pool has handed the page to a visitor.
#[derive(Clone)]
pub struct Page {
    /// Opaque identifier; fresh pages get a random 128-bit id.
    pub id: u128,
    /// The page body.
    pub html: String,
    /// Instant of creation, in milliseconds on the caller's monotonic clock.
    pub created_at: u64,
    /// How many times this page has been served to some visitor.
    pub seen_count: usize,
}

/// A page old enough and served often enough for age-based eviction: strictly
/// older than `PAGE_TTL_MS` and served at least once.
pub open spec fn evictable(p: Page, now: u64) -> bool {
    &&& now - p.created_at > PAGE_TTL_MS
    &&& p.seen_count > 0
}

} // verus!
