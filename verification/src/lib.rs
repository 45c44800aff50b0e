//! A bounded pool of generated pages, rotated across visitors.
//!
//! The library keeps three independent pieces of state: a bounded,
//! insertion-ordered pool of pages; a per-visitor ledger of page ids already
//! delivered; and a per-visitor sliding-window rate limiter. A rotation step
//! picks, for a visitor, a page they have not yet seen, or reports that a
//! fresh page must be generated. A housekeeping step ages out stale pages and
//! prunes stale ledger and rate-limiter records. All operations take the
//! current instant as an explicit millisecond timestamp; the caller owns the
//! clock, the locks, and the external page generator.

pub mod page;
pub mod pool;
pub mod visitors;
pub mod ledger;
pub mod rate_limit;
pub mod rotation;
pub mod housekeeping;
pub mod config;
pub mod error;
pub mod utils;
