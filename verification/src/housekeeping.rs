//! One housekeeping tick: the periodic maintenance pass over all three
//! pieces of state. The caller runs it on a timer; each effect is
//! independent of the others and of any individual request.

use vstd::prelude::*;

use crate::ledger::{Ledger, prune_entries};
use crate::pool::{Pool, spec_evict, spec_trim};
use crate::rate_limit::{RateLimiter, live_hits};

verus! {

/// Age out stale pool pages and re-trim, prune every visitor's ledger
/// record, and sweep the rate limiter, all against the same instant.
pub fn housekeeping_tick(
    pool: &mut Pool,
    ledger: &mut Ledger,
    limiter: &mut RateLimiter,
    now: u64,
)
    requires
        old(ledger).wf(),
        old(limiter).wf(),
    ensures
        final(pool)@ == spec_trim(spec_evict(old(pool)@, now)),
        final(pool).inv(),
        final(ledger).wf(),
        forall|k: Seq<char>|
            final(ledger)@.contains_key(k) <==> old(ledger)@.contains_key(k),
        forall|k: Seq<char>|
            old(ledger)@.contains_key(k) ==> final(ledger)@[k] == prune_entries(
                #[trigger] old(ledger)@[k],
                now,
            ),
        final(limiter).wf(),
        final(limiter).budget() == old(limiter).budget(),
        forall|k: Seq<char>|
            final(limiter)@.contains_key(k) <==> old(limiter)@.contains_key(k),
        forall|k: Seq<char>|
            old(limiter)@.contains_key(k) ==> final(limiter)@[k] == live_hits(
                #[trigger] old(limiter)@[k],
                now,
            ),
{
    pool.evict_aged(now);
    ledger.prune_all(now);
    limiter.sweep(now);
}

} // verus!
