//! The rotation engine: pick, for a visitor, a page they have not yet seen.
//!
//! The scan starts at a deterministic offset derived from the visitor's
//! identity, so different visitors probe different regions of the pool, and
//! walks the pool circularly until it finds a page whose id is not in the
//! visitor's ledger record. The first match is served: it is recorded in
//! the ledger and credited in the pool. When every page has been seen the
//! engine signals that a fresh page must be generated; generating one is
//! the caller's affair, and `insert_generated` files the result.

use vstd::prelude::*;
use vstd::string::StringSliceAdditionalSpecFns;

use crate::ledger::{Ledger, SeenEntry, ids_of, prune_entries};
use crate::page::Page;
use crate::pool::{Pool, spec_increment, spec_trim};
use crate::rate_limit::{RateLimiter, spec_hit};
use crate::visitors::vals_or_empty;

verus! {

/// Offset basis of the 64-bit FNV-1a hash.
pub const FNV64_OFFSET: u64 = 0xcbf2_9ce4_8422_2325;

/// Prime of the 64-bit FNV-1a hash.
pub const FNV64_PRIME: u64 = 0x0000_0100_0000_01b3;

/// The FNV-1a hash of a byte sequence.
pub open spec fn fnv64(bytes: Seq<u8>) -> u64
    decreases bytes.len(),
{
    if bytes.len() == 0 {
        FNV64_OFFSET
    } else {
        (fnv64(bytes.drop_last()) ^ (bytes.last() as u64)).wrapping_mul(FNV64_PRIME)
    }
}

/// Where a visitor's circular scan of a pool of length `len` starts.
pub open spec fn offset_of(bytes: Seq<u8>, len: int) -> int
    recommends
        len > 0,
{
    fnv64(bytes) as int % len
}

/// The `k`-th position of a circular scan from `offset`, for
/// `0 <= offset < len` and `0 <= k < len`.
pub open spec fn wrap_idx(offset: int, k: int, len: int) -> int {
    if offset + k < len {
        offset + k
    } else {
        offset + k - len
    }
}

/// The circular scan from position `k` onward: the first position holding
/// a page whose id is not among `seen`.
pub open spec fn scan_from(
    snapshot: Seq<Page>,
    seen: Seq<u128>,
    offset: int,
    k: int,
) -> Option<int>
    decreases snapshot.len() - k,
{
    if k >= snapshot.len() {
        None
    } else {
        let idx = wrap_idx(offset, k, snapshot.len() as int);
        if !seen.contains(snapshot[idx].id) {
            Some(idx)
        } else {
            scan_from(snapshot, seen, offset, k + 1)
        }
    }
}

/// The position the rotation picks: the first unseen page on the circular
/// scan from `offset`.
pub open spec fn spec_pick(snapshot: Seq<Page>, seen: Seq<u128>, offset: int) -> Option<int> {
    scan_from(snapshot, seen, offset, 0)
}

/// Every pool position is reached by the circular scan.
pub proof fn lemma_wrap_covers(offset: int, len: int, j: int)
    requires
        0 <= offset < len,
        0 <= j < len,
    ensures
        exists|k: int| 0 <= k < len && wrap_idx(offset, k, len) == j,
{
    if j >= offset {
        assert(wrap_idx(offset, j - offset, len) == j);
    } else {
        assert(wrap_idx(offset, j + len - offset, len) == j);
    }
}

proof fn lemma_scan_some(snapshot: Seq<Page>, seen: Seq<u128>, offset: int, k: int, i: int)
    requires
        0 <= offset < snapshot.len(),
        0 <= k,
        scan_from(snapshot, seen, offset, k) == Some(i),
    ensures
        0 <= i < snapshot.len(),
        !seen.contains(snapshot[i].id),
    decreases snapshot.len() - k,
{
    if k < snapshot.len() {
        let idx = wrap_idx(offset, k, snapshot.len() as int);
        if !seen.contains(snapshot[idx].id) {
        } else {
            lemma_scan_some(snapshot, seen, offset, k + 1, i);
        }
    }
}

proof fn lemma_scan_none(snapshot: Seq<Page>, seen: Seq<u128>, offset: int, k: int)
    requires
        0 <= offset < snapshot.len(),
        0 <= k,
        scan_from(snapshot, seen, offset, k) is None,
    ensures
        forall|m: int|
            k <= m < snapshot.len() ==> seen.contains(
                snapshot[wrap_idx(offset, m, snapshot.len() as int)].id,
            ),
    decreases snapshot.len() - k,
{
    if k < snapshot.len() {
        lemma_scan_none(snapshot, seen, offset, k + 1);
    }
}

/// What a successful pick means: the chosen position holds a page the
/// visitor has not seen.
pub proof fn lemma_pick_unseen(snapshot: Seq<Page>, seen: Seq<u128>, offset: int, i: int)
    requires
        0 <= offset < snapshot.len(),
        spec_pick(snapshot, seen, offset) == Some(i),
    ensures
        0 <= i < snapshot.len(),
        !seen.contains(snapshot[i].id),
{
    lemma_scan_some(snapshot, seen, offset, 0, i);
}

/// What an empty-handed pick means: generation is triggered only once the
/// visitor has seen every page currently in the pool.
pub proof fn lemma_pick_none_all_seen(snapshot: Seq<Page>, seen: Seq<u128>, offset: int)
    requires
        0 <= offset < snapshot.len(),
        spec_pick(snapshot, seen, offset) is None,
    ensures
        forall|j: int| 0 <= j < snapshot.len() ==> seen.contains(#[trigger] snapshot[j].id),
{
    lemma_scan_none(snapshot, seen, offset, 0);
    assert forall|j: int| 0 <= j < snapshot.len() implies seen.contains(
        #[trigger] snapshot[j].id,
    ) by {
        lemma_wrap_covers(offset, snapshot.len() as int, j);
        let k = choose|k: int|
            0 <= k < snapshot.len() && wrap_idx(offset, k, snapshot.len() as int) == j;
        assert(seen.contains(snapshot[wrap_idx(offset, k, snapshot.len() as int)].id));
    }
}

/// Two successful picks return different pages whenever the second pick's
/// seen-record remembers the first pick's page: the rotation never repeats
/// a page the ledger still knows about.
pub proof fn lemma_rotation_no_repeat(
    snap1: Seq<Page>,
    seen1: Seq<u128>,
    off1: int,
    i1: int,
    snap2: Seq<Page>,
    seen2: Seq<u128>,
    off2: int,
    i2: int,
)
    requires
        0 <= off1 < snap1.len(),
        0 <= off2 < snap2.len(),
        spec_pick(snap1, seen1, off1) == Some(i1),
        spec_pick(snap2, seen2, off2) == Some(i2),
        seen2.contains(snap1[i1].id),
    ensures
        snap2[i2].id != snap1[i1].id,
{
    lemma_pick_unseen(snap2, seen2, off2, i2);
}

/// The no-repeat guarantee across two requests: a visitor served page `i1`
/// from `pool1` at `now1` (which put that page on their ledger record) is
/// served a different page by any later successful pick, as long as the
/// second request comes within the ledger's forget window. Together with
/// `lemma_pick_none_all_seen` (generation starts only once every pooled
/// page has been seen), the sequence of pages served to one fast visitor
/// has no repeats until the pool is exhausted.
pub proof fn lemma_no_repeat_across_requests(
    l0: Map<Seq<char>, Seq<SeenEntry>>,
    user: Seq<char>,
    pool1: Seq<Page>,
    off1: int,
    i1: int,
    now1: u64,
    pool2: Seq<Page>,
    off2: int,
    i2: int,
    now2: u64,
)
    requires
        0 <= off1 < pool1.len(),
        0 <= off2 < pool2.len(),
        spec_pick(pool1, ids_of(prune_entries(vals_or_empty(l0, user), now1)), off1) == Some(
            i1,
        ),
        ({
            let seen1 = prune_entries(vals_or_empty(l0, user), now1);
            let l1 = l0.insert(user, seen1.push((SeenEntry { id: pool1[i1].id, at: now1 })));
            spec_pick(pool2, ids_of(prune_entries(vals_or_empty(l1, user), now2)), off2)
                == Some(i2)
        }),
        now2 - now1 <= 2 * crate::page::PAGE_TTL_MS,
    ensures
        pool2[i2].id != pool1[i1].id,
{
    let seen1 = prune_entries(vals_or_empty(l0, user), now1);
    let entry = SeenEntry { id: pool1[i1].id, at: now1 };
    let s = seen1.push(entry);
    assert(!crate::ledger::seen_stale(entry, now2));
    lemma_ledger_remembers(s, now2, s.len() - 1);
    let l1 = l0.insert(user, s);
    assert(vals_or_empty(l1, user) == s);
    lemma_pick_unseen(pool2, ids_of(prune_entries(s, now2)), off2, i2);
}

/// A delivery record still fresh at the next request shows up in the id
/// set the rotation scans against.
pub proof fn lemma_ledger_remembers(entries: Seq<SeenEntry>, now: u64, j: int)
    requires
        0 <= j < entries.len(),
        !crate::ledger::seen_stale(entries[j], now),
    ensures
        ids_of(prune_entries(entries, now)).contains(entries[j].id),
{
    crate::ledger::lemma_prune_keeps_fresh(entries, now, j);
    let p = prune_entries(entries, now);
    let k = choose|k: int| 0 <= k < p.len() && p[k] == entries[j];
    assert(ids_of(p)[k] == entries[j].id);
}

/// Deterministic per-visitor starting offset: the FNV-1a hash of the
/// identity, reduced modulo the pool length.
pub fn visitor_offset(user: &str, len: usize) -> (r: usize)
    requires
        len > 0,
    ensures
        r < len,
        r as int == offset_of(user.spec_bytes(), len as int),
{
    let bytes = user.as_bytes();
    let n = bytes.len();
    let mut h: u64 = FNV64_OFFSET;
    let mut i: usize = 0;
    while i < n
        invariant
            0 <= i <= n,
            n == bytes@.len(),
            h == fnv64(bytes@.subrange(0, i as int)),
        decreases n - i,
    {
        h = (h ^ (bytes[i] as u64)).wrapping_mul(FNV64_PRIME);
        proof {
            assert(bytes@.subrange(0, i + 1 as int).drop_last() =~= bytes@.subrange(
                0,
                i as int,
            ));
            assert(bytes@.subrange(0, i + 1 as int).last() == bytes@[i as int]);
        }
        i = i + 1;
    }
    proof {
        assert(bytes@.subrange(0, n as int) =~= bytes@);
    }
    let m = h % (len as u64);
    m as usize
}

/// Whether `ids` holds `id`.
fn contains_id(ids: &Vec<u128>, id: u128) -> (r: bool)
    ensures
        r == ids@.contains(id),
{
    let n = ids.len();
    let mut i: usize = 0;
    while i < n
        invariant
            0 <= i <= n,
            n == ids@.len(),
            forall|j: int| 0 <= j < i ==> ids@[j] != id,
        decreases n - i,
    {
        if ids[i] == id {
            return true;
        }
        i = i + 1;
    }
    false
}

/// Scan the snapshot circularly from `offset` for the first page whose id
/// is not among `seen`; the scan stops at its first match.
pub fn choose_unseen(snapshot: &Vec<Page>, seen: &Vec<u128>, offset: usize) -> (r: Option<
    usize,
>)
    requires
        snapshot@.len() > 0,
        offset < snapshot@.len(),
    ensures
        match r {
            Some(i) => i < snapshot@.len() && spec_pick(snapshot@, seen@, offset as int)
                == Some(i as int),
            None => spec_pick(snapshot@, seen@, offset as int) is None,
        },
{
    let len = snapshot.len();
    let mut k: usize = 0;
    while k < len
        invariant
            0 <= k <= len,
            len == snapshot@.len(),
            offset < len,
            spec_pick(snapshot@, seen@, offset as int) == scan_from(
                snapshot@,
                seen@,
                offset as int,
                k as int,
            ),
        decreases len - k,
    {
        let idx = if k < len - offset {
            offset + k
        } else {
            k - (len - offset)
        };
        proof {
            assert(idx as int == wrap_idx(offset as int, k as int, len as int));
        }
        if !contains_id(seen, snapshot[idx].id) {
            return Some(idx);
        }
        k = k + 1;
    }
    None
}

/// Relies on uuid::Uuid::new_v4 for a fresh random page identifier,
/// carried as its 128-bit value. Randomness warrants no promise about the
/// value.
#[verifier::external_body]
fn fresh_page_id() -> (r: u128) {
    uuid::Uuid::new_v4().as_u128()
}

/// One rotation round for `user` at instant `now`: prune and read the
/// visitor's record, scan the pool from the visitor's offset, and serve
/// the first unseen page, recording it in the ledger and crediting it in
/// the pool. `None` asks the caller to generate a fresh page instead.
pub fn serve_from_pool(pool: &mut Pool, ledger: &mut Ledger, user: &str, now: u64) -> (r:
    Option<String>)
    requires
        old(ledger).wf(),
    ensures
        final(ledger).wf(),
        final(pool)@.len() == old(pool)@.len(),
        ({
            let seen = prune_entries(vals_or_empty(old(ledger)@, user@), now);
            let pick = if old(pool)@.len() == 0 {
                Option::<int>::None
            } else {
                spec_pick(old(pool)@, ids_of(seen), offset_of(
                    user.spec_bytes(),
                    old(pool)@.len() as int,
                ))
            };
            match pick {
                Some(i) => {
                    &&& r == Some(old(pool)@[i].html)
                    &&& final(pool)@ == spec_increment(old(pool)@, old(pool)@[i].id)
                    &&& final(ledger)@ == old(ledger)@.insert(
                        user@,
                        seen.push((SeenEntry { id: old(pool)@[i].id, at: now })),
                    )
                },
                None => {
                    &&& r is None
                    &&& final(pool)@ == old(pool)@
                    &&& final(ledger)@ == old(ledger)@.insert(user@, seen)
                },
            }
        }),
{
    let ids = ledger.seen_ids(user, now);
    let snapshot = pool.pages_snapshot();
    if snapshot.len() == 0 {
        return None;
    }
    let offset = visitor_offset(user, snapshot.len());
    match choose_unseen(&snapshot, &ids, offset) {
        Some(i) => {
            let id = snapshot[i].id;
            let html = snapshot[i].html.clone();
            ledger.mark_seen(user, id, now);
            pool.update_seen_count(id);
            proof {
                let seen = prune_entries(vals_or_empty(old(ledger)@, user@), now);
                assert(final(ledger)@ =~= old(ledger)@.insert(
                    user@,
                    seen.push((SeenEntry { id, at: now })),
                ));
            }
            Some(html)
        }
        None => None,
    }
}

/// File a freshly generated page body: give it a random id, append it to
/// the pool with one serve already counted (the requesting visitor consumes
/// it immediately), and record it in that visitor's ledger. Returns the id
/// the page was filed under.
pub fn insert_generated(
    pool: &mut Pool,
    ledger: &mut Ledger,
    user: &str,
    html: String,
    now: u64,
) -> (id: u128)
    requires
        old(ledger).wf(),
    ensures
        final(ledger).wf(),
        final(pool).inv(),
        final(pool)@ == spec_trim(old(pool)@.push(
            (Page { id, html, created_at: now, seen_count: 1 }),
        )),
        final(ledger)@ == old(ledger)@.insert(
            user@,
            vals_or_empty(old(ledger)@, user@).push((SeenEntry { id, at: now })),
        ),
{
    let id = fresh_page_id();
    pool.push_page(Page { id, html, created_at: now, seen_count: 1 });
    ledger.mark_seen(user, id, now);
    id
}

/// File one prewarmed page body: a random id, never served yet. Returns
/// the id the page was filed under.
pub fn add_prewarmed(pool: &mut Pool, html: String, now: u64) -> (id: u128)
    ensures
        final(pool).inv(),
        final(pool)@ == spec_trim(old(pool)@.push(
            (Page { id, html, created_at: now, seen_count: 0 }),
        )),
{
    let id = fresh_page_id();
    pool.push_page(Page { id, html, created_at: now, seen_count: 0 });
    id
}

/// What one request ends in, before any page generation.
#[derive(Clone, Debug, PartialEq, Eq)]
pub enum ServeOutcome {
    /// A pooled page the visitor had not seen; its body is enclosed.
    Served(String),
    /// Every pooled page was already seen (or the pool is empty): the
    /// caller must generate a fresh page and file it with
    /// `insert_generated`.
    NeedsGeneration,
    /// The visitor is over budget; nothing was recorded or changed except
    /// the pruning of that visitor's rate record.
    RateLimited,
}

/// One full request decision for `user` at instant `now`: consult the rate
/// limiter first, then rotate. The pool and the ledger are untouched on a
/// rate-limited request.
pub fn handle_request(
    limiter: &mut RateLimiter,
    pool: &mut Pool,
    ledger: &mut Ledger,
    user: &str,
    now: u64,
) -> (r: ServeOutcome)
    requires
        old(limiter).wf(),
        old(ledger).wf(),
    ensures
        final(limiter).wf(),
        final(ledger).wf(),
        final(limiter).budget() == old(limiter).budget(),
        final(limiter)@ == spec_hit(old(limiter)@, old(limiter).budget(), user@, now).0,
        final(pool)@.len() == old(pool)@.len(),
        !spec_hit(old(limiter)@, old(limiter).budget(), user@, now).1 ==> {
            &&& r == ServeOutcome::RateLimited
            &&& final(pool)@ == old(pool)@
            &&& final(ledger)@ == old(ledger)@
        },
        spec_hit(old(limiter)@, old(limiter).budget(), user@, now).1 ==> ({
            let seen = prune_entries(vals_or_empty(old(ledger)@, user@), now);
            let pick = if old(pool)@.len() == 0 {
                Option::<int>::None
            } else {
                spec_pick(old(pool)@, ids_of(seen), offset_of(
                    user.spec_bytes(),
                    old(pool)@.len() as int,
                ))
            };
            match pick {
                Some(i) => {
                    &&& r == ServeOutcome::Served(old(pool)@[i].html)
                    &&& final(pool)@ == spec_increment(old(pool)@, old(pool)@[i].id)
                    &&& final(ledger)@ == old(ledger)@.insert(
                        user@,
                        seen.push((SeenEntry { id: old(pool)@[i].id, at: now })),
                    )
                },
                None => {
                    &&& r == ServeOutcome::NeedsGeneration
                    &&& final(pool)@ == old(pool)@
                    &&& final(ledger)@ == old(ledger)@.insert(user@, seen)
                },
            }
        }),
{
    if !limiter.hit_ok(user, now) {
        return ServeOutcome::RateLimited;
    }
    match serve_from_pool(pool, ledger, user, now) {
        Some(html) => ServeOutcome::Served(html),
        None => ServeOutcome::NeedsGeneration,
    }
}

} // verus!
