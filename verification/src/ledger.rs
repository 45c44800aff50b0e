//! The visitor ledger: which page ids each visitor has already received.
//!
//! Each visitor maps to a time-ordered sequence of (page id, first-served
//! instant) records, oldest first. Records older than twice the page TTL are
//! pruned lazily on read and by housekeeping, so the memory of a delivery
//! outlives the page's own eviction window but is eventually forgotten.

use vstd::prelude::*;

use crate::page::PAGE_TTL_MS;
use crate::visitors::{
    VisitorLog, as_map, distinct_keys, find_visitor, lemma_as_map_dom, lemma_as_map_get,
    lemma_as_map_push, lemma_as_map_update, vals_or_empty,
};

verus! {

/// One delivery record: which page, and when it was first served.
#[derive(Clone, Copy, PartialEq, Eq, Structural)]
pub struct SeenEntry {
    /// Identifier of the delivered page.
    pub id: u128,
    /// Instant of the delivery, milliseconds on the caller's clock.
    pub at: u64,
}

/// A record old enough to be forgotten: strictly older than twice the TTL.
pub open spec fn seen_stale(e: SeenEntry, now: u64) -> bool {
    now - e.at > 2 * PAGE_TTL_MS
}

/// Drop stale records from the head, stopping at the first fresh one.
pub open spec fn prune_entries(s: Seq<SeenEntry>, now: u64) -> Seq<SeenEntry>
    decreases s.len(),
{
    if s.len() > 0 && seen_stale(s[0], now) {
        prune_entries(s.drop_first(), now)
    } else {
        s
    }
}

/// The page ids of a sequence of records, in order.
pub open spec fn ids_of(s: Seq<SeenEntry>) -> Seq<u128> {
    s.map_values(|e: SeenEntry| e.id)
}

/// Record sequences are kept oldest first.
pub open spec fn entries_time_ordered(s: Seq<SeenEntry>) -> bool {
    forall|i: int, j: int| 0 <= i <= j < s.len() ==> s[i].at <= s[j].at
}

/// A record still fresh at `now` survives pruning.
pub proof fn lemma_prune_keeps_fresh(s: Seq<SeenEntry>, now: u64, i: int)
    requires
        0 <= i < s.len(),
        !seen_stale(s[i], now),
    ensures
        prune_entries(s, now).contains(s[i]),
    decreases s.len(),
{
    if s.len() > 0 && seen_stale(s[0], now) {
        let t = s.drop_first();
        assert(t[i - 1] == s[i]);
        lemma_prune_keeps_fresh(t, now, i - 1);
    } else {
        assert(prune_entries(s, now)[i] == s[i]);
    }
}

/// On a time-ordered sequence, pruning leaves only fresh records: the
/// ledger's invariant that no surviving record is older than twice the TTL.
pub proof fn lemma_prune_all_fresh(s: Seq<SeenEntry>, now: u64, i: int)
    requires
        entries_time_ordered(s),
        0 <= i < prune_entries(s, now).len(),
    ensures
        !seen_stale(prune_entries(s, now)[i], now),
    decreases s.len(),
{
    if s.len() > 0 && seen_stale(s[0], now) {
        let t = s.drop_first();
        assert forall|x: int, y: int| 0 <= x <= y < t.len() implies t[x].at <= t[y].at by {
            assert(t[x] == s[x + 1]);
            assert(t[y] == s[y + 1]);
        }
        lemma_prune_all_fresh(t, now, i);
    } else {
        if s.len() > 0 {
            assert(s[0].at <= s[i].at);
        }
    }
}

/// The ledger itself: one log per visitor, keys pairwise distinct.
pub struct Ledger {
    logs: Vec<VisitorLog<SeenEntry>>,
}

impl View for Ledger {
    type V = Map<Seq<char>, Seq<SeenEntry>>;

    closed spec fn view(&self) -> Map<Seq<char>, Seq<SeenEntry>> {
        as_map(self.logs@)
    }
}

impl Ledger {
    /// The representation keeps one log per visitor.
    pub closed spec fn wf(&self) -> bool {
        distinct_keys(self.logs@)
    }

    /// An empty ledger.
    pub fn new() -> (r: Ledger)
        ensures
            r@ == Map::<Seq<char>, Seq<SeenEntry>>::empty(),
            r.wf(),
    {
        Ledger { logs: Vec::new() }
    }

    /// Append a delivery record for `user`. Recording the same id twice is
    /// legal and yields two records; lookups treat the sequence as a set.
    pub fn mark_seen(&mut self, user: &str, id: u128, now: u64)
        requires
            old(self).wf(),
        ensures
            final(self).wf(),
            final(self)@ == old(self)@.insert(
                user@,
                vals_or_empty(old(self)@, user@).push(SeenEntry { id, at: now }),
            ),
    {
        let key: String = user.to_owned();
        let ghost logs0 = self.logs@;
        match find_visitor(&self.logs, &key) {
            Some(i) => {
                proof {
                    lemma_as_map_get(logs0, i as int);
                }
                let log = &mut self.logs[i];
                log.vals.push(SeenEntry { id, at: now });
                proof {
                    let log1 = self.logs@[i as int];
                    assert(self.logs@ =~= logs0.update(i as int, log1));
                    lemma_as_map_update(logs0, i as int, log1);
                    assert(distinct_keys(self.logs@));
                }
            }
            None => {
                let mut vals: Vec<SeenEntry> = Vec::new();
                vals.push(SeenEntry { id, at: now });
                self.logs.push(VisitorLog { visitor: key, vals });
                proof {
                    let log1 = self.logs@.last();
                    lemma_as_map_push(logs0, log1);
                    lemma_as_map_dom(logs0, user@);
                    assert(!old(self)@.contains_key(user@));
                    assert(log1.vals@ =~= vals_or_empty(old(self)@, user@).push(
                        SeenEntry { id, at: now },
                    ));
                    assert forall|x: int, y: int|
                        0 <= x < y < self.logs@.len() implies self.logs@[x].visitor@
                        != self.logs@[y].visitor@ by {
                        if y == self.logs@.len() - 1 {
                            assert(self.logs@[x] == logs0[x]);
                        } else {
                            assert(self.logs@[x] == logs0[x]);
                            assert(self.logs@[y] == logs0[y]);
                        }
                    }
                }
            }
        }
    }

    /// Drop stale records from the head of the log at `i`.
    fn prune_at(&mut self, i: usize, now: u64)
        requires
            i < old(self).logs@.len(),
        ensures
            final(self).logs@.len() == old(self).logs@.len(),
            final(self).logs@[i as int].visitor@ == old(self).logs@[i as int].visitor@,
            final(self).logs@[i as int].vals@ == prune_entries(
                old(self).logs@[i as int].vals@,
                now,
            ),
            forall|j: int|
                0 <= j < old(self).logs@.len() && j != i ==> final(self).logs@[j]
                    == old(self).logs@[j],
    {
        loop
            invariant
                i < self.logs@.len(),
                self.logs@.len() == old(self).logs@.len(),
                self.logs@[i as int].visitor@ == old(self).logs@[i as int].visitor@,
                prune_entries(self.logs@[i as int].vals@, now) == prune_entries(
                    old(self).logs@[i as int].vals@,
                    now,
                ),
                forall|j: int|
                    0 <= j < old(self).logs@.len() && j != i ==> self.logs@[j]
                        == old(self).logs@[j],
            ensures
                self.logs@[i as int].vals@ == prune_entries(
                    old(self).logs@[i as int].vals@,
                    now,
                ),
            decreases self.logs@[i as int].vals@.len(),
        {
            let ghost before = self.logs@[i as int].vals@;
            let log = &mut self.logs[i];
            if log.vals.len() == 0 {
                break ;
            }
            let e = log.vals[0];
            if now > e.at && now - e.at > 2 * PAGE_TTL_MS {
                log.vals.remove(0);
                proof {
                    assert(seen_stale(before[0], now));
                    assert(self.logs@[i as int].vals@ =~= before.drop_first());
                }
            } else {
                proof {
                    assert(!seen_stale(before[0], now));
                }
                break ;
            }
        }
    }

    /// The set of page ids currently on record for `user`, after lazily
    /// pruning stale records. A first contact creates the visitor's entry.
    pub fn seen_ids(&mut self, user: &str, now: u64) -> (r: Vec<u128>)
        requires
            old(self).wf(),
        ensures
            final(self).wf(),
            final(self)@ == old(self)@.insert(
                user@,
                prune_entries(vals_or_empty(old(self)@, user@), now),
            ),
            r@ == ids_of(prune_entries(vals_or_empty(old(self)@, user@), now)),
    {
        let key: String = user.to_owned();
        let ghost logs0 = self.logs@;
        let i: usize = match find_visitor(&self.logs, &key) {
            Some(i) => {
                proof {
                    lemma_as_map_get(logs0, i as int);
                }
                i
            }
            None => {
                let vals: Vec<SeenEntry> = Vec::new();
                self.logs.push(VisitorLog { visitor: key, vals });
                proof {
                    let log1 = self.logs@.last();
                    lemma_as_map_push(logs0, log1);
                    lemma_as_map_dom(logs0, user@);
                    assert forall|x: int, y: int|
                        0 <= x < y < self.logs@.len() implies self.logs@[x].visitor@
                        != self.logs@[y].visitor@ by {
                        if y == self.logs@.len() - 1 {
                            assert(self.logs@[x] == logs0[x]);
                        } else {
                            assert(self.logs@[x] == logs0[x]);
                            assert(self.logs@[y] == logs0[y]);
                        }
                    }
                }
                self.logs.len() - 1
            }
        };
        let ghost logs1 = self.logs@;
        let ghost m1 = as_map(logs1);
        proof {
            assert(distinct_keys(logs1));
            assert(logs1[i as int].visitor@ == user@);
            lemma_as_map_get(logs1, i as int);
            assert(logs1[i as int].vals@ == vals_or_empty(old(self)@, user@));
        }
        self.prune_at(i, now);
        proof {
            let log2 = self.logs@[i as int];
            assert(self.logs@ =~= logs1.update(i as int, log2));
            lemma_as_map_update(logs1, i as int, log2);
            assert(distinct_keys(self.logs@));
            assert(final(self)@ =~= old(self)@.insert(
                user@,
                prune_entries(vals_or_empty(old(self)@, user@), now),
            ));
        }
        let log = &self.logs[i];
        let n = log.vals.len();
        let mut out: Vec<u128> = Vec::new();
        let mut j: usize = 0;
        while j < n
            invariant
                0 <= j <= n,
                n == log.vals@.len(),
                out@ == ids_of(log.vals@.subrange(0, j as int)),
            decreases n - j,
        {
            out.push(log.vals[j].id);
            proof {
                assert(out@ =~= ids_of(log.vals@.subrange(0, j + 1 as int)));
            }
            j = j + 1;
        }
        proof {
            assert(log.vals@.subrange(0, n as int) =~= log.vals@);
        }
        out
    }

    /// Housekeeping: prune every visitor's records. Keys are kept even when
    /// their record sequence becomes empty.
    pub fn prune_all(&mut self, now: u64)
        requires
            old(self).wf(),
        ensures
            final(self).wf(),
            forall|k: Seq<char>|
                final(self)@.contains_key(k) <==> old(self)@.contains_key(k),
            forall|k: Seq<char>|
                old(self)@.contains_key(k) ==> final(self)@[k] == prune_entries(
                    #[trigger] old(self)@[k],
                    now,
                ),
    {
        let ghost logs0 = self.logs@;
        let n = self.logs.len();
        let mut i: usize = 0;
        while i < n
            invariant
                0 <= i <= n,
                n == self.logs@.len(),
                logs0.len() == n,
                distinct_keys(logs0),
                forall|j: int| 0 <= j < n ==> self.logs@[j].visitor@ == logs0[j].visitor@,
                forall|j: int|
                    0 <= j < i ==> self.logs@[j].vals@ == prune_entries(logs0[j].vals@, now),
                forall|j: int| i <= j < n ==> self.logs@[j] == logs0[j],
            decreases n - i,
        {
            self.prune_at(i, now);
            i = i + 1;
        }
        proof {
            assert(distinct_keys(self.logs@));
            assert forall|k: Seq<char>|
                final(self)@.contains_key(k) <==> old(self)@.contains_key(k) by {
                lemma_as_map_dom(self.logs@, k);
                lemma_as_map_dom(logs0, k);
            }
            assert forall|k: Seq<char>| old(self)@.contains_key(k) implies final(self)@[k]
                == prune_entries(old(self)@[k], now) by {
                lemma_as_map_dom(logs0, k);
                let j = choose|j: int| 0 <= j < logs0.len() && logs0[j].visitor@ == k;
                lemma_as_map_get(logs0, j);
                lemma_as_map_get(self.logs@, j);
            }
        }
    }
}

} // verus!
