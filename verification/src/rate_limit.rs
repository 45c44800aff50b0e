//! The per-visitor sliding-window rate limiter.
//!
//! Each visitor maps to a time-ordered sequence of request instants. A
//! request is admitted when, after discarding instants that have left the
//! trailing window, fewer than the budget remain; the admitted request's
//! instant is then recorded. A rejected request records nothing. The window
//! is measured from the current instant, and an instant exactly one window
//! old has expired.

use vstd::prelude::*;

use crate::page::RATE_WINDOW_MS;
use crate::visitors::{
    VisitorLog, as_map, distinct_keys, find_visitor, lemma_as_map_dom, lemma_as_map_get,
    lemma_as_map_push, lemma_as_map_update, vals_or_empty,
};

verus! {

/// An instant that has left the trailing window: at least one full window
/// before `now`.
pub open spec fn hit_expired(t: u64, now: u64) -> bool {
    now - t >= RATE_WINDOW_MS
}

/// Drop expired instants from the head, stopping at the first live one.
pub open spec fn live_hits(s: Seq<u64>, now: u64) -> Seq<u64>
    decreases s.len(),
{
    if s.len() > 0 && hit_expired(s[0], now) {
        live_hits(s.drop_first(), now)
    } else {
        s
    }
}

/// Request instants are kept oldest first.
pub open spec fn hits_time_ordered(s: Seq<u64>) -> bool {
    forall|i: int, j: int| 0 <= i <= j < s.len() ==> s[i] <= s[j]
}

/// One admit-or-reject step on the mathematical model: the map after the
/// call, and whether the request was admitted.
pub open spec fn spec_hit(
    m: Map<Seq<char>, Seq<u64>>,
    budget: usize,
    user: Seq<char>,
    now: u64,
) -> (Map<Seq<char>, Seq<u64>>, bool) {
    let live = live_hits(vals_or_empty(m, user), now);
    if live.len() < budget {
        (m.insert(user, live.push(now)), true)
    } else {
        (m.insert(user, live), false)
    }
}

/// The model after a whole run of admit-or-reject steps, one per instant.
pub open spec fn spec_hit_seq(
    m: Map<Seq<char>, Seq<u64>>,
    budget: usize,
    user: Seq<char>,
    times: Seq<u64>,
) -> Map<Seq<char>, Seq<u64>>
    decreases times.len(),
{
    if times.len() == 0 {
        m
    } else {
        spec_hit_seq(spec_hit(m, budget, user, times[0]).0, budget, user, times.drop_first())
    }
}

/// Whether a whole run of requests is admitted step by step.
pub open spec fn all_admitted(
    m: Map<Seq<char>, Seq<u64>>,
    budget: usize,
    user: Seq<char>,
    times: Seq<u64>,
) -> bool
    decreases times.len(),
{
    times.len() == 0 || (spec_hit(m, budget, user, times[0]).1 && all_admitted(
        spec_hit(m, budget, user, times[0]).0,
        budget,
        user,
        times.drop_first(),
    ))
}

/// A sequence whose head is still live is left whole by the window.
pub proof fn lemma_live_noop(s: Seq<u64>, now: u64)
    requires
        s.len() == 0 || !hit_expired(s[0], now),
    ensures
        live_hits(s, now) == s,
{
}

/// On a time-ordered sequence, everything the window keeps is strictly
/// within it.
pub proof fn lemma_live_all_within(s: Seq<u64>, now: u64, i: int)
    requires
        hits_time_ordered(s),
        0 <= i < live_hits(s, now).len(),
    ensures
        !hit_expired(live_hits(s, now)[i], now),
    decreases s.len(),
{
    if s.len() > 0 && hit_expired(s[0], now) {
        let t = s.drop_first();
        assert forall|x: int, y: int| 0 <= x <= y < t.len() implies t[x] <= t[y] by {
            assert(t[x] == s[x + 1]);
            assert(t[y] == s[y + 1]);
        }
        lemma_live_all_within(t, now, i);
    } else {
        if s.len() > 0 {
            assert(s[0] <= s[i]);
        }
    }
}

/// Requests do not consume budget when rejected: with the head of the
/// record still live and the budget already used up, the step rejects and
/// leaves the recorded instants exactly as they were.
pub proof fn lemma_rejected_consumes_no_budget(
    m: Map<Seq<char>, Seq<u64>>,
    budget: usize,
    user: Seq<char>,
    now: u64,
)
    requires
        vals_or_empty(m, user).len() >= budget,
        vals_or_empty(m, user).len() == 0 || !hit_expired(vals_or_empty(m, user)[0], now),
    ensures
        spec_hit(m, budget, user, now) == (m.insert(user, vals_or_empty(m, user)), false),
        spec_hit(m, budget, user, now).0[user] == vals_or_empty(m, user),
{
    lemma_live_noop(vals_or_empty(m, user), now);
}

/// A run of requests that all fit in one window on top of what is already
/// recorded is admitted in full, and afterwards exactly those instants are
/// on record.
pub proof fn lemma_admit_run(
    m: Map<Seq<char>, Seq<u64>>,
    budget: usize,
    user: Seq<char>,
    prior: Seq<u64>,
    times: Seq<u64>,
)
    requires
        vals_or_empty(m, user) == prior,
        hits_time_ordered(prior + times),
        prior.len() + times.len() <= budget,
        (prior + times).len() > 0 ==> (prior + times).last() - (prior + times)[0]
            < RATE_WINDOW_MS,
    ensures
        all_admitted(m, budget, user, times),
        vals_or_empty(spec_hit_seq(m, budget, user, times), user) == prior + times,
    decreases times.len(),
{
    let c = prior + times;
    if times.len() == 0 {
        assert(c =~= prior);
    } else {
        let t0 = times[0];
        if prior.len() > 0 {
            assert(prior[0] == c[0]);
            assert(t0 == c[prior.len() as int]);
            assert(t0 <= c.last());
            assert(c[0] <= t0);
            assert(!hit_expired(prior[0], t0));
        }
        lemma_live_noop(prior, t0);
        let step = spec_hit(m, budget, user, t0);
        assert(step.1);
        let m1 = step.0;
        let prior1 = prior.push(t0);
        assert(vals_or_empty(m1, user) == prior1);
        assert(prior1 + times.drop_first() =~= c);
        lemma_admit_run(m1, budget, user, prior1, times.drop_first());
    }
}

/// The window never keeps more instants than were recorded.
pub proof fn lemma_live_len(s: Seq<u64>, now: u64)
    ensures
        live_hits(s, now).len() <= s.len(),
    decreases s.len(),
{
    if s.len() > 0 && hit_expired(s[0], now) {
        lemma_live_len(s.drop_first(), now);
    }
}

/// The sliding-window boundary: a visitor with no record who issues
/// exactly `budget` requests inside one window is admitted on every one of
/// them; one more request still inside the window of the first is rejected
/// and leaves the record as it was; and a request made once the first
/// instant has left the window is admitted again.
pub proof fn lemma_rate_limiter_boundary(
    m: Map<Seq<char>, Seq<u64>>,
    budget: usize,
    user: Seq<char>,
    times: Seq<u64>,
    t_over: u64,
    t_later: u64,
)
    requires
        vals_or_empty(m, user) == Seq::<u64>::empty(),
        times.len() == budget,
        budget > 0,
        hits_time_ordered(times),
        times.last() - times[0] < RATE_WINDOW_MS,
        t_over - times[0] < RATE_WINDOW_MS,
        t_later - times[0] >= RATE_WINDOW_MS,
    ensures
        all_admitted(m, budget, user, times),
        !spec_hit(spec_hit_seq(m, budget, user, times), budget, user, t_over).1,
        spec_hit(spec_hit_seq(m, budget, user, times), budget, user, t_over).0 == spec_hit_seq(
            m,
            budget,
            user,
            times,
        ).insert(user, times),
        spec_hit(
            spec_hit(spec_hit_seq(m, budget, user, times), budget, user, t_over).0,
            budget,
            user,
            t_later,
        ).1,
{
    assert(Seq::<u64>::empty() + times =~= times);
    lemma_admit_run(m, budget, user, Seq::<u64>::empty(), times);
    let m1 = spec_hit_seq(m, budget, user, times);
    assert(vals_or_empty(m1, user) == times);
    assert(!hit_expired(times[0], t_over));
    lemma_live_noop(times, t_over);
    let m2 = spec_hit(m1, budget, user, t_over).0;
    assert(vals_or_empty(m2, user) == times);
    assert(hit_expired(times[0], t_later));
    assert(live_hits(times, t_later) == live_hits(times.drop_first(), t_later));
    lemma_live_len(times.drop_first(), t_later);
}

/// The rate limiter: one request log per visitor, and the per-minute budget.
pub struct RateLimiter {
    logs: Vec<VisitorLog<u64>>,
    per_minute: usize,
}

impl View for RateLimiter {
    type V = Map<Seq<char>, Seq<u64>>;

    closed spec fn view(&self) -> Map<Seq<char>, Seq<u64>> {
        as_map(self.logs@)
    }
}

impl RateLimiter {
    /// The representation keeps one log per visitor.
    pub closed spec fn wf(&self) -> bool {
        distinct_keys(self.logs@)
    }

    /// How many requests each visitor may make per window.
    pub closed spec fn budget(&self) -> usize {
        self.per_minute
    }

    /// A fresh limiter with the given per-window budget.
    pub fn new(per_minute: usize) -> (r: RateLimiter)
        ensures
            r@ == Map::<Seq<char>, Seq<u64>>::empty(),
            r.budget() == per_minute,
            r.wf(),
    {
        RateLimiter { logs: Vec::new(), per_minute }
    }

    /// Drop expired instants from the head of the log at `i`.
    fn prune_at(&mut self, i: usize, now: u64)
        requires
            i < old(self).logs@.len(),
        ensures
            final(self).logs@.len() == old(self).logs@.len(),
            final(self).per_minute == old(self).per_minute,
            final(self).logs@[i as int].visitor@ == old(self).logs@[i as int].visitor@,
            final(self).logs@[i as int].vals@ == live_hits(
                old(self).logs@[i as int].vals@,
                now,
            ),
            forall|j: int|
                0 <= j < old(self).logs@.len() && j != i ==> final(self).logs@[j]
                    == old(self).logs@[j],
    {
        loop
            invariant
                i < self.logs@.len(),
                self.logs@.len() == old(self).logs@.len(),
                self.per_minute == old(self).per_minute,
                self.logs@[i as int].visitor@ == old(self).logs@[i as int].visitor@,
                live_hits(self.logs@[i as int].vals@, now) == live_hits(
                    old(self).logs@[i as int].vals@,
                    now,
                ),
                forall|j: int|
                    0 <= j < old(self).logs@.len() && j != i ==> self.logs@[j]
                        == old(self).logs@[j],
            ensures
                self.logs@[i as int].vals@ == live_hits(old(self).logs@[i as int].vals@, now),
            decreases self.logs@[i as int].vals@.len(),
        {
            let ghost before = self.logs@[i as int].vals@;
            let log = &mut self.logs[i];
            if log.vals.len() == 0 {
                break ;
            }
            let t = log.vals[0];
            if now >= t && now - t >= RATE_WINDOW_MS {
                log.vals.remove(0);
                proof {
                    assert(hit_expired(before[0], now));
                    assert(self.logs@[i as int].vals@ =~= before.drop_first());
                }
            } else {
                proof {
                    assert(!hit_expired(before[0], now));
                }
                break ;
            }
        }
    }

    /// Admit or reject one request from `user` at instant `now`: prune that
    /// visitor's record to the trailing window, reject without recording
    /// anything when the budget is already used up, and otherwise record
    /// `now` and admit.
    pub fn hit_ok(&mut self, user: &str, now: u64) -> (admitted: bool)
        requires
            old(self).wf(),
        ensures
            final(self).wf(),
            final(self).budget() == old(self).budget(),
            final(self)@ == spec_hit(old(self)@, old(self).budget(), user@, now).0,
            admitted == spec_hit(old(self)@, old(self).budget(), user@, now).1,
    {
        let key: String = user.to_owned();
        let ghost logs0 = self.logs@;
        let i: usize = match find_visitor(&self.logs, &key) {
            Some(i) => {
                proof {
                    lemma_as_map_get(logs0, i as int);
                }
                i
            }
            None => {
                let vals: Vec<u64> = Vec::new();
                self.logs.push(VisitorLog { visitor: key, vals });
                proof {
                    let log1 = self.logs@.last();
                    lemma_as_map_push(logs0, log1);
                    lemma_as_map_dom(logs0, user@);
                    assert forall|x: int, y: int|
                        0 <= x < y < self.logs@.len() implies self.logs@[x].visitor@
                        != self.logs@[y].visitor@ by {
                        if y == self.logs@.len() - 1 {
                            assert(self.logs@[x] == logs0[x]);
                        } else {
                            assert(self.logs@[x] == logs0[x]);
                            assert(self.logs@[y] == logs0[y]);
                        }
                    }
                }
                self.logs.len() - 1
            }
        };
        let ghost logs1 = self.logs@;
        proof {
            assert(distinct_keys(logs1));
            assert(logs1[i as int].visitor@ == user@);
            lemma_as_map_get(logs1, i as int);
            assert(logs1[i as int].vals@ == vals_or_empty(old(self)@, user@));
        }
        self.prune_at(i, now);
        let ghost logs2 = self.logs@;
        let ghost live = live_hits(vals_or_empty(old(self)@, user@), now);
        proof {
            let log2 = logs2[i as int];
            assert(logs2 =~= logs1.update(i as int, log2));
            lemma_as_map_update(logs1, i as int, log2);
            assert(distinct_keys(logs2));
            assert(as_map(logs2) =~= old(self)@.insert(user@, live));
        }
        let log = &self.logs[i];
        if log.vals.len() >= self.per_minute {
            return false;
        }
        let log = &mut self.logs[i];
        log.vals.push(now);
        proof {
            let log3 = self.logs@[i as int];
            assert(self.logs@ =~= logs2.update(i as int, log3));
            lemma_as_map_update(logs2, i as int, log3);
            assert(distinct_keys(self.logs@));
            assert(final(self)@ =~= old(self)@.insert(user@, live.push(now)));
        }
        true
    }

    /// Housekeeping: prune every visitor's record to the trailing window.
    /// Keys are kept even when their record becomes empty.
    pub fn sweep(&mut self, now: u64)
        requires
            old(self).wf(),
        ensures
            final(self).wf(),
            final(self).budget() == old(self).budget(),
            forall|k: Seq<char>|
                final(self)@.contains_key(k) <==> old(self)@.contains_key(k),
            forall|k: Seq<char>|
                old(self)@.contains_key(k) ==> final(self)@[k] == live_hits(
                    #[trigger] old(self)@[k],
                    now,
                ),
    {
        let ghost logs0 = self.logs@;
        let n = self.logs.len();
        let mut i: usize = 0;
        while i < n
            invariant
                0 <= i <= n,
                n == self.logs@.len(),
                logs0.len() == n,
                distinct_keys(logs0),
                self.per_minute == old(self).per_minute,
                forall|j: int| 0 <= j < n ==> self.logs@[j].visitor@ == logs0[j].visitor@,
                forall|j: int|
                    0 <= j < i ==> self.logs@[j].vals@ == live_hits(logs0[j].vals@, now),
                forall|j: int| i <= j < n ==> self.logs@[j] == logs0[j],
            decreases n - i,
        {
            self.prune_at(i, now);
            i = i + 1;
        }
        proof {
            assert(distinct_keys(self.logs@));
            assert forall|k: Seq<char>|
                final(self)@.contains_key(k) <==> old(self)@.contains_key(k) by {
                lemma_as_map_dom(self.logs@, k);
                lemma_as_map_dom(logs0, k);
            }
            assert forall|k: Seq<char>| old(self)@.contains_key(k) implies final(self)@[k]
                == live_hits(old(self)@[k], now) by {
                lemma_as_map_dom(logs0, k);
                let j = choose|j: int| 0 <= j < logs0.len() && logs0[j].visitor@ == k;
                lemma_as_map_get(logs0, j);
                lemma_as_map_get(self.logs@, j);
            }
        }
    }
}

} // verus!
