//! Per-visitor records, shared shape of the ledger and the rate limiter.
//!
//! Both keep, for each visitor identity, a time-ordered sequence of values.
//! The executable representation is a vector of per-visitor logs with
//! pairwise distinct keys; the mathematical model is the finite map from
//! visitor identity to the recorded sequence.

use vstd::prelude::*;

verus! {

/// The values recorded for one visitor.
pub struct VisitorLog<V> {
    /// The visitor's opaque identity token.
    pub visitor: String,
    /// What has been recorded for that visitor, oldest first.
    pub vals: Vec<V>,
}

/// No two logs share a visitor identity.
pub open spec fn distinct_keys<V>(logs: Seq<VisitorLog<V>>) -> bool {
    forall|i: int, j: int|
        0 <= i < j < logs.len() ==> logs[i].visitor@ != logs[j].visitor@
}

/// The map from visitor identity to recorded sequence that `logs` stands for.
pub open spec fn as_map<V>(logs: Seq<VisitorLog<V>>) -> Map<Seq<char>, Seq<V>>
    decreases logs.len(),
{
    if logs.len() == 0 {
        Map::empty()
    } else {
        as_map(logs.drop_last()).insert(logs.last().visitor@, logs.last().vals@)
    }
}

/// What the map records under `k`, or the empty sequence for an unknown key.
pub open spec fn vals_or_empty<V>(m: Map<Seq<char>, Seq<V>>, k: Seq<char>) -> Seq<V> {
    if m.contains_key(k) {
        m[k]
    } else {
        Seq::empty()
    }
}

/// The map's domain is exactly the set of keys occurring in the list.
pub proof fn lemma_as_map_dom<V>(logs: Seq<VisitorLog<V>>, k: Seq<char>)
    ensures
        as_map(logs).contains_key(k) <==> exists|i: int|
            0 <= i < logs.len() && logs[i].visitor@ == k,
    decreases logs.len(),
{
    if logs.len() > 0 {
        lemma_as_map_dom(logs.drop_last(), k);
        if logs.last().visitor@ == k {
            assert(logs[logs.len() - 1].visitor@ == k);
        } else if as_map(logs).contains_key(k) {
            let i = choose|i: int| 0 <= i < logs.drop_last().len()
                && logs.drop_last()[i].visitor@ == k;
            assert(logs[i].visitor@ == k);
        } else {
            if exists|i: int| 0 <= i < logs.len() && logs[i].visitor@ == k {
                let i = choose|i: int| 0 <= i < logs.len() && logs[i].visitor@ == k;
                assert(i < logs.len() - 1);
                assert(logs.drop_last()[i].visitor@ == k);
            }
        }
    }
}

/// With distinct keys, the map sends each log's key to that log's values.
pub proof fn lemma_as_map_get<V>(logs: Seq<VisitorLog<V>>, i: int)
    requires
        distinct_keys(logs),
        0 <= i < logs.len(),
    ensures
        as_map(logs).contains_key(logs[i].visitor@),
        as_map(logs)[logs[i].visitor@] == logs[i].vals@,
    decreases logs.len(),
{
    if i == logs.len() - 1 {
    } else {
        assert(logs.drop_last()[i] == logs[i]);
        lemma_as_map_get(logs.drop_last(), i);
        assert(logs[i].visitor@ != logs.last().visitor@);
    }
}

/// Appending a log for a fresh key inserts that key into the map.
pub proof fn lemma_as_map_push<V>(logs: Seq<VisitorLog<V>>, log: VisitorLog<V>)
    ensures
        as_map(logs.push(log)) == as_map(logs).insert(log.visitor@, log.vals@),
{
    let p = logs.push(log);
    assert(p.drop_last() =~= logs);
    assert(p.last() == log);
}

/// Replacing the log at `i` by one with the same key updates the map at
/// that key and nothing else.
pub proof fn lemma_as_map_update<V>(logs: Seq<VisitorLog<V>>, i: int, log: VisitorLog<V>)
    requires
        distinct_keys(logs),
        0 <= i < logs.len(),
        log.visitor@ == logs[i].visitor@,
    ensures
        as_map(logs.update(i, log)) == as_map(logs).insert(log.visitor@, log.vals@),
    decreases logs.len(),
{
    let u = logs.update(i, log);
    if i == logs.len() - 1 {
        assert(u.drop_last() =~= logs.drop_last());
        assert(u.last() == log);
        assert(as_map(logs.drop_last()).insert(logs.last().visitor@, logs.last().vals@)
            .insert(log.visitor@, log.vals@)
            =~= as_map(logs.drop_last()).insert(log.visitor@, log.vals@));
    } else {
        assert(u.drop_last() =~= logs.drop_last().update(i, log));
        assert(u.last() == logs.last());
        assert(logs.drop_last()[i] == logs[i]);
        lemma_as_map_update(logs.drop_last(), i, log);
        assert(log.visitor@ != logs.last().visitor@);
        assert(as_map(logs.drop_last()).insert(log.visitor@, log.vals@)
            .insert(logs.last().visitor@, logs.last().vals@)
            =~= as_map(logs.drop_last()).insert(logs.last().visitor@, logs.last().vals@)
            .insert(log.visitor@, log.vals@));
    }
}

/// Index of the log recorded for `who`, if any.
pub fn find_visitor<V>(logs: &Vec<VisitorLog<V>>, who: &String) -> (r: Option<usize>)
    ensures
        match r {
            Some(i) => 0 <= i < logs@.len() && logs@[i as int].visitor@ == who@,
            None => forall|i: int| 0 <= i < logs@.len() ==> logs@[i].visitor@ != who@,
        },
{
    let n = logs.len();
    let mut i: usize = 0;
    while i < n
        invariant
            0 <= i <= n,
            n == logs@.len(),
            forall|j: int| 0 <= j < i ==> logs@[j].visitor@ != who@,
        decreases n - i,
    {
        if logs[i].visitor == *who {
            return Some(i);
        }
        i = i + 1;
    }
    None
}

} // verus!
