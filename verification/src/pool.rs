//! The bounded, insertion-ordered pool of pages.
//!
//! Appends go to the tail. Whenever the pool exceeds `MAX_BUCKET_PAGES`,
//! trimming removes the first page never served to anyone, and only when
//! every page has been served does it fall back to the oldest page.
//! Age-based eviction (run by housekeeping) pops served pages older than
//! `PAGE_TTL_MS` from the head, and stops at the first page that is either
//! young or still unserved.

use vstd::prelude::*;

use crate::page::{Page, evictable, MAX_BUCKET_PAGES, PAGE_TTL_MS};

verus! {

/// Whether some page in `s` has never been served.
pub open spec fn has_unseen(s: Seq<Page>) -> bool {
    exists|i: int| 0 <= i < s.len() && s[i].seen_count == 0
}

/// Index of the first page in `s` with `seen_count == 0`.
pub open spec fn first_unseen_idx(s: Seq<Page>) -> int
    decreases s.len(),
{
    if s.len() == 0 {
        0
    } else if s[0].seen_count == 0 {
        0
    } else {
        1 + first_unseen_idx(s.drop_first())
    }
}

/// One round of trimming: drop the first unserved page, or the oldest page
/// when every page has been served.
pub open spec fn trim_step(s: Seq<Page>) -> Seq<Page> {
    if has_unseen(s) {
        s.remove(first_unseen_idx(s))
    } else {
        s.drop_first()
    }
}

/// Repeated trimming until the pool fits its capacity again.
pub open spec fn spec_trim(s: Seq<Page>) -> Seq<Page>
    decreases s.len() via spec_trim_decreases
{
    if s.len() <= MAX_BUCKET_PAGES {
        s
    } else {
        spec_trim(trim_step(s))
    }
}

#[via_fn]
proof fn spec_trim_decreases(s: Seq<Page>) {
    if s.len() > MAX_BUCKET_PAGES {
        if has_unseen(s) {
            lemma_first_unseen(s);
        }
    }
}

/// Age-based eviction: drop served pages older than the TTL from the head,
/// stopping at the first page that fails either condition.
pub open spec fn spec_evict(s: Seq<Page>, now: u64) -> Seq<Page>
    decreases s.len(),
{
    if s.len() > 0 && evictable(s[0], now) {
        spec_evict(s.drop_first(), now)
    } else {
        s
    }
}

/// Whether `s` holds a page with identifier `id`.
pub open spec fn has_page(s: Seq<Page>, id: u128) -> bool {
    exists|i: int| 0 <= i < s.len() && s[i].id == id
}

/// Index of the first page in `s` with identifier `id`.
pub open spec fn first_idx_of(s: Seq<Page>, id: u128) -> int
    decreases s.len(),
{
    if s.len() == 0 {
        0
    } else if s[0].id == id {
        0
    } else {
        1 + first_idx_of(s.drop_first(), id)
    }
}

/// A serve counter one higher, capped at the machine limit.
pub open spec fn bump(c: usize) -> usize {
    if c < usize::MAX {
        (c + 1) as usize
    } else {
        c
    }
}

/// The page `p` with its serve counter bumped.
pub open spec fn bump_page(p: Page) -> Page {
    Page { seen_count: bump(p.seen_count), ..p }
}

/// The pool after crediting one serve to the page with identifier `id`:
/// the first matching page gets its counter bumped; an absent id changes
/// nothing.
pub open spec fn spec_increment(s: Seq<Page>, id: u128) -> Seq<Page> {
    if has_page(s, id) {
        s.update(first_idx_of(s, id), bump_page(s[first_idx_of(s, id)]))
    } else {
        s
    }
}

/// The first unserved page's index is in range, lands on an unserved page,
/// and everything before it has been served.
pub proof fn lemma_first_unseen(s: Seq<Page>)
    requires
        has_unseen(s),
    ensures
        0 <= first_unseen_idx(s) < s.len(),
        s[first_unseen_idx(s)].seen_count == 0,
        forall|j: int| 0 <= j < first_unseen_idx(s) ==> s[j].seen_count != 0,
    decreases s.len(),
{
    if s[0].seen_count == 0 {
    } else {
        let t = s.drop_first();
        assert(has_unseen(t)) by {
            let i = choose|i: int| 0 <= i < s.len() && s[i].seen_count == 0;
            assert(t[i - 1] == s[i]);
        }
        lemma_first_unseen(t);
        assert forall|j: int| 0 <= j < first_unseen_idx(s) implies s[j].seen_count != 0 by {
            if j > 0 {
                assert(s[j] == t[j - 1]);
            }
        }
    }
}

/// A scan that found `seen_count == 0` at `i` behind a fully-served prefix
/// has found the first unserved page.
pub proof fn lemma_first_unseen_char(s: Seq<Page>, i: int)
    requires
        0 <= i < s.len(),
        s[i].seen_count == 0,
        forall|j: int| 0 <= j < i ==> s[j].seen_count != 0,
    ensures
        has_unseen(s),
        first_unseen_idx(s) == i,
    decreases s.len(),
{
    if i == 0 {
    } else {
        let t = s.drop_first();
        assert(t[i - 1] == s[i]);
        assert forall|j: int| 0 <= j < i - 1 implies t[j].seen_count != 0 by {
            assert(t[j] == s[j + 1]);
        }
        lemma_first_unseen_char(t, i - 1);
    }
}

/// Same characterization for the first page carrying a given identifier.
pub proof fn lemma_first_idx_of_char(s: Seq<Page>, id: u128, i: int)
    requires
        0 <= i < s.len(),
        s[i].id == id,
        forall|j: int| 0 <= j < i ==> s[j].id != id,
    ensures
        has_page(s, id),
        first_idx_of(s, id) == i,
    decreases s.len(),
{
    if i == 0 {
    } else {
        let t = s.drop_first();
        assert(t[i - 1] == s[i]);
        assert forall|j: int| 0 <= j < i - 1 implies t[j].id != id by {
            assert(t[j] == s[j + 1]);
        }
        lemma_first_idx_of_char(t, id, i - 1);
    }
}

/// Trimming always lands at or under the capacity bound.
pub proof fn lemma_trim_bounded(s: Seq<Page>)
    ensures
        spec_trim(s).len() <= MAX_BUCKET_PAGES,
    decreases s.len(),
{
    if s.len() > MAX_BUCKET_PAGES {
        if has_unseen(s) {
            lemma_first_unseen(s);
        }
        lemma_trim_bounded(trim_step(s));
    }
}

/// Trimming a pool that is one over capacity removes the first unserved
/// page when one exists, and keeps every page that has been served.
pub proof fn lemma_trim_prefers_unseen(s: Seq<Page>)
    requires
        s.len() == MAX_BUCKET_PAGES + 1,
        has_unseen(s),
    ensures
        spec_trim(s) == s.remove(first_unseen_idx(s)),
        s[first_unseen_idx(s)].seen_count == 0,
        forall|j: int|
            0 <= j < s.len() && s[j].seen_count > 0 ==> spec_trim(s).contains(s[j]),
{
    lemma_first_unseen(s);
    let k = first_unseen_idx(s);
    let r = s.remove(k);
    assert(spec_trim(s) == spec_trim(r));
    assert(spec_trim(r) == r);
    assert forall|j: int| 0 <= j < s.len() && s[j].seen_count > 0 implies r.contains(s[j]) by {
        if j < k {
            assert(r[j] == s[j]);
        } else {
            assert(j != k);
            assert(r[j - 1] == s[j]);
        }
    }
}

/// Age-based eviction removes only served pages: a page never served stays,
/// no matter how old it is.
pub proof fn lemma_evict_keeps_unseen(s: Seq<Page>, now: u64, i: int)
    requires
        0 <= i < s.len(),
        s[i].seen_count == 0,
    ensures
        spec_evict(s, now).contains(s[i]),
    decreases s.len(),
{
    if s.len() > 0 && evictable(s[0], now) {
        let t = s.drop_first();
        assert(t[i - 1] == s[i]);
        lemma_evict_keeps_unseen(t, now, i - 1);
    } else {
        assert(spec_evict(s, now)[i] == s[i]);
    }
}

/// A served page older than the TTL is evicted by the next housekeeping
/// pass, provided every page ahead of it is also old and served; the pass
/// then reaches past its position.
pub proof fn lemma_evict_removes_aged(s: Seq<Page>, now: u64, i: int)
    requires
        0 <= i < s.len(),
        forall|j: int| 0 <= j <= i ==> evictable(s[j], now),
    ensures
        spec_evict(s, now) == spec_evict(s.subrange(i + 1, s.len() as int), now),
        spec_evict(s, now).len() <= s.len() - i - 1,
    decreases s.len(),
{
    let t = s.drop_first();
    assert(evictable(s[0], now));
    if i == 0 {
        assert(t =~= s.subrange(1, s.len() as int));
        lemma_evict_len(t, now);
    } else {
        assert forall|j: int| 0 <= j <= i - 1 implies evictable(t[j], now) by {
            assert(t[j] == s[j + 1]);
        }
        lemma_evict_removes_aged(t, now, i - 1);
        assert(t.subrange(i, t.len() as int) =~= s.subrange(i + 1, s.len() as int));
    }
}

/// Eviction never lengthens the pool.
pub proof fn lemma_evict_len(s: Seq<Page>, now: u64)
    ensures
        spec_evict(s, now).len() <= s.len(),
    decreases s.len(),
{
    if s.len() > 0 && evictable(s[0], now) {
        lemma_evict_len(s.drop_first(), now);
    }
}

/// The bounded pool itself. The ordering of `pages` is arrival order:
/// index 0 is the oldest page.
pub struct Pool {
    pages: Vec<Page>,
}

impl View for Pool {
    type V = Seq<Page>;

    closed spec fn view(&self) -> Seq<Page> {
        self.pages@
    }
}

/// An exact copy of a page.
fn copy_page(p: &Page) -> (r: Page)
    ensures
        r == *p,
{
    Page { id: p.id, html: p.html.clone(), created_at: p.created_at, seen_count: p.seen_count }
}

/// Index of the first page never served, if any.
fn find_first_unseen(pages: &Vec<Page>) -> (r: Option<usize>)
    ensures
        match r {
            Some(i) => has_unseen(pages@) && i == first_unseen_idx(pages@),
            None => !has_unseen(pages@),
        },
{
    let n = pages.len();
    let mut i: usize = 0;
    while i < n
        invariant
            0 <= i <= n,
            n == pages@.len(),
            forall|j: int| 0 <= j < i ==> pages@[j].seen_count != 0,
        decreases n - i,
    {
        if pages[i].seen_count == 0 {
            proof {
                lemma_first_unseen_char(pages@, i as int);
            }
            return Some(i);
        }
        i = i + 1;
    }
    None
}

impl Pool {
    /// Whether the pool respects its capacity bound.
    pub open spec fn inv(&self) -> bool {
        self@.len() <= MAX_BUCKET_PAGES
    }

    /// An empty pool.
    pub fn new() -> (r: Pool)
        ensures
            r@ == Seq::<Page>::empty(),
            r.inv(),
    {
        Pool { pages: Vec::new() }
    }

    /// How many pages the pool holds.
    pub fn len(&self) -> (r: usize)
        ensures
            r == self@.len(),
    {
        self.pages.len()
    }

    /// Remove pages until the pool fits its bound again, preferring pages
    /// never served to anyone.
    fn trim(&mut self)
        ensures
            final(self)@ == spec_trim(old(self)@),
            final(self).inv(),
    {
        proof {
            lemma_trim_bounded(old(self)@);
        }
        while self.pages.len() > MAX_BUCKET_PAGES
            invariant
                spec_trim(self.pages@) == spec_trim(old(self)@),
            decreases self.pages@.len(),
        {
            let ghost before = self.pages@;
            match find_first_unseen(&self.pages) {
                Some(pos) => {
                    proof {
                        lemma_first_unseen(before);
                    }
                    self.pages.remove(pos);
                }
                None => {
                    self.pages.remove(0);
                    proof {
                        assert(self.pages@ =~= before.drop_first());
                    }
                }
            }
            proof {
                assert(self.pages@ == trim_step(before));
            }
        }
    }

    /// Append a page at the tail, then trim back to the capacity bound.
    pub fn push_page(&mut self, page: Page)
        ensures
            final(self)@ == spec_trim(old(self)@.push(page)),
            final(self).inv(),
    {
        self.pages.push(page);
        self.trim();
    }

    /// Credit one serve to the page with identifier `id`; an absent id is a
    /// benign no-op (the page may have been evicted meanwhile).
    pub fn update_seen_count(&mut self, id: u128)
        ensures
            final(self)@ == spec_increment(old(self)@, id),
            final(self)@.len() == old(self)@.len(),
    {
        let n = self.pages.len();
        let mut i: usize = 0;
        while i < n
            invariant
                0 <= i <= n,
                n == self.pages@.len(),
                self.pages@ == old(self)@,
                forall|j: int| 0 <= j < i ==> self.pages@[j].id != id,
            decreases n - i,
        {
            if self.pages[i].id == id {
                proof {
                    lemma_first_idx_of_char(self.pages@, id, i as int);
                }
                let c = self.pages[i].seen_count;
                let bumped = if c < usize::MAX {
                    c + 1
                } else {
                    c
                };
                let slot = &mut self.pages[i];
                slot.seen_count = bumped;
                proof {
                    assert(final(self)@ == spec_increment(old(self)@, id));
                }
                return ;
            }
            i = i + 1;
        }
        proof {
            assert(!has_page(self.pages@, id));
        }
    }

    /// A point-in-time copy of every page, in pool order.
    pub fn pages_snapshot(&self) -> (r: Vec<Page>)
        ensures
            r@ == self@,
    {
        let n = self.pages.len();
        let mut out: Vec<Page> = Vec::new();
        let mut i: usize = 0;
        while i < n
            invariant
                0 <= i <= n,
                n == self.pages@.len(),
                out@ == self.pages@.subrange(0, i as int),
            decreases n - i,
        {
            out.push(copy_page(&self.pages[i]));
            proof {
                assert(out@ =~= self.pages@.subrange(0, i + 1 as int));
            }
            i = i + 1;
        }
        proof {
            assert(out@ =~= self.pages@);
        }
        out
    }

    /// Housekeeping for the pool: pop served pages older than the TTL from
    /// the head, stopping at the first young or unserved page, then trim.
    pub fn evict_aged(&mut self, now: u64)
        ensures
            final(self)@ == spec_trim(spec_evict(old(self)@, now)),
            final(self).inv(),
    {
        loop
            invariant
                spec_evict(self.pages@, now) == spec_evict(old(self)@, now),
            ensures
                self.pages@ == spec_evict(old(self)@, now),
            decreases self.pages@.len(),
        {
            if self.pages.len() == 0 {
                break ;
            }
            let front = &self.pages[0];
            let evict = now > front.created_at && now - front.created_at > PAGE_TTL_MS
                && front.seen_count > 0;
            if !evict {
                proof {
                    assert(!evictable(self.pages@[0], now));
                }
                break ;
            }
            let ghost before = self.pages@;
            self.pages.remove(0);
            proof {
                assert(evictable(before[0], now));
                assert(self.pages@ =~= before.drop_first());
            }
        }
        self.trim();
    }
}

} // verus!
