use page_pool::ledger::Ledger;
use page_pool::page::Page;
use page_pool::pool::Pool;
use page_pool::rate_limit::RateLimiter;
use page_pool::rotation::{
    add_prewarmed, choose_unseen, handle_request, insert_generated, serve_from_pool,
    visitor_offset, ServeOutcome,
};

fn page(id: u128, body: &str, created_at: u64) -> Page {
    Page { id, html: body.to_string(), created_at, seen_count: 0 }
}

#[test]
fn no_repeat_until_pool_exhausted() {
    let mut pool = Pool::new();
    pool.push_page(page(1, "a", 0));
    pool.push_page(page(2, "b", 0));
    pool.push_page(page(3, "c", 0));
    let mut ledger = Ledger::new();
    let mut served: Vec<String> = Vec::new();
    for k in 0..3u64 {
        let body = serve_from_pool(&mut pool, &mut ledger, "visitor", k).unwrap();
        assert!(!served.contains(&body), "page repeated before pool exhausted");
        served.push(body);
    }
    served.sort();
    assert_eq!(served, vec!["a".to_string(), "b".to_string(), "c".to_string()]);
    // Everything in the pool has been returned once: generation is needed.
    assert_eq!(serve_from_pool(&mut pool, &mut ledger, "visitor", 3), None);
}

#[test]
fn serve_marks_seen_and_increments() {
    let mut pool = Pool::new();
    pool.push_page(page(9, "only", 0));
    let mut ledger = Ledger::new();
    let body = serve_from_pool(&mut pool, &mut ledger, "v", 5).unwrap();
    assert_eq!(body, "only");
    let snap = pool.pages_snapshot();
    assert_eq!(snap[0].seen_count, 1);
    assert_eq!(ledger.seen_ids("v", 5), vec![9]);
}

#[test]
fn empty_pool_needs_generation() {
    let mut pool = Pool::new();
    let mut ledger = Ledger::new();
    assert_eq!(serve_from_pool(&mut pool, &mut ledger, "v", 0), None);
}

#[test]
fn scenario_budget_two() {
    // Budget 2, pages A and B in the pool, one visitor.
    let mut limiter = RateLimiter::new(2);
    let mut pool = Pool::new();
    pool.push_page(page(1, "A", 0));
    pool.push_page(page(2, "B", 0));
    let mut ledger = Ledger::new();

    // Request 1 returns whichever the hashed offset selects.
    let r1 = handle_request(&mut limiter, &mut pool, &mut ledger, "V", 0);
    let first = match r1 {
        ServeOutcome::Served(body) => body,
        other => panic!("expected a served page, got {:?}", other),
    };
    // Request 2 returns the other page.
    let r2 = handle_request(&mut limiter, &mut pool, &mut ledger, "V", 1_000);
    let second = match r2 {
        ServeOutcome::Served(body) => body,
        other => panic!("expected a served page, got {:?}", other),
    };
    assert_ne!(first, second);
    let mut both = vec![first, second];
    both.sort();
    assert_eq!(both, vec!["A".to_string(), "B".to_string()]);
    // Request 3, still within the minute: rate limited.
    let r3 = handle_request(&mut limiter, &mut pool, &mut ledger, "V", 2_000);
    assert_eq!(r3, ServeOutcome::RateLimited);
}

#[test]
fn scenario_unlimited_budget_generates() {
    // Same scenario with a budget that never bites: the third request has
    // seen both pages and asks for generation; the generated page is filed
    // with one serve already counted.
    let mut limiter = RateLimiter::new(100);
    let mut pool = Pool::new();
    pool.push_page(page(1, "A", 0));
    pool.push_page(page(2, "B", 0));
    let mut ledger = Ledger::new();
    for k in 0..2u64 {
        match handle_request(&mut limiter, &mut pool, &mut ledger, "V", k) {
            ServeOutcome::Served(_) => {}
            other => panic!("expected a served page, got {:?}", other),
        }
    }
    let r3 = handle_request(&mut limiter, &mut pool, &mut ledger, "V", 2);
    assert_eq!(r3, ServeOutcome::NeedsGeneration);
    let id = insert_generated(&mut pool, &mut ledger, "V", "fresh".to_string(), 2);
    let snap = pool.pages_snapshot();
    assert_eq!(snap.len(), 3);
    let new_page = snap.iter().find(|p| p.id == id).unwrap();
    assert_eq!(new_page.html, "fresh");
    assert_eq!(new_page.seen_count, 1);
    assert_eq!(new_page.created_at, 2);
    // The visitor is on record for it, so it is not served to them again.
    assert!(ledger.seen_ids("V", 2).contains(&id));
    let r4 = handle_request(&mut limiter, &mut pool, &mut ledger, "V", 3);
    assert_eq!(r4, ServeOutcome::NeedsGeneration);
}

#[test]
fn generation_failure_leaves_no_trace() {
    // When generation fails the caller files nothing: pool and ledger are
    // exactly as the rotation round left them.
    let mut limiter = RateLimiter::new(100);
    let mut pool = Pool::new();
    let mut ledger = Ledger::new();
    let r = handle_request(&mut limiter, &mut pool, &mut ledger, "V", 0);
    assert_eq!(r, ServeOutcome::NeedsGeneration);
    assert_eq!(pool.len(), 0);
    assert_eq!(ledger.seen_ids("V", 0), Vec::<u128>::new());
}

#[test]
fn prewarmed_pages_start_unserved() {
    let mut pool = Pool::new();
    let id = add_prewarmed(&mut pool, "warm".to_string(), 7);
    let snap = pool.pages_snapshot();
    assert_eq!(snap.len(), 1);
    assert_eq!(snap[0].id, id);
    assert_eq!(snap[0].html, "warm");
    assert_eq!(snap[0].seen_count, 0);
    assert_eq!(snap[0].created_at, 7);
}

#[test]
fn visitor_offset_is_deterministic_and_in_range() {
    let a = visitor_offset("some-visitor", 7);
    let b = visitor_offset("some-visitor", 7);
    assert_eq!(a, b);
    assert!(a < 7);
    for len in 1..20usize {
        assert!(visitor_offset("x", len) < len);
    }
}

#[test]
fn choose_unseen_skips_seen_pages() {
    let snapshot = vec![page(1, "a", 0), page(2, "b", 0), page(3, "c", 0)];
    for offset in 0..3usize {
        let seen = vec![1u128, 3u128];
        let got = choose_unseen(&snapshot, &seen, offset).unwrap();
        assert_eq!(snapshot[got].id, 2);
        let all = vec![1u128, 2, 3];
        assert_eq!(choose_unseen(&snapshot, &all, offset), None);
    }
}

#[test]
fn ledger_forgets_after_double_ttl() {
    let mut ledger = Ledger::new();
    ledger.mark_seen("v", 11, 0);
    // Exactly at the doubled TTL the record is still kept (strict bound)...
    assert_eq!(ledger.seen_ids("v", 120_000), vec![11]);
    // ...one millisecond past it, it is forgotten.
    assert_eq!(ledger.seen_ids("v", 120_001), Vec::<u128>::new());
}

#[test]
fn forgotten_pages_can_be_served_again() {
    let mut pool = Pool::new();
    pool.push_page(page(1, "a", 0));
    let mut ledger = Ledger::new();
    assert!(serve_from_pool(&mut pool, &mut ledger, "v", 0).is_some());
    assert_eq!(serve_from_pool(&mut pool, &mut ledger, "v", 1), None);
    // Once the ledger record has aged out, the same page rotates back in.
    assert_eq!(serve_from_pool(&mut pool, &mut ledger, "v", 120_001), Some("a".to_string()));
}
