use page_pool::config::{default_limit, default_port, Config};
use page_pool::error::AppError;
use page_pool::housekeeping::housekeeping_tick;
use page_pool::ledger::Ledger;
use page_pool::page::Page;
use page_pool::pool::Pool;
use page_pool::rate_limit::RateLimiter;
use page_pool::utils::rate_limited_page;

#[test]
fn rate_limited_page_exact() {
    let got = rate_limited_page("bob");
    assert_eq!(
        got,
        "<!doctype html><html><head><meta charset=\"utf-8\"><title>Too many</title></head>\n<body><h1>Slow down</h1><p>User bob hit the per-minute limit. Please retry shortly.</p></body></html>"
    );
}

#[test]
fn config_defaults_apply() {
    assert_eq!(default_limit(), 10);
    assert_eq!(default_port(), 8080);
    let c = Config::from_parts("key".to_string(), None, None);
    assert_eq!(c.groq_api_key, "key");
    assert_eq!(c.rate_limit_per_minute, 10);
    assert_eq!(c.port, 8080);
}

#[test]
fn config_explicit_values_win() {
    let c = Config::from_parts("key".to_string(), Some(3), Some(9000));
    assert_eq!(c.rate_limit_per_minute, 3);
    assert_eq!(c.port, 9000);
}

#[test]
fn error_maps_generation_to_bad_gateway() {
    let e = AppError::Generation("all models failed".to_string());
    let (status, msg) = e.status_and_message();
    assert_eq!(status, 502);
    assert_eq!(msg, "all models failed");
}

#[test]
fn error_maps_internal_to_server_error() {
    let e = AppError::Internal("boom".to_string());
    let (status, msg) = e.status_and_message();
    assert_eq!(status, 500);
    assert_eq!(msg, "internal error");
}

#[test]
fn housekeeping_tick_reconciles_everything() {
    let mut pool = Pool::new();
    pool.push_page(Page { id: 1, html: "old".to_string(), created_at: 0, seen_count: 0 });
    pool.update_seen_count(1);
    pool.push_page(Page { id: 2, html: "new".to_string(), created_at: 65_000, seen_count: 0 });
    let mut ledger = Ledger::new();
    ledger.mark_seen("v", 1, 0);
    ledger.mark_seen("v", 2, 65_000);
    let mut limiter = RateLimiter::new(5);
    assert!(limiter.hit_ok("v", 0));
    assert!(limiter.hit_ok("v", 65_000));

    housekeeping_tick(&mut pool, &mut ledger, &mut limiter, 130_000);

    // The served page aged out; the unserved one survives any age.
    let snap = pool.pages_snapshot();
    assert_eq!(snap.len(), 1);
    assert_eq!(snap[0].id, 2);
    // The ledger forgot the record past the doubled TTL, kept the other.
    assert_eq!(ledger.seen_ids("v", 130_000), vec![2]);
    // The limiter swept both instants (each a full window old at 130s), so
    // the whole budget is free again.
    for k in 0..5u64 {
        assert!(limiter.hit_ok("v", 130_000 + k));
    }
    assert!(!limiter.hit_ok("v", 130_010));
}
