use page_pool::rate_limit::RateLimiter;

#[test]
fn budget_boundary() {
    let mut rl = RateLimiter::new(3);
    // Exactly `budget` requests inside one window are all admitted.
    assert!(rl.hit_ok("v", 0));
    assert!(rl.hit_ok("v", 1_000));
    assert!(rl.hit_ok("v", 2_000));
    // The budget+1-th inside the same window is rejected.
    assert!(!rl.hit_ok("v", 3_000));
    // Once the first request has left the window, one slot is free again.
    assert!(rl.hit_ok("v", 60_000));
}

#[test]
fn window_boundary_is_exclusive() {
    let mut rl = RateLimiter::new(1);
    assert!(rl.hit_ok("v", 0));
    // 59.999s after the first request it still counts.
    assert!(!rl.hit_ok("v", 59_999));
    // A request instant exactly 60s old has expired.
    assert!(rl.hit_ok("v", 60_000));
}

#[test]
fn rejected_requests_consume_no_budget() {
    let mut rl = RateLimiter::new(1);
    assert!(rl.hit_ok("v", 0));
    // Two rejected attempts; neither may be recorded.
    assert!(!rl.hit_ok("v", 10_000));
    assert!(!rl.hit_ok("v", 30_000));
    // Had the rejections been recorded, this would still be over budget.
    assert!(rl.hit_ok("v", 60_000));
}

#[test]
fn budgets_are_per_visitor() {
    let mut rl = RateLimiter::new(1);
    assert!(rl.hit_ok("a", 0));
    assert!(rl.hit_ok("b", 0));
    assert!(!rl.hit_ok("a", 1));
    assert!(!rl.hit_ok("b", 1));
}

#[test]
fn sweep_keeps_live_hits() {
    let mut rl = RateLimiter::new(2);
    assert!(rl.hit_ok("v", 0));
    assert!(rl.hit_ok("v", 30_000));
    rl.sweep(60_000);
    // The first instant expired at the sweep; only the second remains, so
    // one more request fits.
    assert!(rl.hit_ok("v", 60_001));
    assert!(!rl.hit_ok("v", 60_002));
}
