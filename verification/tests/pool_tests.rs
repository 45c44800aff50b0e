use page_pool::page::Page;
use page_pool::pool::Pool;

fn page(id: u128, body: &str, created_at: u64) -> Page {
    Page { id, html: body.to_string(), created_at, seen_count: 0 }
}

fn ids(pool: &Pool) -> Vec<u128> {
    pool.pages_snapshot().iter().map(|p| p.id).collect()
}

#[test]
fn pool_bound_after_many_appends() {
    let mut pool = Pool::new();
    for i in 0..250u128 {
        pool.push_page(page(i, "body", i as u64));
        assert!(pool.len() <= 200);
    }
    assert_eq!(pool.len(), 200);
}

#[test]
fn trim_prefers_unseen() {
    let mut pool = Pool::new();
    for i in 0..200u128 {
        pool.push_page(page(i, "body", i as u64));
    }
    for i in 0..5u128 {
        pool.update_seen_count(i);
    }
    pool.push_page(page(999, "fresh", 200));
    let got = ids(&pool);
    assert_eq!(pool.len(), 200);
    // The first page never served (id 5) went; every served page stayed.
    for i in 0..5u128 {
        assert!(got.contains(&i));
    }
    assert!(!got.contains(&5));
    assert!(got.contains(&999));
}

#[test]
fn trim_falls_back_to_oldest() {
    let mut pool = Pool::new();
    for i in 0..200u128 {
        pool.push_page(page(i, "body", i as u64));
        pool.update_seen_count(i);
    }
    // A page filed straight from generation counts its consumer's serve.
    pool.push_page(Page { id: 999, html: "fresh".to_string(), created_at: 200, seen_count: 1 });
    let got = ids(&pool);
    assert_eq!(pool.len(), 200);
    assert!(!got.contains(&0));
    assert!(got.contains(&1));
    assert!(got.contains(&999));
}

#[test]
fn age_eviction_gate() {
    let mut pool = Pool::new();
    pool.push_page(page(1, "a", 0));
    pool.push_page(page(2, "b", 0));
    pool.push_page(page(3, "c", 0));
    pool.update_seen_count(1);
    pool.update_seen_count(3);
    // All three are well past the TTL, but page 2 was never served: it is
    // kept and stops the scan, so page 3 behind it is kept too.
    pool.evict_aged(70_000);
    assert_eq!(ids(&pool), vec![2, 3]);
}

#[test]
fn age_eviction_spares_young_pages() {
    let mut pool = Pool::new();
    pool.push_page(page(1, "a", 20_000));
    pool.update_seen_count(1);
    // Served, but only 50s old at eviction time: within the TTL.
    pool.evict_aged(70_000);
    assert_eq!(ids(&pool), vec![1]);
    // One millisecond past the TTL boundary it is still kept (the bound is
    // strict), and only strictly beyond it goes.
    pool.evict_aged(80_000);
    assert_eq!(ids(&pool), vec![1]);
    pool.evict_aged(80_001);
    assert_eq!(ids(&pool), Vec::<u128>::new());
}

#[test]
fn update_absent_id_is_noop() {
    let mut pool = Pool::new();
    pool.push_page(page(1, "a", 0));
    pool.update_seen_count(42);
    let snap = pool.pages_snapshot();
    assert_eq!(snap.len(), 1);
    assert_eq!(snap[0].seen_count, 0);
}

#[test]
fn update_increments_first_match() {
    let mut pool = Pool::new();
    pool.push_page(page(7, "a", 0));
    pool.push_page(page(8, "b", 0));
    pool.update_seen_count(8);
    pool.update_seen_count(8);
    let snap = pool.pages_snapshot();
    assert_eq!(snap[0].seen_count, 0);
    assert_eq!(snap[1].seen_count, 2);
}
