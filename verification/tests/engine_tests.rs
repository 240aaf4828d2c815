use xivprofit::engine::{compute_answer, Engine, Query, QueryStep, RESULTS_TTL_SECS};
use xivprofit::listing::Listing;

fn listing(world_id: u64, quantity: u64, total_price: u64, hq: bool) -> Listing {
    Listing {
        item_id: 42,
        world_id,
        price_per_unit_raw: 0,
        quantity,
        total_price,
        hq,
        retainer_name: String::new(),
    }
}

fn query(want_hq: bool) -> Query {
    Query { item_id: 42, location: 1, amount: 8, want_hq }
}

#[test]
fn concurrent_identical_queries_coalesce() {
    let mut engine = Engine::new(300);
    let q = query(false);
    // the first caller is told to run the computation
    assert!(matches!(engine.begin_query(&q, 0), QueryStep::Start));
    // every identical caller arriving meanwhile joins it
    assert!(matches!(engine.begin_query(&q, 0), QueryStep::Join));
    assert!(matches!(engine.begin_query(&q, 5), QueryStep::Join));
    // a different query is unaffected
    let other = Query { amount: 9, ..q };
    assert!(matches!(engine.begin_query(&other, 0), QueryStep::Start));
}

#[test]
fn cache_hit_avoids_recomputation() {
    let mut engine = Engine::new(300);
    let q = query(false);
    assert!(matches!(engine.begin_query(&q, 0), QueryStep::Start));
    let listings = vec![
        listing(1, 5, 50, false),
        listing(2, 3, 40, false),
        listing(3, 10, 200, false),
    ];
    let answer = engine.finish_job(&q, &listings, 0);
    assert_eq!(answer.len(), 2);
    // a repeat query within the time-to-live is served from the cache
    match engine.begin_query(&q, 100) {
        QueryStep::Done(v) => {
            assert_eq!(v.len(), 2);
            assert_eq!(v[0].total_price, 50);
            assert_eq!(v[1].total_price, 40);
        }
        _ => panic!("expected the cached answer"),
    }
}

#[test]
fn result_expiry_triggers_recomputation() {
    let mut engine = Engine::new(300);
    let q = query(false);
    assert!(matches!(engine.begin_query(&q, 0), QueryStep::Start));
    let listings = vec![listing(1, 10, 70, false)];
    engine.finish_job(&q, &listings, 0);
    // still fresh at the expiration instant
    assert!(matches!(engine.begin_query(&q, RESULTS_TTL_SECS), QueryStep::Done(_)));
    // one instant later the entry is a miss and a new computation starts
    assert!(matches!(engine.begin_query(&q, RESULTS_TTL_SECS + 1), QueryStep::Start));
}

#[test]
fn hq_fallback_caches_under_both_keys() {
    let mut engine = Engine::new(300);
    let hq_query = query(true);
    assert!(matches!(engine.begin_query(&hq_query, 0), QueryStep::Start));
    // no high-quality subset reaches 8 units, the mixed set does
    let listings = vec![
        listing(1, 2, 10, true),
        listing(2, 10, 50, false),
        listing(3, 1, 5, true),
    ];
    let answer = engine.finish_job(&hq_query, &listings, 0);
    assert_eq!(answer.len(), 1);
    assert_eq!(answer[0].world_id, 2);
    // the unrestricted query hits the cache with the same value
    let nq_query = query(false);
    match engine.begin_query(&nq_query, 10) {
        QueryStep::Done(v) => {
            assert_eq!(v.len(), 1);
            assert_eq!(v[0].world_id, 2);
        }
        _ => panic!("expected the shared cached answer"),
    }
}

#[test]
fn hq_feasible_answer_stays_under_hq_key_only() {
    let mut engine = Engine::new(300);
    let hq_query = query(true);
    assert!(matches!(engine.begin_query(&hq_query, 0), QueryStep::Start));
    let listings = vec![
        listing(1, 9, 30, true),
        listing(2, 1, 5, true),
        listing(3, 10, 10, false),
    ];
    let answer = engine.finish_job(&hq_query, &listings, 0);
    assert_eq!(answer.len(), 1);
    assert_eq!(answer[0].world_id, 1);
    // the unrestricted query was not answered by the restricted run
    assert!(matches!(engine.begin_query(&query(false), 10), QueryStep::Start));
}

#[test]
fn failed_job_releases_the_slot() {
    let mut engine = Engine::new(300);
    let q = query(false);
    assert!(matches!(engine.begin_query(&q, 0), QueryStep::Start));
    engine.fail_job(&q);
    // nothing was cached; a later call may retry
    assert!(matches!(engine.begin_query(&q, 1), QueryStep::Start));
}

#[test]
fn listings_cache_honours_configured_ttl() {
    let mut engine = Engine::new(300);
    let q = query(false);
    assert!(engine.cached_listings(&q, 0).is_none());
    let listings = vec![listing(1, 5, 50, false)];
    engine.store_listings(&q, &listings, 0);
    let hit = engine.cached_listings(&q, 300).expect("fresh until the ttl runs out");
    assert_eq!(hit.len(), 1);
    assert!(engine.cached_listings(&q, 301).is_none());
}

#[test]
fn listings_are_shared_across_amount_and_quality() {
    let mut engine = Engine::new(300);
    let q = query(false);
    let listings = vec![listing(1, 5, 50, false)];
    engine.store_listings(&q, &listings, 0);
    let hq_variant = Query { want_hq: true, amount: 3, ..q };
    assert!(engine.cached_listings(&hq_variant, 10).is_some());
}

#[test]
fn amount_window() {
    assert!(!Query { amount: 0, ..query(false) }.amount_in_range());
    assert!(Query { amount: 1, ..query(false) }.amount_in_range());
    assert!(Query { amount: 1000, ..query(false) }.amount_in_range());
    assert!(!Query { amount: 1001, ..query(false) }.amount_in_range());
}

#[test]
fn compute_then_store_equals_finish() {
    // the lock-free computation plus the storing transition behave like
    // the one-call form
    let mut engine = Engine::new(300);
    let q = query(false);
    assert!(matches!(engine.begin_query(&q, 0), QueryStep::Start));
    let listings = vec![
        listing(1, 5, 50, false),
        listing(2, 3, 40, false),
        listing(3, 10, 200, false),
    ];
    let answer = compute_answer(&listings, q.amount, q.want_hq);
    assert!(!answer.shared_with_unrestricted);
    let stored = engine.store_answer(&q, answer, 0);
    assert_eq!(stored.len(), 2);
    assert!(matches!(engine.begin_query(&q, 100), QueryStep::Done(_)));
}

#[test]
fn compute_answer_marks_fallback_as_shared() {
    // no high-quality subset reaches 8 units, so the fallback answer is
    // marked for both keys; storing it serves the unrestricted query too
    let listings = vec![
        listing(1, 2, 10, true),
        listing(2, 10, 50, false),
        listing(3, 1, 5, true),
    ];
    let answer = compute_answer(&listings, 8, true);
    assert!(answer.shared_with_unrestricted);
    assert_eq!(answer.chosen.len(), 1);
    assert_eq!(answer.chosen[0].world_id, 2);

    let mut engine = Engine::new(300);
    let hq_query = query(true);
    assert!(matches!(engine.begin_query(&hq_query, 0), QueryStep::Start));
    let stored = engine.store_answer(&hq_query, answer, 0);
    assert_eq!(stored.len(), 1);
    assert!(matches!(engine.begin_query(&query(false), 10), QueryStep::Done(_)));
}
